//! Decision engine for a turn-based multi-agent grid survival game.
//!
//! Each tick every agent (a "snake" occupying a path of grid cells) chooses
//! one of four cardinal moves; agents die by leaving the grid, colliding with
//! a body segment, or losing a head-to-head collision.  The engine simulates
//! candidate moves, expands a bounded game tree, scores it minimax-style and
//! picks the safest move for the controlled agent.

pub mod api;
pub mod snake;
pub mod stats;
pub mod text;
pub mod wire;
