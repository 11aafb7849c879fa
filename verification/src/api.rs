//! The wire-shaped types the surrounding service exchanges with the
//! engine: a board description coming in, a direction going out.  The
//! service's transport and serialisation live outside the engine; these
//! types only carry the values.

use vstd::prelude::*;

verus! {

/// The static service description returned for a root request.
#[derive(Debug)]
pub struct RootResponse {
    pub api_version: &'static str,
    pub author: &'static str,
    pub color: &'static str,
    pub head: &'static str,
    pub tail: &'static str,
    pub version: &'static str,
}

/// The chosen direction for one tick.
#[derive(Debug)]
pub struct MoveResponse {
    pub direction: Direction,
}

/// A direction on the wire.
#[derive(Clone, Copy, Debug, PartialEq, Eq, Structural)]
pub enum Direction {
    Up,
    Down,
    Left,
    Right,
}

/// One decision request: the game parameters, the tick counter, the board,
/// and which of its agents the engine is deciding for.
#[derive(Debug)]
pub struct MoveRequest<'a> {
    pub game: Game,
    pub turn: u16,
    pub board: Board<'a>,
    pub you: Snake<'a>,
}

/// Game-level parameters of a request.
#[derive(Debug)]
pub struct Game {
    pub timeout: u16,
}

/// The board as described on the wire.
#[derive(Debug)]
pub struct Board<'a> {
    pub height: u16,
    pub width: u16,
    pub food: Vec<Point>,
    pub hazards: Vec<Point>,
    pub snakes: Vec<Snake<'a>>,
}

/// One agent as described on the wire.
#[derive(Debug)]
pub struct Snake<'a> {
    pub id: &'a str,
    pub health: u16,
    pub length: u16,
    pub body: Vec<Point>,
}

/// A coordinate pair on the wire.
#[derive(Clone, Copy, Debug, PartialEq, Eq, Structural)]
pub struct Point {
    pub x: i16,
    pub y: i16,
}

} // verus!
