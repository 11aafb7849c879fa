//! Unit tests for the move simulator: one test per outcome class.

use snake_engine::snake::minmax::Walker;
use snake_engine::snake::{Board, Game, Move, Outcome, Pos, Snake, SnakeID};

fn p(x: isize, y: isize) -> Pos {
    Pos { x, y }
}

fn board(width: isize, height: isize, snakes: Vec<Snake>, food: Vec<Pos>) -> Board {
    Board::new(Game { width, height }, snakes, food)
}

#[test]
fn play_off_grid_is_died_wall() {
    let b = board(5, 5, vec![Snake::new(vec![p(0, 0), p(0, 1)])], vec![]);
    let node = Walker::new().play(&b, Move::Left, SnakeID(0));
    assert_eq!(node.result, Outcome::Off);
    // the body is threaded through unchanged
    assert_eq!(node.board.snakes[0].body, vec![p(0, 0), p(0, 1)]);
}

#[test]
fn play_top_edge_is_died_wall() {
    let b = board(5, 5, vec![Snake::new(vec![p(2, 4)])], vec![]);
    let node = Walker::new().play(&b, Move::Up, SnakeID(0));
    assert_eq!(node.result, Outcome::Off);
}

#[test]
fn play_food_grows_and_removes() {
    let b = board(5, 5, vec![Snake::new(vec![p(1, 0)])], vec![p(0, 0)]);
    let node = Walker::new().play(&b, Move::Left, SnakeID(0));
    assert_eq!(node.result, Outcome::Eat);
    // body length grows by one, new head on the food cell
    assert_eq!(node.board.snakes[0].body, vec![p(0, 0), p(1, 0)]);
    // the food entry is gone from the successor board
    assert!(node.board.food.is_empty());
    // the source board is untouched: boards are pure values
    assert_eq!(b.food, vec![p(0, 0)]);
}

#[test]
fn play_empty_keeps_length() {
    let b = board(5, 5, vec![Snake::new(vec![p(1, 0), p(1, 1)])], vec![]);
    let node = Walker::new().play(&b, Move::Right, SnakeID(0));
    assert_eq!(node.result, Outcome::Nothing);
    // new head in front, tail vacated
    assert_eq!(node.board.snakes[0].body, vec![p(2, 0), p(1, 0)]);
}

#[test]
fn play_into_body_is_died_collision() {
    let b = board(
        5,
        5,
        vec![
            Snake::new(vec![p(2, 0), p(2, 1)]),
            Snake::new(vec![p(3, 1), p(3, 0)]),
        ],
        vec![],
    );
    // agent 0 runs into agent 1's tail segment (not its head)
    let node = Walker::new().play(&b, Move::Right, SnakeID(0));
    assert_eq!(node.result, Outcome::Dead);
}

#[test]
fn play_equal_length_head_to_head_loses() {
    let b = board(
        5,
        5,
        vec![Snake::new(vec![p(1, 0)]), Snake::new(vec![p(2, 0)])],
        vec![],
    );
    // equal length: moving onto the opposing head is a loss for the mover
    let node = Walker::new().play(&b, Move::Right, SnakeID(0));
    assert_eq!(node.result, Outcome::Dead);
    let node = Walker::new().play(&b, Move::Left, SnakeID(1));
    assert_eq!(node.result, Outcome::Dead);
}

#[test]
fn play_longer_mover_kills_opponent() {
    let b = board(
        5,
        5,
        vec![
            Snake::new(vec![p(1, 0), p(0, 0)]),
            Snake::new(vec![p(2, 0)]),
        ],
        vec![],
    );
    let node = Walker::new().play(&b, Move::Right, SnakeID(0));
    assert_eq!(node.result, Outcome::Kill);
}

#[test]
fn play_opponent_killing_controlled_agent_is_was_killed() {
    let b = board(
        5,
        5,
        vec![
            Snake::new(vec![p(1, 0)]),
            Snake::new(vec![p(2, 0), p(3, 0)]),
        ],
        vec![],
    );
    // the longer opponent moves onto the controlled agent's head
    let node = Walker::new().play(&b, Move::Left, SnakeID(1));
    assert_eq!(node.result, Outcome::KillMe);
}

#[test]
fn play_into_own_body_is_died_collision() {
    let b = board(
        5,
        5,
        vec![Snake::new(vec![p(1, 0), p(1, 1), p(2, 1), p(2, 0)])],
        vec![],
    );
    let node = Walker::new().play(&b, Move::Right, SnakeID(0));
    assert_eq!(node.result, Outcome::Dead);
}
