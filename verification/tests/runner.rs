//! Tests for the request adapter: board construction, validation and the
//! end-to-end answer.

use snake_engine::api::{Board, Direction, Game, MoveRequest, Point, Snake};
use snake_engine::snake::api::{request_is_valid, Runner};
use snake_engine::snake::Pos;

fn pt(x: i16, y: i16) -> Point {
    Point { x, y }
}

fn request<'a>(
    width: u16,
    height: u16,
    food: Vec<Point>,
    snakes: Vec<Snake<'a>>,
    you: Snake<'a>,
) -> MoveRequest<'a> {
    MoveRequest {
        game: Game { timeout: 500 },
        turn: 1,
        board: Board {
            height,
            width,
            food,
            hazards: vec![],
            snakes,
        },
        you,
    }
}

fn wire_snake<'a>(id: &'a str, body: Vec<Point>) -> Snake<'a> {
    Snake {
        id,
        health: 90,
        length: body.len() as u16,
        body,
    }
}

#[test]
fn from_request_puts_controlled_agent_first() {
    let you = wire_snake("me", vec![pt(1, 0)]);
    let req = request(
        5,
        5,
        vec![pt(0, 0)],
        vec![
            wire_snake("other", vec![pt(3, 3), pt(3, 4)]),
            wire_snake("me", vec![pt(1, 0)]),
        ],
        you,
    );
    let board = Runner::new().from_request(&req);
    assert_eq!(board.game.width, 5);
    assert_eq!(board.game.height, 5);
    // the controlled agent is first; its duplicate entry is skipped
    assert_eq!(board.snakes.len(), 2);
    assert_eq!(board.snakes[0].body, vec![Pos { x: 1, y: 0 }]);
    assert_eq!(
        board.snakes[1].body,
        vec![Pos { x: 3, y: 3 }, Pos { x: 3, y: 4 }]
    );
    assert_eq!(board.food, vec![Pos { x: 0, y: 0 }]);
}

#[test]
fn empty_controlled_body_is_rejected() {
    let you = wire_snake("me", vec![]);
    let req = request(5, 5, vec![], vec![], you);
    assert!(!request_is_valid(&req));
}

#[test]
fn empty_opponent_body_is_rejected() {
    let you = wire_snake("me", vec![pt(1, 0)]);
    let req = request(
        5,
        5,
        vec![],
        vec![wire_snake("other", vec![])],
        you,
    );
    assert!(!request_is_valid(&req));
}

#[test]
fn ordinary_request_is_valid() {
    let you = wire_snake("me", vec![pt(1, 0)]);
    let req = request(
        5,
        5,
        vec![pt(0, 0)],
        vec![wire_snake("me", vec![pt(1, 0)])],
        you,
    );
    assert!(request_is_valid(&req));
}

#[test]
fn run_answers_even_when_trapped() {
    // the controlled agent fills the whole board: every move is lethal
    // and the runner still answers the default direction
    let you = wire_snake("me", vec![pt(0, 0)]);
    let req = request(1, 1, vec![], vec![wire_snake("me", vec![pt(0, 0)])], you);
    assert!(request_is_valid(&req));
    let direction = Runner::new().run(&req);
    assert_eq!(direction, Direction::Up);
}
