//! The recorded board scenarios: each builds a board, expands it under a
//! generous time budget, and prints the board and the scored tree.

use snake_engine::snake::minmax::{Options, Walker};
use snake_engine::snake::{Board, Game, Pos, Snake};

fn p(x: isize, y: isize) -> Pos {
    Pos { x, y }
}

struct Scenario {
    name: &'static str,
    width: isize,
    height: isize,
    food: Vec<Pos>,
    snakes: Vec<Snake>,
    depth: usize,
}

fn run_scenario(s: Scenario) {
    let board = Board::new(
        Game {
            width: s.width,
            height: s.height,
        },
        s.snakes,
        s.food,
    );
    let opts = Options {
        max_depth: s.depth,
        sla: 20_000,
    };
    let node = Walker::new().walk(board, opts);
    println!("{}", s.name);
    println!("board:\n{}", node.board.render());
    println!("tree:\n{}", node.render());
}

#[test]
fn basic_single_player_setup() {
    run_scenario(Scenario {
        name: "basic_single_player_setup",
        width: 5,
        height: 5,
        food: vec![p(0, 0)],
        snakes: vec![Snake::new(vec![p(0, 1), p(0, 2)])],
        depth: 2,
    })
}

#[test]
fn basic_multi_player_setup() {
    run_scenario(Scenario {
        name: "basic_multi_player_setup",
        width: 5,
        height: 5,
        food: vec![p(0, 0)],
        snakes: vec![
            Snake::new(vec![p(0, 1), p(0, 2)]),
            Snake::new(vec![p(2, 2), p(2, 3)]),
        ],
        depth: 2,
    })
}

#[test]
fn basic_large_player_setup() {
    run_scenario(Scenario {
        name: "basic_large_player_setup",
        height: 10,
        width: 10,
        food: vec![p(0, 0)],
        snakes: vec![
            Snake::new(vec![p(0, 1), p(0, 2)]),
            Snake::new(vec![p(2, 2), p(2, 3)]),
            Snake::new(vec![p(2, 4), p(2, 5)]),
            Snake::new(vec![p(2, 6), p(2, 7)]),
        ],
        depth: 2,
    });
}

#[test]
fn potential_death() {
    run_scenario(Scenario {
        name: "potential_death",
        height: 5,
        width: 5,
        food: vec![],
        snakes: vec![
            Snake::new(vec![p(1, 0)]),
            Snake::new(vec![p(0, 1), p(0, 2), p(0, 3)]),
        ],
        depth: 2,
    });
}

#[test]
fn eats_food() {
    run_scenario(Scenario {
        name: "eats_food",
        height: 5,
        width: 5,
        food: vec![p(0, 0)],
        snakes: vec![Snake::new(vec![p(1, 0)])],
        depth: 2,
    });
}

#[test]
fn trapped_myself() {
    run_scenario(Scenario {
        name: "trapped_myself",
        width: 11,
        height: 11,
        food: vec![],
        snakes: vec![Snake::new(vec![
            p(0, 8),
            p(1, 8),
            p(1, 9),
            p(1, 10),
            p(2, 10),
            p(3, 10),
        ])],
        depth: 3,
    });
}

#[test]
fn trapped_by_another() {
    run_scenario(Scenario {
        name: "trapped_by_another",
        width: 5,
        height: 5,
        food: vec![],
        snakes: vec![
            Snake::new(vec![p(2, 0), p(2, 1)]),
            Snake::new(vec![p(1, 1), p(0, 1), p(0, 2), p(0, 3)]),
        ],
        depth: 6,
    });
}

#[test]
fn trapped_game_regression_1() {
    run_scenario(Scenario {
        name: "trapped_game_regression_1",
        width: 11,
        height: 11,
        food: vec![p(6, 6)],
        snakes: vec![
            Snake::new(vec![p(7, 6), p(7, 5), p(7, 4)]),
            Snake::new(vec![
                p(5, 7),
                p(5, 6),
                p(5, 5),
                p(5, 4),
                p(5, 3),
                p(6, 3),
                p(7, 3),
                p(8, 3),
            ]),
        ],
        depth: 3,
    });
}
