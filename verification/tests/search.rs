//! Tests for the tree walker and picker: termination, determinism, the
//! deadline, and the no-legal-move fallback.

use snake_engine::snake::minmax::{score, Options, Score, Walker};
use snake_engine::snake::{Board, Game, Move, Node, Pos, Snake};

fn p(x: isize, y: isize) -> Pos {
    Pos { x, y }
}

fn board(width: isize, height: isize, snakes: Vec<Snake>, food: Vec<Pos>) -> Board {
    Board::new(Game { width, height }, snakes, food)
}

fn five_by_five() -> Board {
    board(
        5,
        5,
        vec![Snake::new(vec![p(2, 2), p(2, 3)])],
        vec![p(0, 0)],
    )
}

fn count_nodes(n: &Node) -> usize {
    let mut total = 1;
    for e in &n.edges {
        total += count_nodes(&e.next);
    }
    total
}

fn tree_equal(a: &Node, b: &Node) -> bool {
    if a.player != b.player || a.result != b.result || a.edges.len() != b.edges.len() {
        return false;
    }
    for (ea, eb) in a.edges.iter().zip(b.edges.iter()) {
        if ea.moved != eb.moved || !tree_equal(&ea.next, &eb.next) {
            return false;
        }
    }
    true
}

#[test]
fn depth_zero_gives_only_the_root() {
    let node = Walker::new().walk(
        five_by_five(),
        Options {
            max_depth: 0,
            sla: 20_000,
        },
    );
    assert!(node.is_leaf());
    assert_eq!(count_nodes(&node), 1);
}

#[test]
fn deeper_search_never_shrinks_the_tree() {
    let mut previous = 0;
    for depth in 0..5 {
        let node = Walker::new().walk(
            five_by_five(),
            Options {
                max_depth: depth,
                sla: 20_000,
            },
        );
        let count = count_nodes(&node);
        assert!(count >= previous);
        previous = count;
    }
}

#[test]
fn search_is_deterministic() {
    let opts = Options {
        max_depth: 3,
        sla: 20_000,
    };
    let first = Walker::new().walk(five_by_five(), opts);
    let second = Walker::new().walk(five_by_five(), opts);
    assert!(tree_equal(&first, &second));
    assert_eq!(first.pick(), second.pick());
}

#[test]
fn zero_budget_stops_at_the_root() {
    // an artificially tiny budget must bound the tree whatever the
    // depth limit asks for
    let node = Walker::new().walk(
        five_by_five(),
        Options {
            max_depth: 1_000_000,
            sla: 0,
        },
    );
    assert!(node.is_leaf());
}

#[test]
fn tiny_budget_returns_promptly() {
    // with one millisecond of budget even an absurd depth limit comes
    // back with a best-effort tree, never an error
    let node = Walker::new().walk(
        board(
            11,
            11,
            vec![Snake::new(vec![p(5, 5), p(5, 6)])],
            vec![p(0, 0)],
        ),
        Options {
            max_depth: 1_000_000_000,
            sla: 1,
        },
    );
    let _ = node.pick();
}

#[test]
fn filled_board_still_answers() {
    // a 1-by-1 board the controlled agent already fills: every move is
    // lethal, and the picker still answers with the default direction
    let node = Walker::new().walk(
        board(1, 1, vec![Snake::new(vec![p(0, 0)])], vec![]),
        Options {
            max_depth: 5,
            sla: 20_000,
        },
    );
    assert_eq!(node.pick(), Move::Up);
}

#[test]
fn food_two_steps_away_is_taken() {
    // 5-by-5 empty board, controlled agent at (1,0), food at (0,0):
    // left is the only move that reaches food without risk
    let node = Walker::new().walk(
        board(5, 5, vec![Snake::new(vec![p(1, 0)])], vec![p(0, 0)]),
        Options {
            max_depth: 2,
            sla: 20_000,
        },
    );
    assert_eq!(node.pick(), Move::Left);
}

#[test]
fn trapped_pick_avoids_certain_death() {
    // cornered by a longer opponent: up hits the own body, down leaves
    // the grid, and one adversarial reply kills the move left — right is
    // the one direction whose subtree scores below plus infinity, so it
    // must be picked
    let node = Walker::new().walk(
        board(
            5,
            5,
            vec![
                Snake::new(vec![p(2, 0), p(2, 1)]),
                Snake::new(vec![p(1, 1), p(0, 1), p(0, 2), p(0, 3)]),
            ],
            vec![],
        ),
        Options {
            max_depth: 2,
            sla: 20_000,
        },
    );
    assert_eq!(node.pick(), Move::Right);
    let mut saw_picked = false;
    for e in &node.edges {
        if e.moved == Move::Right {
            assert_ne!(score(&node, e), Score::Inf);
            saw_picked = true;
        } else {
            assert_eq!(score(&node, e), Score::Inf);
        }
    }
    assert!(saw_picked);
}

#[test]
fn trapped_pick_never_prefers_certain_death() {
    // the same board at full depth: whatever the horizon proves, the
    // picked direction scores below plus infinity whenever any direction
    // does, and falls back to the default when none does
    let node = Walker::new().walk(
        board(
            5,
            5,
            vec![
                Snake::new(vec![p(2, 0), p(2, 1)]),
                Snake::new(vec![p(1, 1), p(0, 1), p(0, 2), p(0, 3)]),
            ],
            vec![],
        ),
        Options {
            max_depth: 6,
            sla: 20_000,
        },
    );
    let picked = node.pick();
    let any_finite = node.edges.iter().any(|e| score(&node, e) != Score::Inf);
    if any_finite {
        let mut saw_picked = false;
        for e in &node.edges {
            if e.moved == picked {
                assert_ne!(score(&node, e), Score::Inf);
                saw_picked = true;
            }
        }
        assert!(saw_picked);
    } else {
        assert_eq!(picked, Move::Up);
    }
}
