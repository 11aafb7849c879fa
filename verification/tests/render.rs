//! Tests for the text renderings and the score arithmetic.

use snake_engine::snake::minmax::{Options, Score, Walker};
use snake_engine::snake::{Board, Game, Move, Pos, Snake};
use snake_engine::stats::{Counter, Stats};
use snake_engine::text::{i64_string, u64_string, usize_string};
use std::sync::atomic::AtomicUsize;

fn p(x: isize, y: isize) -> Pos {
    Pos { x, y }
}

#[test]
fn moves_render_lower_case() {
    assert_eq!(Move::Up.render(), "up");
    assert_eq!(Move::Down.render(), "down");
    assert_eq!(Move::Left.render(), "left");
    assert_eq!(Move::Right.render(), "right");
}

#[test]
fn numerals_render_exactly() {
    assert_eq!(usize_string(0), "0");
    assert_eq!(usize_string(7), "7");
    assert_eq!(usize_string(10), "10");
    assert_eq!(usize_string(90210), "90210");
    assert_eq!(u64_string(18_446_744_073_709_551_615), "18446744073709551615");
    assert_eq!(i64_string(-4), "-4");
    assert_eq!(i64_string(0), "0");
    assert_eq!(i64_string(i64::MIN), "-9223372036854775808");
}

#[test]
fn scores_render_exactly() {
    assert_eq!(Score::Inf.render(), "inf");
    assert_eq!(Score::NegInf.render(), "-inf");
    assert_eq!(Score::Fin(-4).render(), "-4");
    assert_eq!(Score::Fin(12).render(), "12");
}

#[test]
fn score_addition_saturates() {
    assert_eq!(Score::Fin(3).add(Score::Fin(4)), Score::Fin(7));
    assert_eq!(Score::Fin(i64::MAX).add(Score::Fin(1)), Score::Fin(i64::MAX));
    assert_eq!(
        Score::Fin(i64::MIN).add(Score::Fin(-1)),
        Score::Fin(i64::MIN)
    );
    assert_eq!(Score::Inf.add(Score::Fin(-100)), Score::Inf);
    assert_eq!(Score::NegInf.add(Score::Fin(100)), Score::NegInf);
}

#[test]
fn score_order_puts_infinities_at_the_ends() {
    assert!(Score::NegInf.lt(Score::Fin(i64::MIN)));
    assert!(Score::Fin(i64::MAX).lt(Score::Inf));
    assert!(Score::Fin(-1).lt(Score::Fin(0)));
    assert!(!Score::Inf.lt(Score::Inf));
    assert!(!Score::NegInf.lt(Score::NegInf));
    assert!(!Score::Fin(2).lt(Score::Fin(2)));
}

#[test]
fn board_renders_rows_top_down() {
    let board = Board::new(
        Game {
            width: 2,
            height: 2,
        },
        vec![Snake::new(vec![p(0, 0)])],
        vec![p(1, 1)],
    );
    assert_eq!(board.render(), "  _ F \n  0 _ \n");
}

#[test]
fn tree_renders_labelled_nodes() {
    let node = Walker::new().walk(
        Board::new(
            Game {
                width: 1,
                height: 1,
            },
            vec![Snake::new(vec![p(0, 0)])],
            vec![],
        ),
        Options {
            max_depth: 1,
            sla: 20_000,
        },
    );
    let expected = "|- Root [0] up\n   |- up [0] inf\n   |- down [0] inf\n   |- left [0] inf\n   |- right [0] inf\n";
    assert_eq!(node.render(), expected);
}

#[test]
fn counters_count_and_render() {
    let counter = Counter("engine.requests", AtomicUsize::new(0));
    assert_eq!(counter.get(), 0);
    counter.inc();
    counter.inc_by(4);
    assert_eq!(counter.get(), 5);
    assert_eq!(counter.render(), "engine.requests: 5");
}

#[test]
fn stats_render_joins_counters() {
    let stats = Stats {
        alloc_bytes: Counter("allocator.alloc_bytes", AtomicUsize::new(0)),
        alloc_calls: Counter("allocator.alloc_calls", AtomicUsize::new(0)),
        dealloc_calls: Counter("allocator.dealloc_calls", AtomicUsize::new(0)),
        dealloc_bytes: Counter("allocator.dealloc_bytes", AtomicUsize::new(0)),
    };
    stats.alloc_bytes.inc_by(128);
    stats.alloc_calls.inc();
    assert_eq!(
        stats.render(),
        "allocator.alloc_bytes: 128, allocator.alloc_calls: 1, allocator.dealloc_bytes: 0, allocator.dealloc_calls: 0"
    );
}
