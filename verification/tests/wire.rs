//! Tests for the transport-layer compute helpers.

use snake_engine::wire::{content_bounds, parse_usize};

#[test]
fn parses_plain_decimals() {
    assert_eq!(parse_usize(b"0"), Some(0));
    assert_eq!(parse_usize(b"123"), Some(123));
    assert_eq!(parse_usize(b"0042"), Some(42));
}

#[test]
fn rejects_non_digits() {
    assert_eq!(parse_usize(b""), None);
    assert_eq!(parse_usize(b"12a"), None);
    assert_eq!(parse_usize(b"-1"), None);
    assert_eq!(parse_usize(b" 12"), None);
}

#[test]
fn rejects_overflowing_values() {
    assert_eq!(parse_usize(b"18446744073709551615"), Some(usize::MAX));
    assert_eq!(parse_usize(b"18446744073709551616"), None);
    assert_eq!(parse_usize(b"99999999999999999999999"), None);
}

#[test]
fn bounds_content_inside_buffer() {
    assert_eq!(content_bounds(10, 5, 20), Some((10, 15)));
    assert_eq!(content_bounds(10, 5, 15), Some((10, 15)));
    assert_eq!(content_bounds(10, 6, 15), None);
    assert_eq!(content_bounds(16, 0, 15), None);
    assert_eq!(content_bounds(0, 0, 0), Some((0, 0)));
}
