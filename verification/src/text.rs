//! Plain-text rendering helpers: decimal numerals, built character by
//! character so their contents are pinned down exactly.

use vstd::prelude::*;

verus! {

/// The numeral for one decimal digit.
pub open spec fn digit_char(d: nat) -> char {
    if d == 0 {
        '0'
    } else if d == 1 {
        '1'
    } else if d == 2 {
        '2'
    } else if d == 3 {
        '3'
    } else if d == 4 {
        '4'
    } else if d == 5 {
        '5'
    } else if d == 6 {
        '6'
    } else if d == 7 {
        '7'
    } else if d == 8 {
        '8'
    } else {
        '9'
    }
}

/// The decimal numeral of `n`, most significant digit first.
pub open spec fn dec_digits(n: nat) -> Seq<char>
    decreases n,
{
    if n < 10 {
        seq![digit_char(n)]
    } else {
        dec_digits(n / 10) + seq![digit_char(n % 10)]
    }
}

/// The decimal spelling of an integer: a minus sign and the magnitude's
/// numeral for negative values, the plain numeral otherwise.
pub open spec fn int_chars(v: int) -> Seq<char> {
    if v < 0 {
        seq!['-'] + dec_digits((-v) as nat)
    } else {
        dec_digits(v as nat)
    }
}

/// The numeral for one decimal digit.
pub fn digit_str(d: usize) -> (r: &'static str)
    requires
        d < 10,
    ensures
        r@ == seq![digit_char(d as nat)],
{
    proof {
        reveal_strlit("0");
        reveal_strlit("1");
        reveal_strlit("2");
        reveal_strlit("3");
        reveal_strlit("4");
        reveal_strlit("5");
        reveal_strlit("6");
        reveal_strlit("7");
        reveal_strlit("8");
        reveal_strlit("9");
    }
    match d {
        0 => "0",
        1 => "1",
        2 => "2",
        3 => "3",
        4 => "4",
        5 => "5",
        6 => "6",
        7 => "7",
        8 => "8",
        _ => "9",
    }
}

/// The decimal numeral of `n`.
pub fn usize_string(n: usize) -> (r: String)
    ensures
        r@ == dec_digits(n as nat),
    decreases n,
{
    if n < 10 {
        String::from_str(digit_str(n))
    } else {
        let mut s = usize_string(n / 10);
        s.append(digit_str(n % 10));
        s
    }
}

/// The decimal numeral of `n`.
pub fn u64_string(n: u64) -> (r: String)
    ensures
        r@ == dec_digits(n as nat),
    decreases n,
{
    if n < 10 {
        String::from_str(digit_str((n % 10) as usize))
    } else {
        let mut s = u64_string(n / 10);
        s.append(digit_str((n % 10) as usize));
        s
    }
}

/// The decimal spelling of `v`, sign included.
pub fn i64_string(v: i64) -> (r: String)
    ensures
        r@ == int_chars(v as int),
{
    if v >= 0 {
        u64_string(v as u64)
    } else {
        let magnitude: u64 = if v == i64::MIN {
            9223372036854775808u64
        } else {
            (-v) as u64
        };
        proof {
            reveal_strlit("-");
        }
        let mut s = String::from_str("-");
        let rest = u64_string(magnitude);
        s.append(rest.as_str());
        proof {
            assert(s@ =~= int_chars(v as int));
        }
        s
    }
}

} // verus!
