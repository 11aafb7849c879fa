//! The compute half of request handling: the pieces of the transport
//! layer that only look at plain values — reading a decimal header value
//! and bounding the request body inside its buffer.  The I/O around them
//! lives with the surrounding service.

use vstd::prelude::*;

verus! {

/// Whether `s` is a nonempty run of ASCII decimal digits.
pub open spec fn is_digits(s: Seq<u8>) -> bool {
    s.len() > 0 && forall|i: int| 0 <= i < s.len() ==> 48 <= #[trigger] s[i] <= 57
}

/// The number a run of decimal digits spells, most significant first.
pub open spec fn digits_value(s: Seq<u8>) -> nat
    decreases s,
{
    if s.len() == 0 {
        0
    } else {
        digits_value(s.drop_last()) * 10 + (if s.last() >= 48 {
            (s.last() - 48) as nat
        } else {
            0
        })
    }
}

/// The number a decimal header value spells: the digits' value if the
/// bytes are all digits and the value fits the machine, nothing
/// otherwise.
pub open spec fn parse_usize_spec(s: Seq<u8>) -> Option<usize> {
    if is_digits(s) && digits_value(s) <= usize::MAX {
        Option::Some(digits_value(s) as usize)
    } else {
        Option::None
    }
}

/// Read a decimal header value.
#[verifier::loop_isolation(false)]
pub fn parse_usize(bytes: &[u8]) -> (r: Option<usize>)
    ensures
        r == parse_usize_spec(bytes@),
{
    if bytes.len() == 0 {
        return None;
    }
    let mut acc: usize = 0;
    let mut i: usize = 0;
    while i < bytes.len()
        invariant
            0 <= i <= bytes@.len(),
            forall|k: int| 0 <= k < i ==> 48 <= #[trigger] bytes@[k] <= 57,
            acc == digits_value(bytes@.take(i as int)),
        decreases bytes@.len() - i,
    {
        let b = bytes[i];
        if b < 48 || b > 57 {
            proof {
                assert(!is_digits(bytes@));
            }
            return None;
        }
        let d = (b - 48) as usize;
        if acc > (usize::MAX - d) / 10 {
            proof {
                let t = bytes@.take(i + 1);
                assert(t.drop_last() =~= bytes@.take(i as int));
                assert(digits_value(t) > usize::MAX) by (nonlinear_arith)
                    requires
                        digits_value(t) == digits_value(t.drop_last()) * 10 + (t.last() - 48),
                        t.drop_last() == bytes@.take(i as int),
                        t.last() == bytes@[i as int],
                        acc == digits_value(bytes@.take(i as int)),
                        acc > (usize::MAX - (bytes@[i as int] - 48)) / 10,
                        48 <= bytes@[i as int] <= 57,
                ;
                if is_digits(bytes@) {
                    lemma_digits_value_grows(bytes@, i + 1);
                }
            }
            return None;
        }
        let new_acc = acc * 10 + d;
        proof {
            let t = bytes@.take(i + 1);
            assert(t.drop_last() =~= bytes@.take(i as int));
            assert(acc * 10 + d <= usize::MAX) by (nonlinear_arith)
                requires
                    acc <= (usize::MAX - d) / 10,
                    0 <= d <= 9,
            ;
        }
        acc = new_acc;
        i += 1;
    }
    proof {
        assert(bytes@.take(bytes@.len() as int) =~= bytes@);
    }
    Some(acc)
}

/// A longer digit run never spells a smaller number.
proof fn lemma_digits_value_grows(s: Seq<u8>, i: int)
    requires
        0 <= i <= s.len(),
        forall|k: int| 0 <= k < s.len() ==> 48 <= #[trigger] s[k] <= 57,
    ensures
        digits_value(s) >= digits_value(s.take(i)),
    decreases s.len() - i,
{
    if i < s.len() {
        lemma_digits_value_grows(s, i + 1);
        let t = s.take(i + 1);
        assert(t.drop_last() =~= s.take(i));
        assert(digits_value(t) == digits_value(s.take(i)) * 10 + (s[i] - 48));
        assert(digits_value(t) >= digits_value(s.take(i))) by (nonlinear_arith)
            requires
                digits_value(t) == digits_value(s.take(i)) * 10 + (s[i] - 48),
                48 <= s[i] <= 57,
        ;
    } else {
        assert(s.take(i) =~= s);
    }
}

/// Where a request body of `len` bytes sits in a buffer of `buf_len`
/// bytes when it starts at `start`: its half-open byte range, or nothing
/// when the buffer cannot hold it.
pub open spec fn content_bounds_spec(start: nat, len: nat, buf_len: nat) -> Option<(usize, usize)> {
    if start + len <= buf_len && start + len <= usize::MAX {
        Option::Some((start as usize, (start + len) as usize))
    } else {
        Option::None
    }
}

/// Bound a request body inside its buffer.
pub fn content_bounds(start: usize, len: usize, buf_len: usize) -> (r: Option<(usize, usize)>)
    ensures
        r == content_bounds_spec(start as nat, len as nat, buf_len as nat),
{
    if len <= buf_len && start <= buf_len - len {
        Some((start, start + len))
    } else {
        None
    }
}

} // verus!
