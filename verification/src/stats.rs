//! Process-wide instrumentation counters.  They are the one resource
//! shared across concurrently handled requests, so increments are atomic
//! and lock-free; nothing is promised of the value a load observes.

use crate::text::usize_string;
use std::sync::atomic::{AtomicUsize, Ordering};
use vstd::prelude::*;

verus! {

/// A named, process-wide event counter with atomic increments.
#[derive(Debug)]
pub struct Counter(pub &'static str, pub AtomicUsize);

impl Counter {
    /// Count one event.
    pub fn inc(&self) {
        self.1.fetch_add(1, Ordering::SeqCst);
    }

    /// Count `b` units at once.
    pub fn inc_by(&self, b: usize) {
        self.1.fetch_add(b, Ordering::SeqCst);
    }

    /// The counter's current reading.  Concurrent increments may land
    /// before or after it; nothing more can be said of the value.
    pub fn get(&self) -> usize {
        self.1.load(Ordering::SeqCst)
    }

    /// The counter's name and current reading, as `name: value`.
    pub fn render(&self) -> (r: String)
        ensures
            exists|n: usize| r@ == self.0@ + ": "@ + crate::text::dec_digits(n as nat),
    {
        let mut s = String::from_str(self.0);
        s.append(": ");
        let v = self.get();
        let num = usize_string(v);
        s.append(num.as_str());
        proof {
            assert(s@ =~= self.0@ + ": "@ + crate::text::dec_digits(v as nat));
        }
        s
    }
}

/// The process-wide allocation counters, initialised once at process start
/// and independent of any per-request state.
#[derive(Debug)]
pub struct Stats {
    pub alloc_bytes: Counter,
    pub alloc_calls: Counter,
    pub dealloc_calls: Counter,
    pub dealloc_bytes: Counter,
}

impl Stats {
    /// All four counters, rendered `name: value` and comma-separated, in
    /// the order bytes and calls allocated, then bytes and calls freed.
    /// The readings themselves depend on what the atomics hold.
    pub fn render(&self) -> (r: String)
        ensures
            exists|a: usize, b: usize, c: usize, d: usize|
                r@ == self.alloc_bytes.0@ + ": "@ + crate::text::dec_digits(a as nat) + ", "@
                    + self.alloc_calls.0@ + ": "@ + crate::text::dec_digits(b as nat) + ", "@
                    + self.dealloc_bytes.0@ + ": "@ + crate::text::dec_digits(c as nat) + ", "@
                    + self.dealloc_calls.0@ + ": "@ + crate::text::dec_digits(d as nat),
    {
        let mut s = self.alloc_bytes.render();
        let ghost p1v = s@;
        let p2 = self.alloc_calls.render();
        let p3 = self.dealloc_bytes.render();
        let p4 = self.dealloc_calls.render();
        s.append(", ");
        s.append(p2.as_str());
        s.append(", ");
        s.append(p3.as_str());
        s.append(", ");
        s.append(p4.as_str());
        proof {
            let a = choose|n: usize|
                p1v == self.alloc_bytes.0@ + ": "@ + crate::text::dec_digits(n as nat);
            let b = choose|n: usize| p2@ == self.alloc_calls.0@ + ": "@ + crate::text::dec_digits(
                n as nat,
            );
            let c = choose|n: usize| p3@ == self.dealloc_bytes.0@ + ": "@
                + crate::text::dec_digits(n as nat);
            let d = choose|n: usize| p4@ == self.dealloc_calls.0@ + ": "@
                + crate::text::dec_digits(n as nat);
            assert(s@ =~= self.alloc_bytes.0@ + ": "@ + crate::text::dec_digits(a as nat) + ", "@
                + self.alloc_calls.0@ + ": "@ + crate::text::dec_digits(b as nat) + ", "@
                + self.dealloc_bytes.0@ + ": "@ + crate::text::dec_digits(c as nat) + ", "@
                + self.dealloc_calls.0@ + ": "@ + crate::text::dec_digits(d as nat));
        }
        s
    }
}

} // verus!
