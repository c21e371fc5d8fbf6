//! Spans of time, counted in nanoseconds.

use vstd::prelude::*;
use std::time::Duration;

verus! {

/// The number of nanoseconds in a `std::time::Duration`.
pub uninterp spec fn nanos(d: Duration) -> nat;

/// The largest number of nanoseconds that a `Duration` holds.
pub const MAX_NANOS: u128 = 18_446_744_073_709_551_615_999_999_999;

/// `Duration::as_nanos`: the span in nanoseconds, at most that of
/// `Duration::MAX`.
pub assume_specification[ Duration::as_nanos ](d: &Duration) -> (r: u128)
    ensures
        r == nanos(*d),
        r <= MAX_NANOS,
;

/// `Duration::new`: whole seconds and nanoseconds below one second.
pub assume_specification[ Duration::new ](secs: u64, subsec: u32) -> (r: Duration)
    requires
        subsec < 1_000_000_000,
    ensures
        nanos(r) == secs * 1_000_000_000 + subsec,
;

/// The span of `n` nanoseconds.
pub fn span(n: u128) -> (r: Duration)
    requires
        n <= MAX_NANOS,
    ensures
        nanos(r) == n,
{
    let secs: u128 = n / 1_000_000_000;
    let subsec: u128 = n % 1_000_000_000;
    Duration::new(secs as u64, subsec as u32)
}

/// The span of `ms` milliseconds.
pub fn millis(ms: u64) -> (r: Duration)
    ensures
        nanos(r) == ms * 1_000_000,
{
    span(ms as u128 * 1_000_000)
}

/// The span of `s` seconds.
pub fn secs(s: u64) -> (r: Duration)
    ensures
        nanos(r) == s * 1_000_000_000,
{
    span(s as u128 * 1_000_000_000)
}

pub open spec fn min_nat(a: nat, b: nat) -> nat {
    if a <= b {
        a
    } else {
        b
    }
}

pub open spec fn max_nat(a: nat, b: nat) -> nat {
    if a >= b {
        a
    } else {
        b
    }
}

/// What remains of `a` after `b`, or nothing.
pub open spec fn monus(a: nat, b: nat) -> nat {
    if a >= b {
        (a - b) as nat
    } else {
        0
    }
}

/// The shorter of two spans.
pub fn shorter(a: Duration, b: Duration) -> (r: Duration)
    ensures
        nanos(r) == min_nat(nanos(a), nanos(b)),
        r == a || r == b,
{
    if a.as_nanos() <= b.as_nanos() {
        a
    } else {
        b
    }
}

/// The longer of two spans.
pub fn longer(a: Duration, b: Duration) -> (r: Duration)
    ensures
        nanos(r) == max_nat(nanos(a), nanos(b)),
        r == a || r == b,
{
    if a.as_nanos() >= b.as_nanos() {
        a
    } else {
        b
    }
}

} // verus!
