//! The library's unit of time.

use vstd::prelude::*;

verus! {

/// Ticks in a second. A tick is a third of a nanosecond: the coarsest unit in
/// which both a nanosecond (3 ticks) and an output frame at 30 fps
/// ([`TICKS_PER_FRAME`]) are whole, so no time on either grid is rounded.
pub const TICKS_PER_SECOND: i64 = 3_000_000_000;

/// Ticks in one output frame: a thirtieth of a second.
pub const TICKS_PER_FRAME: i64 = 100_000_000;

/// `t`, or the nearer end of `low..=high` when it lies outside.
pub open spec fn clamped(t: int, low: int, high: int) -> int {
    if t < low {
        low
    } else if t > high {
        high
    } else {
        t
    }
}

/// The larger of two integers.
pub open spec fn larger(a: int, b: int) -> int {
    if a >= b {
        a
    } else {
        b
    }
}

/// The smaller of two integers.
pub open spec fn smaller(a: int, b: int) -> int {
    if a <= b {
        a
    } else {
        b
    }
}

} // verus!
