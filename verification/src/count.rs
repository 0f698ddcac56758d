//! Counters that never wrap around: one that has reached its largest
//! value stays there.

use vstd::prelude::*;

verus! {

/// A count as a counter holds it: exact up to the counter's largest value,
/// and held there beyond.
pub open spec fn capped(n: int) -> int {
    if n > i32::MAX {
        i32::MAX as int
    } else {
        n
    }
}

/// A size as a counter holds it: exact up to the counter's largest value,
/// and held there beyond.
pub open spec fn capped_size(n: int) -> int {
    if n > u64::MAX {
        u64::MAX as int
    } else {
        n
    }
}

/// Sum of two counters that stays at the largest value once there.
pub fn add_capped(a: i32, b: i32) -> (r: i32)
    requires
        a >= 0,
        b >= 0,
    ensures
        r == capped(a + b),
{
    if a > i32::MAX - b {
        i32::MAX
    } else {
        a + b
    }
}

/// Sum of two sizes that stays at the largest value once there.
pub fn add_capped_size(a: u64, b: u64) -> (r: u64)
    ensures
        r == capped_size(a + b),
{
    if a > u64::MAX - b {
        u64::MAX
    } else {
        a + b
    }
}

} // verus!
