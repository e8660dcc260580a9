//! Small integer helpers.
use vstd::prelude::*;

verus! {

/// `x + 1`.
pub fn add_one(x: i32) -> (r: i32)
    requires
        x < i32::MAX,
    ensures
        r == x + 1,
{
    x + 1
}

/// `x + 2`.
pub fn add_two(x: i32) -> (r: i32)
    requires
        x <= i32::MAX - 2,
    ensures
        r == x + 2,
{
    x + 2
}

} // verus!
