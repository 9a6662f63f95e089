//! Arithmetic offered behind an optional feature.
use vstd::prelude::*;

verus! {

/// The sum of `a` and `b`.
pub fn calc(a: i32, b: i32) -> (r: i32)
    requires
        i32::MIN <= a + b <= i32::MAX,
    ensures
        r == a + b,
{
    a + b
}

} // verus!
