use vstd::prelude::*;

pub mod render;

verus! {

/// The value that a 32-bit two's-complement addition of `a` and `b` yields:
/// the mathematical sum, brought back into the `i32` range modulo 2^32.
pub open spec fn wrapped_sum(a: i32, b: i32) -> int {
    if a + b > i32::MAX {
        a + b - 0x1_0000_0000
    } else if a + b < i32::MIN {
        a + b + 0x1_0000_0000
    } else {
        a + b
    }
}

/// Adds two 32-bit signed integers. Where the sum leaves the `i32` range it
/// wraps around, so the function is total and never panics.
pub fn foo(a: i32, b: i32) -> (r: i32)
    ensures
        r as int == wrapped_sum(a, b),
{
    a.wrapping_add(b)
}

/// Where the sum of `a` and `b` fits in an `i32`, `foo` returns exactly that sum.
pub proof fn lemma_foo_is_exact_sum(a: i32, b: i32)
    requires
        i32::MIN <= a + b <= i32::MAX,
    ensures
        wrapped_sum(a, b) == a + b,
{
}

} // verus!
