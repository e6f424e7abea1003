//! Arithmetic that stays within its type.
use vstd::prelude::*;

verus! {

/// `n`, but no more than 64 bits hold.
pub open spec fn capped(n: int) -> u64 {
    if n > u64::MAX {
        u64::MAX
    } else {
        n as u64
    }
}

/// `a` times `b`, but no more than 64 bits hold.
pub fn capped_product(a: u64, b: u64) -> (r: u64)
    ensures
        r == capped(a * b),
{
    match a.checked_mul(b) {
        Some(n) => n,
        None => u64::MAX,
    }
}

} // verus!
