//! The producer half of the generic runner. The loop itself — select over
//! the callback and the shutdown signal, exit on send failure or shutdown —
//! is channel plumbing and lives with the driver.

use vstd::prelude::*;

verus! {

pub fn add(left: u64, right: u64) -> (sum: u64)
    requires
        left + right <= u64::MAX,
    ensures
        sum == left + right,
{
    left + right
}

} // verus!
