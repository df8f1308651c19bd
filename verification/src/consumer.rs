//! The consumer half of the generic runner. The loop itself — select over
//! the channel and the shutdown signal, exit on channel close or shutdown —
//! is channel plumbing and lives with the driver.

use vstd::prelude::*;

verus! {

pub fn add(left: u64, right: u64) -> (sum: u64)
    requires
        left + right <= u64::MAX,
    ensures
        sum == left + right,
{
    left + right
}

} // verus!
