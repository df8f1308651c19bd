//! Engine-level sizing. The lifecycle itself — spawning the two tasks,
//! joining them on shutdown — is task plumbing and lives with the driver;
//! the channel bound it must use is fixed here.

use vstd::prelude::*;

verus! {

/// How many event batches the channel between producer and consumer may
/// buffer: enough blocks to cover finality or one checkpoint interval,
/// times the expected events per block, times a burst safety factor.
pub fn channel_size(checkpoint_interval: u64) -> (n: usize)
    requires
        checkpoint_interval * 100 <= usize::MAX,
    ensures
        n == (if checkpoint_interval > 12 {
            checkpoint_interval as int
        } else {
            12
        }) * 50 * 2,
{
    let burst_factor: usize = 2;
    let avg_events_per_block: usize = 50;
    let finality: usize = 12;
    let blocks: usize = if checkpoint_interval > 12 {
        checkpoint_interval as usize
    } else {
        finality
    };
    blocks * avg_events_per_block * burst_factor
}

} // verus!
