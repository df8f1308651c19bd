//! The durable progress marker: a block number with the block's own hash and
//! its parent's, persisted so that a restart resumes where the run stopped.

use vstd::prelude::*;

use crate::block::{copy_bytes, Block};

verus! {

/// One checkpoint row. `(block_number, block_hash)` is unique in the store;
/// the number is kept as `i64` because that is the store's integer type.
#[derive(Clone, Debug)]
pub struct Checkpoint {
    pub block_number: i64,
    pub block_hash: Vec<u8>,
    pub parent_hash: Vec<u8>,
}

impl Checkpoint {
    /// The checkpoint records exactly this block: its number and both hashes.
    pub open spec fn matches_block(self, b: Block) -> bool {
        &&& self.block_number == b.number as i64
        &&& self.block_hash@ == b.hash@
        &&& self.parent_hash@ == b.parent_hash@
    }

    /// The checkpoint row for a block.
    pub fn from_block(b: &Block) -> (c: Checkpoint)
        ensures
            c.matches_block(*b),
    {
        Checkpoint {
            block_number: #[verifier::truncate] (b.number as i64),
            block_hash: copy_bytes(&b.hash),
            parent_hash: copy_bytes(&b.parent_hash),
        }
    }
}

} // verus!
