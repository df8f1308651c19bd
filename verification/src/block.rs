//! Plain model of the chain blocks the engine works with: the number together
//! with the block hash and the parent hash, as the node reports them.

use vstd::prelude::*;

verus! {

/// A block as the engine sees it: its height and the two hashes that identify
/// it and its parent. Hashes are 32 bytes.
#[derive(Clone, Debug)]
pub struct Block {
    pub number: u64,
    pub hash: Vec<u8>,
    pub parent_hash: Vec<u8>,
}

impl Block {
    /// Both hashes have the full 32-byte width.
    pub open spec fn wf(self) -> bool {
        self.hash@.len() == 32 && self.parent_hash@.len() == 32
    }

    pub fn new(number: u64, hash: Vec<u8>, parent_hash: Vec<u8>) -> (b: Block)
        requires
            hash@.len() == 32,
            parent_hash@.len() == 32,
        ensures
            b.wf(),
            b.number == number,
            b.hash@ == hash@,
            b.parent_hash@ == parent_hash@,
    {
        Block { number, hash, parent_hash }
    }

    pub fn number(&self) -> (n: u64)
        ensures
            n == self.number,
    {
        self.number
    }
}

/// An owned copy of a byte vector, element for element.
pub fn copy_bytes(src: &Vec<u8>) -> (r: Vec<u8>)
    ensures
        r@ =~= src@,
{
    let mut r: Vec<u8> = Vec::new();
    let n = src.len();
    let mut i: usize = 0;
    while i < n
        invariant
            n == src@.len(),
            0 <= i <= n,
            r@ =~= src@.take(i as int),
        decreases n - i,
    {
        r.push(src[i]);
        i = i + 1;
    }
    proof {
        assert(src@.take(n as int) =~= src@);
    }
    r
}

} // verus!
