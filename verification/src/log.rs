//! Plain model of a raw contract log as the node reports it. Fields that the
//! chain only fills once the surrounding transaction is mined are optional.

use vstd::prelude::*;

use crate::source::SourceInput;

verus! {

/// One raw log record. `topics` holds the indexed fields, the event
/// signature first; `data` the unindexed payload bytes.
#[derive(Clone, Debug)]
pub struct LogRecord {
    pub block_number: Option<u64>,
    pub block_hash: Option<Vec<u8>>,
    pub transaction_hash: Option<Vec<u8>>,
    pub log_index: Option<u64>,
    pub address: Vec<u8>,
    pub topics: Vec<Vec<u8>>,
    pub data: Vec<u8>,
}

impl SourceInput for LogRecord {
    open spec fn spec_block_number(&self) -> Option<u64> {
        self.block_number
    }

    fn block_number(&self) -> (n: Option<u64>) {
        self.block_number
    }
}

} // verus!
