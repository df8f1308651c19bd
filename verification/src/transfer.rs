//! The domain element this engine persists: one token transfer, decoded from
//! a raw log record. Its natural uniqueness key is
//! `(transaction_hash, log_index)`.

use vstd::prelude::*;

use crate::block::copy_bytes;
use crate::log::LogRecord;
use crate::source::{Decode, Outcome};

verus! {

/// One transfer row, as the sink stores it. Numbers are kept as `i64`
/// because that is the store's integer type.
#[derive(Clone, Debug)]
pub struct Transfer {
    pub block_number: i64,
    pub block_hash: Vec<u8>,
    pub transaction_hash: Vec<u8>,
    pub log_index: i64,
    pub contract_address: Vec<u8>,
    pub from_address: Vec<u8>,
    pub to_address: Vec<u8>,
    pub amount: Vec<u8>,
}

/// Why a log record does not decode into a transfer: the first missing field,
/// checked in this order.
#[derive(Clone, Copy, Debug, PartialEq, Eq, Structural)]
pub enum DecodeError {
    MissingBlockNumber,
    MissingBlockHash,
    MissingTransactionHash,
    MissingLogIndex,
    MissingFrom,
    MissingTo,
}

impl Transfer {
    /// The transfer carries exactly the fields of this log record: its block
    /// and transaction identity, the contract address, the two address
    /// topics, and the payload as the amount.
    pub open spec fn matches_log(self, log: LogRecord) -> bool {
        &&& log.block_number matches Some(bn) && self.block_number == bn as i64
        &&& log.block_hash matches Some(h) && self.block_hash@ == h@
        &&& log.transaction_hash matches Some(h) && self.transaction_hash@ == h@
        &&& log.log_index matches Some(li) && self.log_index == li as i64
        &&& self.contract_address@ == log.address@
        &&& log.topics@.len() >= 3
        &&& self.from_address@ == log.topics@[1]@
        &&& self.to_address@ == log.topics@[2]@
        &&& self.amount@ == log.data@
    }

    /// Decodes a log record, reporting the first missing field. Succeeds
    /// exactly on records that carry a block number, block hash, transaction
    /// hash, log index, and at least two address topics after the signature.
    pub fn try_from_log(log: &LogRecord) -> (r: Result<Transfer, DecodeError>)
        ensures
            r matches Ok(t) ==> t.matches_log(*log),
            r matches Err(e) ==> e == spec_decode_error(*log),
            r is Ok <==> log.spec_decodable(),
    {
        let block_number: u64 = match log.block_number {
            Some(bn) => bn,
            None => { return Err(DecodeError::MissingBlockNumber) },
        };
        let block_hash: &Vec<u8> = match &log.block_hash {
            Some(h) => h,
            None => { return Err(DecodeError::MissingBlockHash) },
        };
        let transaction_hash: &Vec<u8> = match &log.transaction_hash {
            Some(h) => h,
            None => { return Err(DecodeError::MissingTransactionHash) },
        };
        let log_index: u64 = match log.log_index {
            Some(li) => li,
            None => { return Err(DecodeError::MissingLogIndex) },
        };
        if log.topics.len() < 2 {
            return Err(DecodeError::MissingFrom);
        }
        if log.topics.len() < 3 {
            return Err(DecodeError::MissingTo);
        }
        Ok(Transfer {
            block_number: #[verifier::truncate] (block_number as i64),
            block_hash: copy_bytes(block_hash),
            transaction_hash: copy_bytes(transaction_hash),
            log_index: #[verifier::truncate] (log_index as i64),
            contract_address: copy_bytes(&log.address),
            from_address: copy_bytes(&log.topics[1]),
            to_address: copy_bytes(&log.topics[2]),
            amount: copy_bytes(&log.data),
        })
    }
}

/// The error `try_from_log` reports: the first field missing in the order
/// block number, block hash, transaction hash, log index, from-topic,
/// to-topic.
pub open spec fn spec_decode_error(log: LogRecord) -> DecodeError {
    if log.block_number is None {
        DecodeError::MissingBlockNumber
    } else if log.block_hash is None {
        DecodeError::MissingBlockHash
    } else if log.transaction_hash is None {
        DecodeError::MissingTransactionHash
    } else if log.log_index is None {
        DecodeError::MissingLogIndex
    } else if log.topics@.len() < 2 {
        DecodeError::MissingFrom
    } else if log.topics@.len() < 3 {
        DecodeError::MissingTo
    } else {
        arbitrary()
    }
}

impl LogRecord {
    /// A record decodes exactly when all four identity fields are present
    /// and the topics hold the signature and both addresses.
    pub open spec fn spec_decodable(self) -> bool {
        &&& self.block_number is Some
        &&& self.block_hash is Some
        &&& self.transaction_hash is Some
        &&& self.log_index is Some
        &&& self.topics@.len() >= 3
    }
}

impl Decode<Transfer> for LogRecord {
    open spec fn decodable(&self) -> bool {
        self.spec_decodable()
    }

    open spec fn decodes_to(&self, t: Transfer) -> bool {
        t.matches_log(*self)
    }

    fn decode(&self) -> (r: Option<Transfer>) {
        match Transfer::try_from_log(self) {
            Ok(t) => Some(t),
            Err(_) => None,
        }
    }
}

impl Outcome for Transfer {
    open spec fn spec_block_number(&self) -> u64 {
        self.block_number as u64
    }

    fn block_number(&self) -> (n: u64) {
        #[verifier::truncate] (self.block_number as u64)
    }
}

/// The store binds one variable per column, and its dialect caps the
/// variables of one statement; this many rows fit in one batched insert.
pub const SQLITE_MAX_VARIABLES: usize = 999;

pub const TRANSFER_COLUMNS: usize = 8;

pub const ROWS_PER_BATCH: usize = SQLITE_MAX_VARIABLES / TRANSFER_COLUMNS;

/// All the rows of the batches, in order.
pub open spec fn concat_batches(bs: Seq<Vec<Transfer>>) -> Seq<Transfer>
    decreases bs.len(),
{
    if bs.len() == 0 {
        Seq::empty()
    } else {
        bs[0]@ + concat_batches(bs.drop_first())
    }
}

proof fn lemma_concat_batches_push(bs: Seq<Vec<Transfer>>, v: Vec<Transfer>)
    ensures
        concat_batches(bs.push(v)) =~= concat_batches(bs) + v@,
    decreases bs.len(),
{
    if bs.len() == 0 {
        assert(bs.push(v)[0] == v);
        assert(bs.push(v).drop_first() =~= Seq::<Vec<Transfer>>::empty());
        assert(concat_batches(Seq::<Vec<Transfer>>::empty()) =~= Seq::<Transfer>::empty());
        assert(concat_batches(bs.push(v)) =~= v@ + Seq::<Transfer>::empty());
        assert(v@ + Seq::<Transfer>::empty() =~= Seq::<Transfer>::empty() + v@);
    } else {
        assert(bs.push(v)[0] == bs[0]);
        assert(bs.push(v).drop_first() =~= bs.drop_first().push(v));
        lemma_concat_batches_push(bs.drop_first(), v);
        assert(bs[0]@ + (concat_batches(bs.drop_first()) + v@) =~= (bs[0]@ + concat_batches(
            bs.drop_first(),
        )) + v@);
    }
}

/// Splits the rows of one insert into batches that respect the statement's
/// variable cap: full batches of `ROWS_PER_BATCH` rows and, last, whatever
/// remains. No batch is empty, nothing is reordered, nothing is dropped.
pub fn transfer_batches(transfers: Vec<Transfer>) -> (batches: Vec<Vec<Transfer>>)
    ensures
        concat_batches(batches@) =~= transfers@,
        forall|i: int|
            0 <= i < batches@.len() ==> 0 < (#[trigger] batches@[i])@.len() <= ROWS_PER_BATCH,
        forall|i: int|
            0 <= i < batches@.len() - 1 ==> (#[trigger] batches@[i])@.len() == ROWS_PER_BATCH,
{
    let mut batches: Vec<Vec<Transfer>> = Vec::new();
    let mut current: Vec<Transfer> = Vec::new();
    let mut rest = transfers;
    let ghost orig = rest@;
    proof {
        assert(concat_batches(batches@) + current@ + rest@ =~= orig);
    }
    while rest.len() > 0
        invariant
            concat_batches(batches@) + current@ + rest@ =~= orig,
            current@.len() < ROWS_PER_BATCH,
            forall|i: int|
                0 <= i < batches@.len() ==> (#[trigger] batches@[i])@.len() == ROWS_PER_BATCH,
        decreases rest@.len(),
    {
        let ghost pre_rest = rest@;
        let ghost pre_batches = batches@;
        let ghost pre_current = current@;
        let t = rest.remove(0);
        current.push(t);
        proof {
            assert(t == pre_rest[0]);
            assert(rest@ =~= pre_rest.drop_first());
            assert(concat_batches(batches@) + current@ + rest@ =~= orig);
        }
        if current.len() == ROWS_PER_BATCH {
            let full = current;
            current = Vec::new();
            proof {
                lemma_concat_batches_push(pre_batches, full);
            }
            batches.push(full);
            proof {
                assert(concat_batches(batches@) + current@ + rest@ =~= orig);
            }
        }
    }
    if current.len() > 0 {
        proof {
            lemma_concat_batches_push(batches@, current);
        }
        let ghost pre_batches = batches@;
        batches.push(current);
        proof {
            assert(concat_batches(batches@) =~= orig);
        }
    } else {
        proof {
            assert(current@ =~= Seq::<Transfer>::empty());
            assert(rest@ =~= Seq::<Transfer>::empty());
            assert(concat_batches(batches@) =~= orig);
        }
    }
    batches
}

/// Law (key round trip): the canonical key `(transaction_hash, log_index)`
/// of a decoded transfer is injective with respect to the source log: two
/// decoded transfers share their key only if the logs they came from carried
/// the same transaction hash and the same log index.
pub proof fn lemma_key_injective(l1: LogRecord, t1: Transfer, l2: LogRecord, t2: Transfer)
    requires
        t1.matches_log(l1),
        t2.matches_log(l2),
        t1.transaction_hash@ == t2.transaction_hash@,
        t1.log_index == t2.log_index,
    ensures
        l1.transaction_hash->0@ == l2.transaction_hash->0@,
        l1.log_index->0 == l2.log_index->0,
{
    let a = l1.log_index->0;
    let b = l2.log_index->0;
    assert(a as i64 == b as i64 ==> a == b) by (bit_vector);
}

} // verus!
