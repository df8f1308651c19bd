//! The read-side of the store: which entity to dump, from which block, and
//! the rendered row shapes the dump prints.

use vstd::prelude::*;
use vstd::slice::slice_index_get;
use vstd::string::{StringExecFns, StringSliceAdditionalSpecFns};

use crate::checkpoint::Checkpoint;
use crate::render::{bytes_to_address, bytes_to_hex, bytes_to_u256, checksummed, dec_digits, hex_prefixed};
use crate::transfer::Transfer;

verus! {

/// Which persisted entity a query reads.
#[derive(Clone, Copy, Debug, PartialEq, Eq, Structural)]
pub enum Entity {
    Transfer,
    Checkpoint,
}

/// Where a query starts: at a given block number, or at the last persisted
/// checkpoint.
#[derive(Clone, Copy, Debug, PartialEq, Eq, Structural)]
pub enum FromBlock {
    Number(u64),
    Last,
}

/// One query: the store to open, the entity to read and the block to start
/// from.
#[derive(Debug)]
pub struct Query {
    pub db_url: String,
    pub entity: Entity,
    pub from_block: FromBlock,
}

/// The byte, lowercased if it is an ASCII capital.
pub open spec fn lower_byte(b: u8) -> u8 {
    if 65 <= b <= 90 {
        (b + 32) as u8
    } else {
        b
    }
}

/// Whether the bytes spell `last`, ASCII case ignored.
pub open spec fn is_last_keyword(bytes: Seq<u8>) -> bool {
    bytes.len() == 4 && lower_byte(bytes[0]) == 108 && lower_byte(bytes[1]) == 97 && lower_byte(
        bytes[2],
    ) == 115 && lower_byte(bytes[3]) == 116
}

/// Whether every byte is an ASCII decimal digit.
pub open spec fn all_digits(bytes: Seq<u8>) -> bool {
    forall|i: int| 0 <= i < bytes.len() ==> 48 <= #[trigger] bytes[i] <= 57
}

/// The number the decimal digit bytes spell.
pub open spec fn dec_value(bytes: Seq<u8>) -> nat
    decreases bytes.len(),
{
    if bytes.len() == 0 {
        0
    } else {
        dec_value(bytes.drop_last()) * 10 + (bytes.last() - 48) as nat
    }
}

impl FromBlock {
    /// Parses the command-line form: `last` in any ASCII case, or a decimal
    /// block number that fits in 64 bits. Anything else is rejected with a
    /// message quoting the input.
    pub fn from_str(s: &str) -> (r: Result<FromBlock, String>)
        ensures
            r == Ok::<FromBlock, String>(FromBlock::Last) <==> is_last_keyword(s.spec_bytes()),
            (!is_last_keyword(s.spec_bytes()) && s.spec_bytes().len() > 0 && all_digits(
                s.spec_bytes(),
            ) && dec_value(s.spec_bytes()) <= u64::MAX) ==> (r matches Ok(fb) && fb
                matches FromBlock::Number(n) && n == dec_value(s.spec_bytes())),
            r is Err <==> (!is_last_keyword(s.spec_bytes()) && !(s.spec_bytes().len() > 0
                && all_digits(s.spec_bytes()) && dec_value(s.spec_bytes()) <= u64::MAX)),
            r matches Err(m) ==> m@ == "`"@ + s@ + "` is not a valid block number or `last`"@,
    {
        let bytes = s.as_bytes();
        let n = bytes.len();
        let lowered = |b: u8| -> (r: u8)
            ensures
                r == lower_byte(b),
            { if b >= 65 && b <= 90 { b + 32 } else { b } };
        if n == 4 {
            let b0 = lowered(*slice_index_get(bytes, 0));
            let b1 = lowered(*slice_index_get(bytes, 1));
            let b2 = lowered(*slice_index_get(bytes, 2));
            let b3 = lowered(*slice_index_get(bytes, 3));
            if b0 == 108 && b1 == 97 && b2 == 115 && b3 == 116 {
                return Ok(FromBlock::Last);
            }
        }
        let mut value: u64 = 0;
        let mut ok = n > 0;
        let mut i: usize = 0;
        while i < n
            invariant
                n == s.spec_bytes().len(),
                bytes@ == s.spec_bytes(),
                0 <= i <= n,
                ok ==> (n > 0 && all_digits(bytes@.take(i as int)) && dec_value(
                    bytes@.take(i as int),
                ) <= u64::MAX && value == dec_value(bytes@.take(i as int))),
                !ok ==> !(n > 0 && all_digits(bytes@) && dec_value(bytes@) <= u64::MAX),
            decreases n - i,
        {
            let b = *slice_index_get(bytes, i);
            proof {
                assert(bytes@.take(i as int + 1).drop_last() =~= bytes@.take(i as int));
                assert(bytes@.take(i as int + 1).last() == bytes@[i as int]);
            }
            if b < 48 || b > 57 {
                ok = false;
                proof {
                    assert(!all_digits(bytes@));
                }
            } else if ok {
                let d = (b - 48) as u64;
                proof {
                    assert(dec_value(bytes@.take(i as int + 1)) == dec_value(bytes@.take(i as int))
                        * 10 + d);
                }
                if value > (u64::MAX - d) / 10 {
                    ok = false;
                    proof {
                        assert(dec_value(bytes@.take(i as int + 1)) > u64::MAX) by (nonlinear_arith)
                            requires
                                dec_value(bytes@.take(i as int + 1)) == dec_value(
                                    bytes@.take(i as int),
                                ) * 10 + d,
                                dec_value(bytes@.take(i as int)) == value,
                                value > (u64::MAX - d) / 10,
                                d <= 9,
                        ;
                        if all_digits(bytes@) {
                            lemma_dec_prefix_le(bytes@, i as int + 1);
                        }
                    }
                } else {
                    proof {
                        assert(value * 10 + d <= u64::MAX) by (nonlinear_arith)
                            requires
                                value <= (u64::MAX - d) / 10,
                                d <= 9,
                        ;
                        assert(all_digits(bytes@.take(i as int + 1))) by {
                            assert(forall|k: int|
                                0 <= k < i + 1 ==> #[trigger] bytes@.take(i as int + 1)[k]
                                    == bytes@.take(i as int).push(bytes@[i as int])[k]);
                        }
                    }
                    value = value * 10 + d;
                }
            }
            i = i + 1;
        }
        proof {
            assert(bytes@.take(n as int) =~= bytes@);
        }
        if ok {
            Ok(FromBlock::Number(value))
        } else {
            let mut m = String::new();
            m.append("`");
            m.append(s);
            m.append("` is not a valid block number or `last`");
            proof {
                assert(Seq::<char>::empty() + "`"@ + s@ + "` is not a valid block number or `last`"@
                    =~= "`"@ + s@ + "` is not a valid block number or `last`"@);
            }
            Err(m)
        }
    }
}

/// A digit-string prefix never spells a larger number than the whole.
proof fn lemma_dec_prefix_le(s: Seq<u8>, k: int)
    requires
        all_digits(s),
        0 <= k <= s.len(),
    ensures
        dec_value(s.take(k)) <= dec_value(s),
    decreases s.len() - k,
{
    if k < s.len() {
        assert(s.take(k + 1).drop_last() =~= s.take(k));
        assert(s.take(k + 1).last() == s[k]);
        let d = (s[k] - 48) as nat;
        assert(dec_value(s.take(k)) * 10 + d >= dec_value(s.take(k))) by (nonlinear_arith)
            requires
                d >= 0,
                dec_value(s.take(k)) >= 0,
        ;
        lemma_dec_prefix_le(s, k + 1);
    } else {
        assert(s.take(k) =~= s);
    }
}

/// Why a query cannot be answered.
#[derive(Clone, Copy, Debug, PartialEq, Eq, Structural)]
pub enum QueryError {
    LastCheckpointNotFound,
}

/// Resolves the block a query starts from: an explicit number stands as
/// given; `last` takes the block of the most recent persisted checkpoint and
/// fails exactly when there is none.
pub fn resolve_query_block(from_block: &FromBlock, last_checkpoint: Option<i64>) -> (r: Result<
    u64,
    QueryError,
>)
    ensures
        match *from_block {
            FromBlock::Number(n) => r == Ok::<u64, QueryError>(n),
            FromBlock::Last => match last_checkpoint {
                Option::Some(c) => r matches Ok(v) && v == c as u64,
                Option::None => r == Err::<u64, QueryError>(QueryError::LastCheckpointNotFound),
            },
        },
{
    match from_block {
        FromBlock::Number(n) => Ok(*n),
        FromBlock::Last => match last_checkpoint {
            Some(c) => Ok(#[verifier::truncate] (c as u64)),
            None => Err(QueryError::LastCheckpointNotFound),
        },
    }
}

/// A checkpoint row as the dump prints it: the number as it is stored, the
/// hashes as `0x`-prefixed hex.
#[derive(Debug)]
pub struct CheckpointResponse {
    pub block_number: i64,
    pub block_hash: String,
    pub parent_hash: String,
}

impl CheckpointResponse {
    pub fn from_checkpoint(c: &Checkpoint) -> (r: CheckpointResponse)
        ensures
            r.block_number == c.block_number,
            r.block_hash@ == hex_prefixed(c.block_hash@),
            r.parent_hash@ == hex_prefixed(c.parent_hash@),
    {
        CheckpointResponse {
            block_number: c.block_number,
            block_hash: bytes_to_hex(c.block_hash.as_slice()),
            parent_hash: bytes_to_hex(c.parent_hash.as_slice()),
        }
    }
}

/// A transfer row as the dump prints it: hashes as hex, the three address
/// columns checksummed, and the amount as a decimal string.
#[derive(Debug)]
pub struct TransferResponse {
    pub block_number: i64,
    pub block_hash: String,
    pub transaction_hash: String,
    pub log_index: i64,
    pub contract_address: String,
    pub from_address: String,
    pub to_address: String,
    pub amount: String,
}

impl TransferResponse {
    pub fn from_transfer(t: &Transfer) -> (r: TransferResponse)
        requires
            t.contract_address@.len() == 20,
            t.from_address@.len() == 32,
            t.to_address@.len() == 32,
            t.amount@.len() <= 32,
        ensures
            r.block_number == t.block_number,
            r.log_index == t.log_index,
            r.block_hash@ == hex_prefixed(t.block_hash@),
            r.transaction_hash@ == hex_prefixed(t.transaction_hash@),
            r.contract_address@ == checksummed(t.contract_address@),
            r.from_address@ == checksummed(t.from_address@.subrange(12, 32)),
            r.to_address@ == checksummed(t.to_address@.subrange(12, 32)),
            r.amount@ == dec_digits(crate::render::be_value(t.amount@)),
    {
        TransferResponse {
            block_number: t.block_number,
            block_hash: bytes_to_hex(t.block_hash.as_slice()),
            transaction_hash: bytes_to_hex(t.transaction_hash.as_slice()),
            log_index: t.log_index,
            contract_address: bytes_to_address(t.contract_address.as_slice()),
            from_address: bytes_to_address(t.from_address.as_slice()),
            to_address: bytes_to_address(t.to_address.as_slice()),
            amount: bytes_to_u256(t.amount.as_slice()),
        }
    }
}

} // verus!
