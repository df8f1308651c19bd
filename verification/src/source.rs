//! Capabilities at the source side of the pipeline: what a source item must
//! expose, how an item decodes into a domain element, and the filters that
//! describe a chunked or streaming fetch.

use vstd::prelude::*;

verus! {

/// A domain element that the sink can persist. Every element sits in exactly
/// one block.
pub trait Outcome: Sized {
    spec fn spec_block_number(&self) -> u64;

    fn block_number(&self) -> (n: u64)
        ensures
            n == self.spec_block_number(),
    ;
}

/// A raw item pulled from the chain. An item that is still pending carries no
/// block number and is dropped at the source boundary.
pub trait SourceInput: Sized {
    spec fn spec_block_number(&self) -> Option<u64>;

    fn block_number(&self) -> (n: Option<u64>)
        ensures
            n == self.spec_block_number(),
    ;
}

/// Fallible conversion of a source item into a domain element. `decodable`
/// says on which items the conversion succeeds, and `decodes_to` pins the
/// element it yields; an item that does not decode becomes a `Skip` event.
pub trait Decode<T>: Sized {
    spec fn decodable(&self) -> bool;

    spec fn decodes_to(&self, t: T) -> bool;

    fn decode(&self) -> (r: Option<T>)
        ensures
            r.is_some() == self.decodable(),
            r matches Some(t) ==> self.decodes_to(t),
    ;
}

/// The event kinds the engine recognizes, each mapped to its canonical
/// signature string.
#[derive(Clone, Debug, PartialEq, Eq, Structural)]
pub enum EventType {
    Transfer,
}

impl EventType {
    pub fn as_str(&self) -> (s: &'static str)
        ensures
            s@ == "Transfer(address,address,uint256)"@,
    {
        match self {
            EventType::Transfer => "Transfer(address,address,uint256)",
        }
    }
}

/// A bounded historical fetch: all items for `addresses` and `event` in the
/// inclusive block range `[from_block_number, to_block_number]`.
pub struct ChunkFilter {
    pub addresses: Vec<Vec<u8>>,
    pub event: EventType,
    pub from_block_number: u64,
    pub to_block_number: u64,
}

/// An open-ended polled fetch from `from_block_number` on, one poll every
/// `poll_interval_ms` milliseconds.
pub struct StreamFilter {
    pub addresses: Vec<Vec<u8>>,
    pub event: EventType,
    pub from_block_number: u64,
    pub poll_interval_ms: u64,
}

/// Keeps only the items that already sit in a block, in their original order.
/// Pending items are dropped at the source boundary.
pub fn filter_confirmed<E: SourceInput>(items: Vec<E>) -> (kept: Vec<E>)
    ensures
        kept@ == items@.filter(|e: E| e.spec_block_number() is Some),
{
    let mut kept: Vec<E> = Vec::new();
    let mut rest = items;
    proof {
        assert(rest@.take(0) =~= Seq::<E>::empty());
        assert(Seq::<E>::empty().filter(|e: E| e.spec_block_number() is Some) =~= Seq::<
            E,
        >::empty());
    }
    let ghost orig = rest@;
    let ghost i: int = 0;
    while rest.len() > 0
        invariant
            0 <= i <= orig.len(),
            rest@ =~= orig.skip(i),
            kept@ == orig.take(i).filter(|e: E| e.spec_block_number() is Some),
        decreases rest@.len(),
    {
        let item = rest.remove(0);
        proof {
            assert(item == orig[i]);
            assert(orig.take(i + 1) =~= orig.take(i).push(item));
            reveal_with_fuel(Seq::filter, 2);
            seq_filter_push(orig.take(i), item, |e: E| e.spec_block_number() is Some);
        }
        if item.block_number().is_some() {
            kept.push(item);
        }
        proof {
            i = i + 1;
            assert(rest@ =~= orig.skip(i));
        }
    }
    proof {
        assert(orig.take(i) =~= orig);
    }
    kept
}

/// `outs` holds exactly the decoded forms of the decodable inputs, in their
/// original order; inputs that do not decode are passed over.
pub open spec fn decode_projection<E: Decode<T>, T>(inputs: Seq<E>, outs: Seq<T>) -> bool
    decreases inputs.len(),
{
    if inputs.len() == 0 {
        outs.len() == 0
    } else if inputs.last().decodable() {
        &&& outs.len() > 0
        &&& inputs.last().decodes_to(outs.last())
        &&& decode_projection(inputs.drop_last(), outs.drop_last())
    } else {
        decode_projection(inputs.drop_last(), outs)
    }
}

/// Decodes every input in order, dropping the ones that do not decode, as
/// the source boundary does during backfill.
pub fn decode_all<E: Decode<T>, T>(inputs: &Vec<E>) -> (outs: Vec<T>)
    ensures
        decode_projection(inputs@, outs@),
{
    let mut outs: Vec<T> = Vec::new();
    let n = inputs.len();
    let mut i: usize = 0;
    while i < n
        invariant
            n == inputs@.len(),
            0 <= i <= n,
            decode_projection(inputs@.take(i as int), outs@),
        decreases n - i,
    {
        let ghost pre_outs = outs@;
        match inputs[i].decode() {
            Some(t) => {
                outs.push(t);
            },
            None => {},
        }
        proof {
            let prefix = inputs@.take(i as int + 1);
            assert(prefix.last() == inputs@[i as int]);
            assert(prefix.drop_last() =~= inputs@.take(i as int));
            if inputs@[i as int].decodable() {
                assert(outs@.drop_last() =~= pre_outs);
            }
        }
        i = i + 1;
    }
    proof {
        assert(inputs@.take(n as int) =~= inputs@);
    }
    outs
}

/// Filtering a sequence extended by one element keeps the filtered prefix and
/// appends the element exactly when it passes the predicate.
pub proof fn seq_filter_push<A>(s: Seq<A>, x: A, pred: spec_fn(A) -> bool)
    ensures
        s.push(x).filter(pred) == if pred(x) {
            s.filter(pred).push(x)
        } else {
            s.filter(pred)
        },
    decreases s.len(),
{
    reveal_with_fuel(Seq::filter, 2);
    assert(s.push(x).drop_last() =~= s);
    assert(s.push(x).last() == x);
}

} // verus!
