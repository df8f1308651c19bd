//! Chunked historical catch-up: from the resume block to the tip snapshot
//! captured at engine start, the range is walked in chunks of at most the
//! backfill interval, each chunk ending in a checkpoint at its last block.
//! The driver fetches blocks and items and persists what these functions
//! decide.

use vstd::prelude::*;

use crate::block::Block;
use crate::event::{Event, Events};
use crate::log::LogRecord;
use crate::source::{decode_projection, Decode, Outcome};
use crate::state::State;
use crate::transfer::Transfer;

verus! {

/// The inclusive block range of the next chunk: it starts at `cursor` and
/// ends `interval` blocks later or at the tip, whichever comes first.
/// `None` once the cursor has passed the tip.
pub open spec fn spec_next_chunk(cursor: u64, tip: u64, interval: u64) -> Option<(u64, u64)> {
    if cursor > tip {
        Option::None
    } else {
        let reach = if cursor + interval - 1 > u64::MAX {
            u64::MAX as int
        } else {
            cursor + interval - 1
        };
        let to = if reach > tip {
            tip as int
        } else {
            reach
        };
        Option::Some((cursor, to as u64))
    }
}

/// Computes the next chunk's bounds, with a saturating reach so a cursor
/// near the top of the range cannot wrap.
pub fn next_chunk(cursor: u64, tip: u64, interval: u64) -> (r: Option<(u64, u64)>)
    requires
        interval >= 1,
    ensures
        r == spec_next_chunk(cursor, tip, interval),
{
    if cursor > tip {
        None
    } else {
        let step = interval - 1;
        let reach = if u64::MAX - cursor < step {
            u64::MAX
        } else {
            cursor + step
        };
        let to = if reach > tip {
            tip
        } else {
            reach
        };
        Some((cursor, to))
    }
}

/// The whole chunk plan for one backfill: consecutive inclusive ranges that
/// cover `[start, tip]` in order, each at most `interval` blocks wide, the
/// last ending exactly at the tip. With an interval of one, the plan is one
/// single-block chunk per block — one checkpoint per block.
pub fn chunk_plan(start: u64, tip: u64, interval: u64) -> (plan: Vec<(u64, u64)>)
    requires
        interval >= 1,
    ensures
        start > tip ==> plan@.len() == 0,
        start <= tip ==> plan@.len() > 0 && plan@[0].0 == start && plan@.last().1 == tip,
        forall|i: int|
            0 <= i < plan@.len() ==> (#[trigger] plan@[i]).0 <= plan@[i].1 && plan@[i].1 - plan@[i].0
                + 1 <= interval && plan@[i].1 <= tip,
        forall|i: int|
            0 <= i < plan@.len() - 1 ==> (#[trigger] plan@[i]).1 - plan@[i].0 + 1 == interval,
        forall|i: int| 0 < i < plan@.len() ==> (#[trigger] plan@[i]).0 == plan@[i - 1].1 + 1,
        interval == 1 ==> forall|i: int|
            0 <= i < plan@.len() ==> (#[trigger] plan@[i]).0 == start + i && plan@[i].1 == start
                + i,
{
    let mut plan: Vec<(u64, u64)> = Vec::new();
    let mut cursor = start;
    let mut done = start > tip;
    while !done
        invariant
            interval >= 1,
            start <= cursor,
            done ==> (plan@.len() > 0 && plan@.last().1 == tip) || start > tip,
            !done ==> cursor <= tip,
            !done && plan@.len() > 0 ==> plan@.last().1 + 1 == cursor && plan@.last().1 < tip,
            plan@.len() == 0 ==> cursor == start,
            plan@.len() > 0 ==> plan@[0].0 == start,
            forall|i: int|
                0 <= i < plan@.len() ==> (#[trigger] plan@[i]).0 <= plan@[i].1 && plan@[i].1
                    - plan@[i].0 + 1 <= interval && plan@[i].1 <= tip,
            forall|i: int|
                0 <= i < plan@.len() - (if done {
                    1int
                } else {
                    0int
                }) ==> (#[trigger] plan@[i]).1 - plan@[i].0 + 1 == interval,
            forall|i: int| 0 < i < plan@.len() ==> (#[trigger] plan@[i]).0 == plan@[i - 1].1 + 1,
            interval == 1 ==> forall|i: int|
                0 <= i < plan@.len() ==> (#[trigger] plan@[i]).0 == start + i && plan@[i].1
                    == start + i,
        decreases (if done {
            0int
        } else {
            tip - cursor + 1
        }),
    {
        let step = interval - 1;
        let reach = if u64::MAX - cursor < step {
            u64::MAX
        } else {
            cursor + step
        };
        let to = if reach > tip {
            tip
        } else {
            reach
        };
        plan.push((cursor, to));
        if to >= tip {
            done = true;
        } else {
            cursor = to + 1;
        }
    }
    plan
}

/// One backfill chunk, after the driver has fetched the chunk's items and
/// the block at the chunk's upper bound. The decoded elements come first as
/// one batch — so they are persisted before the checkpoint — and the chunk
/// closes with a checkpoint at its last block, advancing the state there and
/// resetting the block counter. A chunk with no items still advances the
/// state and still yields its checkpoint.
pub fn gapfill_chunk<E: Decode<T>, T: Outcome>(
    state: &mut State,
    inputs: &Vec<E>,
    chunk_block: Block,
) -> (events: Events<T>)
    requires
        old(state).checkpoint_counter < u64::MAX,
        old(state).current_block_number <= chunk_block.number,
    ensures
        final(state).current_block_number == chunk_block.number,
        final(state).block_counter == 0,
        final(state).checkpoint_counter == old(state).checkpoint_counter + 1,
        events.0@.len() >= 1,
        events.0@.last() == Event::<T>::Checkpoint(chunk_block),
        events.0@.len() == 2 ==> (events.0@[0] matches Event::Many(v) && v@.len() > 0
            && decode_projection(inputs@, v@)),
        events.0@.len() == 1 ==> decode_projection(inputs@, Seq::<T>::empty()),
        events.0@.len() <= 2,
{
    let elements: Vec<T> = crate::source::decode_all(inputs);
    state.current_block_number = chunk_block.number;
    let checkpoint_event: Event<T> = state.flush_checkpoint(Some(chunk_block));
    if elements.len() > 0 {
        Events(vec![Event::Many(elements), checkpoint_event])
    } else {
        proof {
            assert(elements@ =~= Seq::<T>::empty());
        }
        Events(vec![checkpoint_event])
    }
}

/// The terminal backfill checkpoint: when the whole backfill emitted no
/// checkpoint at all — an empty range — one is flushed at the current block,
/// so the next restart resumes from the tip. `lookup` is the block fetched
/// for the current block number, if the counter called for one.
pub fn gapfill_final_checkpoint<T: Outcome>(state: &mut State, lookup: Option<Block>) -> (ev:
    Option<Event<T>>)
    requires
        old(state).checkpoint_counter < u64::MAX,
    ensures
        old(state).checkpoint_counter != 0 ==> *final(state) == *old(state) && ev is None,
        old(state).checkpoint_counter == 0 ==> ({
            let (post, e) = crate::state::spec_flush::<T>(*old(state), lookup);
            *final(state) == post && ev == Option::Some(e)
        }),
{
    if state.get_checkpoint_counter() == 0 {
        Some(state.flush_checkpoint(lookup))
    } else {
        None
    }
}

/// Law (progress): the transfers decoded out of a chunk all sit at or below
/// the chunk's upper bound, given that the source honoured the chunk's
/// inclusive range. The chunk's checkpoint stands at that bound, after the
/// elements, so every persisted row is covered by a checkpoint at or above
/// its block as soon as the chunk completes.
pub proof fn lemma_chunk_progress(inputs: Seq<LogRecord>, outs: Seq<Transfer>, to: u64)
    requires
        decode_projection(inputs, outs),
        forall|i: int|
            0 <= i < inputs.len() ==> ((#[trigger] inputs[i]).block_number matches Some(bn) ==> bn
                <= to),
    ensures
        forall|k: int| 0 <= k < outs.len() ==> (#[trigger] outs[k]).spec_block_number() <= to,
    decreases inputs.len(),
{
    if inputs.len() > 0 {
        assert(forall|i: int|
            0 <= i < inputs.drop_last().len() ==> #[trigger] inputs.drop_last()[i] == inputs[i]);
        if inputs.last().decodable() {
            lemma_chunk_progress(inputs.drop_last(), outs.drop_last(), to);
            let t = outs.last();
            let l = inputs.last();
            assert(t.matches_log(l));
            let bn = l.block_number->0;
            assert(((bn as i64) as u64) == bn) by (bit_vector);
            assert(t.block_number == bn as i64);
            assert(t.spec_block_number() == (bn as i64) as u64);
            assert forall|k: int| 0 <= k < outs.len() implies (#[trigger] outs[k]).spec_block_number()
                <= to by {
                if k < outs.len() - 1 {
                    assert(outs[k] == outs.drop_last()[k]);
                }
            }
        } else {
            lemma_chunk_progress(inputs.drop_last(), outs, to);
        }
    }
}

} // verus!
