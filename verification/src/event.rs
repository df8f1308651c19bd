//! Events produced by the state machine, and the batching rewrite that
//! prepares them for the channel: `Skip`s are discarded, runs of consecutive
//! `Element`s are coalesced into one `Many`, and `Checkpoint`s stay as ordered
//! boundaries between the element batches.

use vstd::prelude::*;

use crate::block::Block;

verus! {

/// One event of a run: nothing to do, one decoded element, a checkpoint at a
/// block, or a coalesced batch of elements.
#[derive(Debug)]
pub enum Event<T> {
    Skip,
    Element(T),
    Checkpoint(Block),
    Many(Vec<T>),
}

/// An ordered sequence of events, as sent over the channel.
#[derive(Debug)]
pub struct Events<T>(pub Vec<Event<T>>);

/// Spec-level shape of a batched event list: only checkpoints and element
/// batches remain after the rewrite.
pub ghost enum BatchedEvent<T> {
    Checkpoint(Block),
    Many(Seq<T>),
}

/// Appends the buffered elements as one `Many`, unless the buffer is empty.
pub open spec fn flush_model<T>(acc: Seq<BatchedEvent<T>>, buf: Seq<T>) -> Seq<BatchedEvent<T>> {
    if buf.len() == 0 {
        acc
    } else {
        acc.push(BatchedEvent::Many(buf))
    }
}

/// One step of the batching rewrite over `(batched so far, buffered elements)`.
pub open spec fn batch_step<T>(acc: Seq<BatchedEvent<T>>, buf: Seq<T>, ev: Event<T>) -> (Seq<
    BatchedEvent<T>,
>, Seq<T>) {
    match ev {
        Event::Skip => (acc, buf),
        Event::Element(t) => (acc, buf.push(t)),
        Event::Checkpoint(b) => (flush_model(acc, buf).push(BatchedEvent::Checkpoint(b)), Seq::empty()),
        Event::Many(v) => (flush_model(acc, buf).push(BatchedEvent::Many(v@)), Seq::empty()),
    }
}

/// The batching rewrite folded over a whole event sequence.
pub open spec fn batch_fold<T>(evs: Seq<Event<T>>, acc: Seq<BatchedEvent<T>>, buf: Seq<T>) -> (Seq<
    BatchedEvent<T>,
>, Seq<T>)
    decreases evs.len(),
{
    if evs.len() == 0 {
        (acc, buf)
    } else {
        let (acc2, buf2) = batch_step(acc, buf, evs[0]);
        batch_fold(evs.drop_first(), acc2, buf2)
    }
}

/// What `batch_events` produces, at the spec level.
pub open spec fn spec_batch_events<T>(evs: Seq<Event<T>>) -> Seq<BatchedEvent<T>> {
    let (acc, buf) = batch_fold(evs, Seq::empty(), Seq::empty());
    flush_model(acc, buf)
}

/// The concrete event list realizes the batched model: same length, a
/// checkpoint wherever the model has one, and a `Many` holding exactly the
/// model's elements elsewhere.
pub open spec fn batched_matches<T>(
    concrete: Seq<Event<T>>,
    model: Seq<BatchedEvent<T>>,
) -> bool {
    &&& concrete.len() == model.len()
    &&& forall|i: int|
        0 <= i < model.len() ==> match #[trigger] model[i] {
            BatchedEvent::Checkpoint(b) => concrete[i] == Event::<T>::Checkpoint(b),
            BatchedEvent::Many(s) => concrete[i] matches Event::Many(v) && v@ == s,
        }
}

/// The batching rewrite. `Skip`s disappear, runs of `Element`s become one
/// `Many`, and a `Checkpoint` or a pre-existing `Many` first flushes the run
/// buffered so far, preserving the original order.
pub fn batch_events<T>(events: Events<T>) -> (out: Events<T>)
    ensures
        batched_matches(out.0@, spec_batch_events(events.0@)),
{
    let Events(events_vec) = events;
    let ghost orig = events_vec@;

    let mut rest = events_vec;
    let mut outcomes: Vec<Event<T>> = Vec::new();
    let mut buffer: Vec<T> = Vec::new();
    let ghost mut acc_model: Seq<BatchedEvent<T>> = Seq::empty();

    while rest.len() > 0
        invariant
            batch_fold(orig, Seq::empty(), Seq::empty()) == batch_fold(rest@, acc_model, buffer@),
            batched_matches(outcomes@, acc_model),
        decreases rest@.len(),
    {
        let ghost pre_rest = rest@;
        let ghost pre_acc = acc_model;
        let ghost pre_buf = buffer@;
        let ev = rest.remove(0);
        let ghost ev_model = pre_rest[0];
        proof {
            assert(ev == pre_rest[0]);
            assert(rest@ =~= pre_rest.drop_first());
        }
        match ev {
            Event::Skip => {},
            Event::Element(t) => {
                buffer.push(t);
            },
            Event::Checkpoint(b) => {
                if buffer.len() > 0 {
                    let full = buffer;
                    buffer = Vec::new();
                    proof {
                        acc_model = acc_model.push(BatchedEvent::Many(full@));
                    }
                    outcomes.push(Event::Many(full));
                }
                proof {
                    acc_model = acc_model.push(BatchedEvent::Checkpoint(b));
                }
                outcomes.push(Event::Checkpoint(b));
            },
            Event::Many(v) => {
                if buffer.len() > 0 {
                    let full = buffer;
                    buffer = Vec::new();
                    proof {
                        acc_model = acc_model.push(BatchedEvent::Many(full@));
                    }
                    outcomes.push(Event::Many(full));
                }
                proof {
                    acc_model = acc_model.push(BatchedEvent::Many(v@));
                }
                outcomes.push(Event::Many(v));
            },
        }
        proof {
            let (step_acc, step_buf) = batch_step(pre_acc, pre_buf, ev_model);
            assert(acc_model =~= step_acc);
            assert(buffer@ =~= step_buf);
            assert(batch_fold(pre_rest, pre_acc, pre_buf) == batch_fold(
                rest@,
                acc_model,
                buffer@,
            ));
        }
    }
    if buffer.len() > 0 {
        let full = buffer;
        proof {
            acc_model = acc_model.push(BatchedEvent::Many(full@));
        }
        outcomes.push(Event::Many(full));
    }
    Events(outcomes)
}

/// No event of the sequence is a `Many`. This holds of everything the state
/// machine emits: it produces only `Skip`, `Element` and `Checkpoint`.
pub open spec fn no_many<T>(evs: Seq<Event<T>>) -> bool {
    forall|i: int| 0 <= i < evs.len() ==> !(#[trigger] evs[i] is Many)
}

/// The checkpoint blocks of an event sequence, in order.
pub open spec fn checkpoint_blocks<T>(evs: Seq<Event<T>>) -> Seq<Block>
    decreases evs.len(),
{
    if evs.len() == 0 {
        Seq::empty()
    } else {
        match evs[0] {
            Event::Checkpoint(b) => seq![b] + checkpoint_blocks(evs.drop_first()),
            _ => checkpoint_blocks(evs.drop_first()),
        }
    }
}

/// The element payload of an event sequence, flattened in order: an `Element`
/// contributes itself, a `Many` its items.
pub open spec fn flat_items<T>(evs: Seq<Event<T>>) -> Seq<T>
    decreases evs.len(),
{
    if evs.len() == 0 {
        Seq::empty()
    } else {
        match evs[0] {
            Event::Element(t) => seq![t] + flat_items(evs.drop_first()),
            Event::Many(v) => v@ + flat_items(evs.drop_first()),
            _ => flat_items(evs.drop_first()),
        }
    }
}

/// The checkpoint blocks of a batched model, in order.
pub open spec fn model_checkpoint_blocks<T>(m: Seq<BatchedEvent<T>>) -> Seq<Block>
    decreases m.len(),
{
    if m.len() == 0 {
        Seq::empty()
    } else {
        match m[0] {
            BatchedEvent::Checkpoint(b) => seq![b] + model_checkpoint_blocks(m.drop_first()),
            _ => model_checkpoint_blocks(m.drop_first()),
        }
    }
}

/// The element payload of a batched model, flattened in order.
pub open spec fn model_items<T>(m: Seq<BatchedEvent<T>>) -> Seq<T>
    decreases m.len(),
{
    if m.len() == 0 {
        Seq::empty()
    } else {
        match m[0] {
            BatchedEvent::Many(s) => s + model_items(m.drop_first()),
            _ => model_items(m.drop_first()),
        }
    }
}

proof fn lemma_model_ck_push<T>(m: Seq<BatchedEvent<T>>, e: BatchedEvent<T>)
    ensures
        model_checkpoint_blocks(m.push(e)) =~= model_checkpoint_blocks(m) + (match e {
            BatchedEvent::Checkpoint(b) => seq![b],
            _ => Seq::empty(),
        }),
    decreases m.len(),
{
    let ghost tail: Seq<Block> = match e {
        BatchedEvent::Checkpoint(b) => seq![b],
        _ => Seq::empty(),
    };
    if m.len() == 0 {
        assert(m.push(e)[0] == e);
        assert(m.push(e).drop_first() =~= Seq::<BatchedEvent<T>>::empty());
        assert(model_checkpoint_blocks(Seq::<BatchedEvent<T>>::empty()) =~= Seq::<Block>::empty());
    } else {
        assert(m.push(e)[0] == m[0]);
        assert(m.push(e).drop_first() =~= m.drop_first().push(e));
        lemma_model_ck_push(m.drop_first(), e);
        match m[0] {
            BatchedEvent::Checkpoint(b) => {
                assert(model_checkpoint_blocks(m.push(e)) =~= seq![b] + (model_checkpoint_blocks(
                    m.drop_first(),
                ) + tail));
                assert(seq![b] + (model_checkpoint_blocks(m.drop_first()) + tail) =~= (seq![b]
                    + model_checkpoint_blocks(m.drop_first())) + tail);
            },
            _ => {},
        }
    }
}

proof fn lemma_model_items_push<T>(m: Seq<BatchedEvent<T>>, e: BatchedEvent<T>)
    ensures
        model_items(m.push(e)) =~= model_items(m) + (match e {
            BatchedEvent::Many(s) => s,
            _ => Seq::empty(),
        }),
    decreases m.len(),
{
    let ghost tail: Seq<T> = match e {
        BatchedEvent::Many(s) => s,
        _ => Seq::empty(),
    };
    if m.len() == 0 {
        assert(m.push(e)[0] == e);
        assert(m.push(e).drop_first() =~= Seq::<BatchedEvent<T>>::empty());
        assert(model_items(Seq::<BatchedEvent<T>>::empty()) =~= Seq::<T>::empty());
    } else {
        assert(m.push(e)[0] == m[0]);
        assert(m.push(e).drop_first() =~= m.drop_first().push(e));
        lemma_model_items_push(m.drop_first(), e);
        match m[0] {
            BatchedEvent::Many(s) => {
                assert(model_items(m.push(e)) =~= s + (model_items(m.drop_first()) + tail));
                assert(s + (model_items(m.drop_first()) + tail) =~= (s + model_items(
                    m.drop_first(),
                )) + tail);
            },
            _ => {},
        }
    }
}

/// Whether a batched model has no two `Many` entries next to each other and,
/// when nonempty, ends in a checkpoint. The fold keeps this shape.
spec fn fold_shape<T>(m: Seq<BatchedEvent<T>>) -> bool {
    &&& forall|i: int|
        0 <= i < m.len() - 1 ==> !((#[trigger] m[i]) is Many && m[i + 1] is Many)
    &&& m.len() > 0 ==> m.last() is Checkpoint
}

proof fn lemma_fold_shape<T>(evs: Seq<Event<T>>, acc: Seq<BatchedEvent<T>>, buf: Seq<T>)
    requires
        no_many(evs),
        fold_shape(acc),
    ensures
        fold_shape(batch_fold(evs, acc, buf).0),
    decreases evs.len(),
{
    if evs.len() > 0 {
        let (acc2, buf2) = batch_step(acc, buf, evs[0]);
        assert(forall|i: int|
            0 <= i < evs.drop_first().len() ==> #[trigger] evs.drop_first()[i] == evs[i + 1]);
        match evs[0] {
            Event::Skip => {},
            Event::Element(_) => {},
            Event::Checkpoint(b) => {
                let flushed = flush_model(acc, buf);
                assert(fold_shape(acc2)) by {
                    if buf.len() > 0 {
                        assert(flushed == acc.push(BatchedEvent::<T>::Many(buf)));
                    }
                    assert forall|i: int|
                        0 <= i < acc2.len() - 1 implies !((#[trigger] acc2[i]) is Many && acc2[i
                        + 1] is Many) by {
                        if i < flushed.len() - 1 {
                            if buf.len() > 0 && i == acc.len() - 1 {
                                assert(acc.last() is Checkpoint);
                            }
                        } else {
                            assert(acc2[i + 1] == BatchedEvent::<T>::Checkpoint(b));
                        }
                    }
                }
            },
            Event::Many(_) => {
                assert(false);
            },
        }
        lemma_fold_shape(evs.drop_first(), acc2, buf2);
    }
}

proof fn lemma_fold_checkpoints<T>(evs: Seq<Event<T>>, acc: Seq<BatchedEvent<T>>, buf: Seq<T>)
    ensures
        model_checkpoint_blocks(batch_fold(evs, acc, buf).0) =~= model_checkpoint_blocks(acc)
            + checkpoint_blocks(evs),
    decreases evs.len(),
{
    if evs.len() == 0 {
        assert(model_checkpoint_blocks(acc) + checkpoint_blocks(evs) =~= model_checkpoint_blocks(
            acc,
        ));
    } else {
        let (acc2, buf2) = batch_step(acc, buf, evs[0]);
        lemma_fold_checkpoints(evs.drop_first(), acc2, buf2);
        match evs[0] {
            Event::Skip => {},
            Event::Element(_) => {},
            Event::Checkpoint(b) => {
                if buf.len() > 0 {
                    lemma_model_ck_push(acc, BatchedEvent::<T>::Many(buf));
                }
                lemma_model_ck_push(flush_model(acc, buf), BatchedEvent::<T>::Checkpoint(b));
            },
            Event::Many(v) => {
                if buf.len() > 0 {
                    lemma_model_ck_push(acc, BatchedEvent::<T>::Many(buf));
                }
                lemma_model_ck_push(flush_model(acc, buf), BatchedEvent::<T>::Many(v@));
            },
        }
    }
}

proof fn lemma_fold_items<T>(evs: Seq<Event<T>>, acc: Seq<BatchedEvent<T>>, buf: Seq<T>)
    ensures
        ({
            let (facc, fbuf) = batch_fold(evs, acc, buf);
            model_items(facc) + fbuf =~= model_items(acc) + buf + flat_items(evs)
        }),
    decreases evs.len(),
{
    if evs.len() == 0 {
        assert(model_items(acc) + buf + flat_items(evs) =~= model_items(acc) + buf);
    } else {
        let (acc2, buf2) = batch_step(acc, buf, evs[0]);
        lemma_fold_items(evs.drop_first(), acc2, buf2);
        match evs[0] {
            Event::Skip => {},
            Event::Element(t) => {
                assert(model_items(acc) + buf.push(t) + flat_items(evs.drop_first())
                    =~= model_items(acc) + buf + (seq![t] + flat_items(evs.drop_first())));
            },
            Event::Checkpoint(b) => {
                if buf.len() > 0 {
                    lemma_model_items_push(acc, BatchedEvent::<T>::Many(buf));
                }
                lemma_model_items_push(flush_model(acc, buf), BatchedEvent::<T>::Checkpoint(b));
                assert(model_items(acc2) + buf2 =~= model_items(acc) + buf);
            },
            Event::Many(v) => {
                if buf.len() > 0 {
                    lemma_model_items_push(acc, BatchedEvent::<T>::Many(buf));
                }
                lemma_model_items_push(flush_model(acc, buf), BatchedEvent::<T>::Many(v@));
                assert(model_items(acc2) + buf2 =~= model_items(acc) + buf + v@);
                assert(model_items(acc) + buf + v@ + flat_items(evs.drop_first()) =~= model_items(
                    acc,
                ) + buf + (v@ + flat_items(evs.drop_first())));
            },
        }
    }
}

proof fn lemma_concrete_model_ck<T>(out: Seq<Event<T>>, m: Seq<BatchedEvent<T>>)
    requires
        batched_matches(out, m),
    ensures
        checkpoint_blocks(out) =~= model_checkpoint_blocks(m),
    decreases m.len(),
{
    if m.len() > 0 {
        assert(forall|i: int|
            0 <= i < m.drop_first().len() ==> #[trigger] m.drop_first()[i] == m[i + 1]);
        assert(forall|i: int|
            0 <= i < out.drop_first().len() ==> #[trigger] out.drop_first()[i] == out[i + 1]);
        assert(batched_matches(out.drop_first(), m.drop_first()));
        lemma_concrete_model_ck(out.drop_first(), m.drop_first());
        assert(match m[0] {
            BatchedEvent::Checkpoint(b) => out[0] == Event::<T>::Checkpoint(b),
            BatchedEvent::Many(s) => out[0] matches Event::Many(v) && v@ == s,
        });
    }
}

proof fn lemma_concrete_model_items<T>(out: Seq<Event<T>>, m: Seq<BatchedEvent<T>>)
    requires
        batched_matches(out, m),
    ensures
        flat_items(out) =~= model_items(m),
    decreases m.len(),
{
    if m.len() > 0 {
        assert(forall|i: int|
            0 <= i < m.drop_first().len() ==> #[trigger] m.drop_first()[i] == m[i + 1]);
        assert(forall|i: int|
            0 <= i < out.drop_first().len() ==> #[trigger] out.drop_first()[i] == out[i + 1]);
        assert(batched_matches(out.drop_first(), m.drop_first()));
        lemma_concrete_model_items(out.drop_first(), m.drop_first());
        assert(match m[0] {
            BatchedEvent::Checkpoint(b) => out[0] == Event::<T>::Checkpoint(b),
            BatchedEvent::Many(s) => out[0] matches Event::Many(v) && v@ == s,
        });
    }
}

/// Law: on input with no pre-existing `Many` — which is all the state machine
/// emits — the batching rewrite leaves only `Checkpoint` and `Many` events,
/// never two `Many` next to each other, and it preserves both the checkpoint
/// blocks and the flattened element payload, each in its original order.
pub proof fn lemma_batching_rewrite<T>(evs: Seq<Event<T>>, out: Seq<Event<T>>)
    requires
        no_many(evs),
        batched_matches(out, spec_batch_events(evs)),
    ensures
        forall|i: int| 0 <= i < out.len() ==> ((#[trigger] out[i]) is Checkpoint || out[i] is Many),
        forall|i: int| 0 <= i < out.len() - 1 ==> !((#[trigger] out[i]) is Many && out[i + 1] is Many),
        checkpoint_blocks(out) =~= checkpoint_blocks(evs),
        flat_items(out) =~= flat_items(evs),
{
    let (facc, fbuf) = batch_fold(evs, Seq::empty(), Seq::empty());
    let m = spec_batch_events(evs);

    lemma_fold_shape(evs, Seq::empty(), Seq::empty());
    assert(fold_shape(facc));
    assert forall|i: int| 0 <= i < m.len() - 1 implies !((#[trigger] m[i]) is Many && m[i
        + 1] is Many) by {
        if fbuf.len() > 0 {
            assert(m == facc.push(BatchedEvent::<T>::Many(fbuf)));
            if i == facc.len() - 1 {
                assert(facc.last() is Checkpoint);
            }
        }
    }

    lemma_fold_checkpoints(evs, Seq::empty(), Seq::empty());
    if fbuf.len() > 0 {
        lemma_model_ck_push(facc, BatchedEvent::<T>::Many(fbuf));
        lemma_model_items_push(facc, BatchedEvent::<T>::Many(fbuf));
    }
    lemma_concrete_model_ck(out, m);

    lemma_fold_items(evs, Seq::empty(), Seq::empty());
    lemma_concrete_model_items(out, m);

    assert forall|i: int| 0 <= i < out.len() implies ((#[trigger] out[i]) is Checkpoint
        || out[i] is Many) by {
        assert(match m[i] {
            BatchedEvent::Checkpoint(b) => out[i] == Event::<T>::Checkpoint(b),
            BatchedEvent::Many(s) => out[i] matches Event::Many(v) && v@ == s,
        });
    }
    assert forall|i: int| 0 <= i < out.len() - 1 implies !((#[trigger] out[i]) is Many && out[i
        + 1] is Many) by {
        assert(match m[i] {
            BatchedEvent::Checkpoint(b) => out[i] == Event::<T>::Checkpoint(b),
            BatchedEvent::Many(s) => out[i] matches Event::Many(v) && v@ == s,
        });
        assert(match m[i + 1] {
            BatchedEvent::Checkpoint(b) => out[i + 1] == Event::<T>::Checkpoint(b),
            BatchedEvent::Many(s) => out[i + 1] matches Event::Many(v) && v@ == s,
        });
    }
}

} // verus!
