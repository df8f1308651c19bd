//! The roll-forward state machine. It tracks the block the run has reached,
//! how many distinct blocks have been seen since the last checkpoint, and how
//! many checkpoints the run has emitted.

use vstd::prelude::*;

use crate::block::Block;
use crate::event::{Event, Events};
use crate::source::Outcome;

verus! {

/// Progress of one indexing run. `current_block_number` only ever advances;
/// `block_counter` counts the distinct advancing blocks since the last
/// emitted checkpoint; `checkpoint_counter` counts the checkpoints emitted.
#[derive(Clone, Copy, Debug, PartialEq, Eq, Structural)]
pub struct State {
    pub block_counter: u64,
    pub checkpoint_counter: u64,
    pub current_block_number: u64,
}

impl State {
    /// A fresh run that has reached `current_block_number` and has emitted
    /// nothing yet.
    pub fn new(current_block_number: u64) -> (s: State)
        ensures
            s.block_counter == 0,
            s.checkpoint_counter == 0,
            s.current_block_number == current_block_number,
    {
        State { block_counter: 0, checkpoint_counter: 0, current_block_number }
    }

    pub fn get_checkpoint_counter(&self) -> (n: u64)
        ensures
            n == self.checkpoint_counter,
    {
        self.checkpoint_counter
    }

    pub fn get_current_block_number(&self) -> (n: u64)
        ensures
            n == self.current_block_number,
    {
        self.current_block_number
    }

    fn increment_block_counter(&mut self)
        requires
            old(self).block_counter < u64::MAX,
        ensures
            final(self).block_counter == old(self).block_counter + 1,
            final(self).checkpoint_counter == old(self).checkpoint_counter,
            final(self).current_block_number == old(self).current_block_number,
    {
        self.block_counter = self.block_counter + 1;
    }

    fn increment_checkpoint_counter(&mut self)
        requires
            old(self).checkpoint_counter < u64::MAX,
        ensures
            final(self).checkpoint_counter == old(self).checkpoint_counter + 1,
            final(self).block_counter == old(self).block_counter,
            final(self).current_block_number == old(self).current_block_number,
    {
        self.checkpoint_counter = self.checkpoint_counter + 1;
    }

    fn reset_block_counter(&mut self)
        ensures
            final(self).block_counter == 0,
            final(self).checkpoint_counter == old(self).checkpoint_counter,
            final(self).current_block_number == old(self).current_block_number,
    {
        self.block_counter = 0;
    }

    fn set_current_block_number(&mut self, block_number: u64)
        ensures
            final(self).current_block_number == block_number,
            final(self).block_counter == old(self).block_counter,
            final(self).checkpoint_counter == old(self).checkpoint_counter,
    {
        self.current_block_number = block_number;
    }

    /// Flushes a checkpoint at the current block. `lookup` is the block the
    /// caller fetched for `current_block_number`; when the chain does not
    /// know it, nothing changes and a `Skip` is emitted instead.
    pub fn flush_checkpoint<T>(&mut self, lookup: Option<Block>) -> (ev: Event<T>)
        requires
            old(self).checkpoint_counter < u64::MAX,
        ensures
            ({
                let (post, e) = spec_flush::<T>(*old(self), lookup);
                *final(self) == post && ev == e
            }),
    {
        match lookup {
            None => Event::Skip,
            Some(checkpoint_block) => {
                self.increment_checkpoint_counter();
                self.reset_block_counter();
                Event::Checkpoint(checkpoint_block)
            },
        }
    }

    /// The block that must be looked up before feeding this item to
    /// `roll_forward`: the item's own block, exactly when consuming the item
    /// will bring the block counter to the checkpoint interval.
    pub fn checkpoint_due<T: Outcome>(&self, decoded: &Option<T>, checkpoint_interval: u64) -> (r:
        Option<u64>)
        ensures
            r == spec_checkpoint_due(*self, *decoded, checkpoint_interval),
    {
        match decoded {
            None => None,
            Some(t) => {
                let bn = t.block_number();
                if bn != self.current_block_number && checkpoint_interval > 0
                    && self.block_counter == checkpoint_interval - 1 {
                    Some(bn)
                } else {
                    None
                }
            },
        }
    }

    /// Consumes one decoded item. An item that failed to decode becomes a
    /// `Skip`; an item in the current block an `Element`; an item in a new
    /// block advances the state and, every `checkpoint_interval` distinct
    /// blocks, a checkpoint at the new block precedes the element. `lookup`
    /// is the block fetched for the number `checkpoint_due` named, if any.
    pub fn roll_forward<T: Outcome>(
        &mut self,
        decoded: Option<T>,
        checkpoint_interval: u64,
        lookup: Option<Block>,
    ) -> (events: Events<T>)
        requires
            old(self).block_counter < u64::MAX,
            old(self).checkpoint_counter < u64::MAX,
        ensures
            ({
                let (post, evs) = spec_roll_forward(
                    *old(self),
                    decoded,
                    checkpoint_interval,
                    lookup,
                );
                *final(self) == post && events.0@ =~= evs
            }),
    {
        match decoded {
            None => Events(vec![Event::Skip]),
            Some(t) => {
                let bn = t.block_number();
                if bn == self.current_block_number {
                    Events(vec![Event::Element(t)])
                } else {
                    self.set_current_block_number(bn);
                    self.increment_block_counter();
                    let do_checkpoint = self.block_counter > 0 && self.block_counter
                        == checkpoint_interval;
                    if !do_checkpoint {
                        Events(vec![Event::Element(t)])
                    } else {
                        let checkpoint_event = self.flush_checkpoint(lookup);
                        Events(vec![checkpoint_event, Event::Element(t)])
                    }
                }
            },
        }
    }
}

/// The flush transition: on a found block, reset the block counter, count the
/// checkpoint and emit it; on a missing block, leave everything unchanged and
/// emit a `Skip`.
pub open spec fn spec_flush<T>(pre: State, lookup: Option<Block>) -> (State, Event<T>) {
    match lookup {
        Option::None => (pre, Event::Skip),
        Option::Some(b) => (
            State {
                block_counter: 0,
                checkpoint_counter: (pre.checkpoint_counter + 1) as u64,
                current_block_number: pre.current_block_number,
            },
            Event::Checkpoint(b),
        ),
    }
}

/// The single-item transition of the state machine, together with the events
/// it emits, in order.
pub open spec fn spec_roll_forward<T: Outcome>(
    pre: State,
    decoded: Option<T>,
    interval: u64,
    lookup: Option<Block>,
) -> (State, Seq<Event<T>>) {
    match decoded {
        Option::None => (pre, seq![Event::Skip]),
        Option::Some(t) => {
            if t.spec_block_number() == pre.current_block_number {
                (pre, seq![Event::Element(t)])
            } else {
                let adv = State {
                    block_counter: (pre.block_counter + 1) as u64,
                    checkpoint_counter: pre.checkpoint_counter,
                    current_block_number: t.spec_block_number(),
                };
                if adv.block_counter > 0 && adv.block_counter == interval {
                    let (post, ck) = spec_flush::<T>(adv, lookup);
                    (post, seq![ck, Event::Element(t)])
                } else {
                    (adv, seq![Event::Element(t)])
                }
            }
        },
    }
}

/// Which block must be looked up before the item is consumed: `Some` of the
/// item's block exactly when consuming it will flush a checkpoint.
pub open spec fn spec_checkpoint_due<T: Outcome>(
    s: State,
    decoded: Option<T>,
    interval: u64,
) -> Option<u64> {
    match decoded {
        Option::None => Option::None,
        Option::Some(t) => {
            if t.spec_block_number() != s.current_block_number && s.block_counter + 1 == interval {
                Option::Some(t.spec_block_number())
            } else {
                Option::None
            }
        },
    }
}

/// The state after one item, assuming the lookup succeeds wherever a
/// checkpoint falls due. The emitted checkpoint block does not influence the
/// state, so this is independent of what the lookup returned.
pub open spec fn spec_step_state<T: Outcome>(pre: State, decoded: Option<T>, interval: u64) -> State {
    match decoded {
        Option::None => pre,
        Option::Some(t) => {
            if t.spec_block_number() == pre.current_block_number {
                pre
            } else {
                let adv = State {
                    block_counter: (pre.block_counter + 1) as u64,
                    checkpoint_counter: pre.checkpoint_counter,
                    current_block_number: t.spec_block_number(),
                };
                if adv.block_counter > 0 && adv.block_counter == interval {
                    State {
                        block_counter: 0,
                        checkpoint_counter: (adv.checkpoint_counter + 1) as u64,
                        current_block_number: adv.current_block_number,
                    }
                } else {
                    adv
                }
            }
        },
    }
}

/// The block numbers that will fall due for a checkpoint while consuming the
/// items in order, assuming every lookup succeeds. This is what the driver
/// fetches before calling `roll_forward_batch`.
pub open spec fn spec_flush_points<T: Outcome>(
    pre: State,
    items: Seq<Option<T>>,
    interval: u64,
) -> Seq<u64>
    decreases items.len(),
{
    if items.len() == 0 {
        Seq::empty()
    } else {
        let rest = spec_flush_points(
            spec_step_state(pre, items[0], interval),
            items.drop_first(),
            interval,
        );
        match spec_checkpoint_due(pre, items[0], interval) {
            Option::Some(n) => seq![n] + rest,
            Option::None => rest,
        }
    }
}

/// The batch transition: items consumed in order, each due checkpoint taking
/// the next of the supplied lookup blocks; when the lookups run out, the due
/// flush misses and emits a `Skip`, exactly as a failed lookup would.
pub open spec fn spec_batch_roll<T: Outcome>(
    pre: State,
    items: Seq<Option<T>>,
    interval: u64,
    lookups: Seq<Block>,
) -> (State, Seq<Event<T>>)
    decreases items.len(),
{
    if items.len() == 0 {
        (pre, Seq::empty())
    } else {
        let due = spec_checkpoint_due(pre, items[0], interval) is Some;
        let lk: Option<Block> = if due && lookups.len() > 0 {
            Option::Some(lookups[0])
        } else {
            Option::None
        };
        let rest_lk = if due && lookups.len() > 0 {
            lookups.drop_first()
        } else {
            lookups
        };
        let (post1, evs1) = spec_roll_forward(pre, items[0], interval, lk);
        let (postn, evsn) = spec_batch_roll(post1, items.drop_first(), interval, rest_lk);
        (postn, evs1 + evsn)
    }
}

impl State {
    /// The checkpoints that will fall due while consuming `decoded` in order,
    /// assuming their lookups succeed: the driver fetches exactly these
    /// blocks and hands them to `roll_forward_batch`.
    pub fn checkpoints_due<T: Outcome>(
        &self,
        decoded: &Vec<Option<T>>,
        checkpoint_interval: u64,
    ) -> (r: Vec<u64>)
        requires
            self.block_counter + decoded@.len() < u64::MAX,
            self.checkpoint_counter + decoded@.len() < u64::MAX,
        ensures
            r@ =~= spec_flush_points(*self, decoded@, checkpoint_interval),
    {
        let mut sim: State = *self;
        let mut r: Vec<u64> = Vec::new();
        let n = decoded.len();
        let mut i: usize = 0;
        proof {
            assert(decoded@.skip(0) =~= decoded@);
            assert(Seq::<u64>::empty() + spec_flush_points(sim, decoded@, checkpoint_interval)
                =~= spec_flush_points(sim, decoded@, checkpoint_interval));
        }
        while i < n
            invariant
                n == decoded@.len(),
                0 <= i <= n,
                sim.block_counter + (n - i) < u64::MAX,
                sim.checkpoint_counter + (n - i) < u64::MAX,
                spec_flush_points(*self, decoded@, checkpoint_interval) =~= r@
                    + spec_flush_points(sim, decoded@.skip(i as int), checkpoint_interval),
            decreases n - i,
        {
            let ghost pre_sim = sim;
            let ghost pre_r = r@;
            let item = &decoded[i];
            match item {
                None => {},
                Some(t) => {
                    let bn = t.block_number();
                    if bn != sim.current_block_number {
                        sim.current_block_number = bn;
                        sim.block_counter = sim.block_counter + 1;
                        if sim.block_counter == checkpoint_interval {
                            r.push(bn);
                            sim.block_counter = 0;
                            sim.checkpoint_counter = sim.checkpoint_counter + 1;
                        }
                    }
                },
            }
            proof {
                let tail = decoded@.skip(i as int);
                assert(tail[0] == decoded@[i as int]);
                assert(tail.drop_first() =~= decoded@.skip(i as int + 1));
                assert(sim == spec_step_state(pre_sim, decoded@[i as int], checkpoint_interval));
                match spec_checkpoint_due(pre_sim, decoded@[i as int], checkpoint_interval) {
                    Option::Some(nn) => {
                        assert(r@ =~= pre_r.push(nn));
                        assert(spec_flush_points(pre_sim, tail, checkpoint_interval) =~= seq![nn]
                            + spec_flush_points(sim, tail.drop_first(), checkpoint_interval));
                        assert(pre_r + spec_flush_points(pre_sim, tail, checkpoint_interval)
                            =~= r@ + spec_flush_points(
                            sim,
                            decoded@.skip(i as int + 1),
                            checkpoint_interval,
                        ));
                    },
                    Option::None => {
                        assert(r@ =~= pre_r);
                    },
                }
            }
            i = i + 1;
        }
        proof {
            assert(decoded@.skip(n as int) =~= Seq::<Option<T>>::empty());
        }
        r
    }

    /// Consumes a batch of decoded items in order, then applies the batching
    /// rewrite to the concatenated events. `lookups` holds the blocks fetched
    /// for the numbers `checkpoints_due` named, in that order.
    pub fn roll_forward_batch<T: Outcome>(
        &mut self,
        decoded: Vec<Option<T>>,
        checkpoint_interval: u64,
        lookups: Vec<Block>,
    ) -> (events: Events<T>)
        requires
            old(self).block_counter + decoded@.len() < u64::MAX,
            old(self).checkpoint_counter + decoded@.len() < u64::MAX,
        ensures
            ({
                let (post, evs) = spec_batch_roll(
                    *old(self),
                    decoded@,
                    checkpoint_interval,
                    lookups@,
                );
                *final(self) == post && crate::event::batched_matches(
                    events.0@,
                    crate::event::spec_batch_events(evs),
                )
            }),
    {
        let ghost items0 = decoded@;
        let ghost lookups0 = lookups@;
        let ghost pre0 = *self;

        let mut outcomes: Vec<Event<T>> = Vec::new();
        let mut rest = decoded;
        let mut rest_lookups = lookups;

        while rest.len() > 0
            invariant
                self.block_counter + rest@.len() < u64::MAX,
                self.checkpoint_counter + rest@.len() < u64::MAX,
                ({
                    let (fpost, fevs) = spec_batch_roll(
                        pre0,
                        items0,
                        checkpoint_interval,
                        lookups0,
                    );
                    let (rpost, revs) = spec_batch_roll(
                        *self,
                        rest@,
                        checkpoint_interval,
                        rest_lookups@,
                    );
                    fpost == rpost && fevs =~= outcomes@ + revs
                }),
            decreases rest@.len(),
        {
            let ghost pre_state = *self;
            let ghost pre_rest = rest@;
            let ghost pre_lookups = rest_lookups@;
            let ghost pre_outcomes = outcomes@;

            let item = rest.remove(0);
            proof {
                assert(item == pre_rest[0]);
                assert(rest@ =~= pre_rest.drop_first());
            }
            let due = self.checkpoint_due(&item, checkpoint_interval);
            let lookup: Option<Block> = if due.is_some() && rest_lookups.len() > 0 {
                let b = rest_lookups.remove(0);
                proof {
                    assert(b == pre_lookups[0]);
                    assert(rest_lookups@ =~= pre_lookups.drop_first());
                }
                Some(b)
            } else {
                None
            };
            let Events(step_events) = self.roll_forward(item, checkpoint_interval, lookup);
            let mut step_events = step_events;
            let ghost step_evs = step_events@;
            outcomes.append(&mut step_events);
            proof {
                let (post1, evs1) = spec_roll_forward(
                    pre_state,
                    pre_rest[0],
                    checkpoint_interval,
                    lookup,
                );
                assert(*self == post1);
                assert(step_evs =~= evs1);
                assert(outcomes@ =~= pre_outcomes + evs1);
                let (rpost, revs) = spec_batch_roll(
                    pre_state,
                    pre_rest,
                    checkpoint_interval,
                    pre_lookups,
                );
                let (rpost2, revs2) = spec_batch_roll(
                    *self,
                    rest@,
                    checkpoint_interval,
                    rest_lookups@,
                );
                assert(rpost == rpost2 && revs =~= evs1 + revs2);
                assert(pre_outcomes + revs =~= outcomes@ + revs2);
            }
        }
        proof {
            let (rpost, revs) = spec_batch_roll(
                *self,
                rest@,
                checkpoint_interval,
                rest_lookups@,
            );
            assert(revs =~= Seq::<Event<T>>::empty());
            assert(outcomes@ + revs =~= outcomes@);
        }
        crate::event::batch_events(Events(outcomes))
    }
}

/// Resolves the block a run resumes from: the explicit `from_block` when one
/// was given, else the last persisted checkpoint, else the chain tip — a
/// fresh install starts at the tip rather than replaying history.
pub open spec fn spec_resume_block(
    from_block: Option<u64>,
    last_checkpoint: Option<i64>,
    tip_number: u64,
) -> u64 {
    match from_block {
        Option::Some(f) => f,
        Option::None => match last_checkpoint {
            Option::Some(n) => n as u64,
            Option::None => tip_number,
        },
    }
}

/// Builds the state a run starts from. `last_checkpoint` is the block number
/// of the most recent persisted checkpoint, if any.
pub fn init_state(from_block: Option<u64>, last_checkpoint: Option<i64>, tip_number: u64) -> (s:
    State)
    ensures
        s.block_counter == 0,
        s.checkpoint_counter == 0,
        s.current_block_number == spec_resume_block(from_block, last_checkpoint, tip_number),
{
    let start: u64 = match from_block {
        Some(f) => f,
        None => match last_checkpoint {
            Some(n) => n as u64,
            None => tip_number,
        },
    };
    State::new(start)
}

/// The state after consuming a whole item sequence, assuming every due
/// checkpoint lookup succeeds.
pub open spec fn fold_state<T: Outcome>(pre: State, items: Seq<Option<T>>, interval: u64) -> State
    decreases items.len(),
{
    if items.len() == 0 {
        pre
    } else {
        fold_state(spec_step_state(pre, items[0], interval), items.drop_first(), interval)
    }
}

/// The number of distinct advancing block numbers in an item sequence,
/// starting from the block `cur`.
pub open spec fn advances<T: Outcome>(items: Seq<Option<T>>, cur: u64) -> int
    decreases items.len(),
{
    if items.len() == 0 {
        0
    } else {
        match items[0] {
            Option::None => advances(items.drop_first(), cur),
            Option::Some(t) => {
                if t.spec_block_number() != cur {
                    1 + advances(items.drop_first(), t.spec_block_number())
                } else {
                    advances(items.drop_first(), cur)
                }
            },
        }
    }
}

/// The block a single event speaks of, if any.
pub open spec fn event_block<T: Outcome>(e: Event<T>) -> Option<u64> {
    match e {
        Event::Skip => Option::None,
        Event::Element(t) => Option::Some(t.spec_block_number()),
        Event::Checkpoint(b) => Option::Some(b.number),
        Event::Many(_) => Option::None,
    }
}

/// Block numbers never decrease along the event sequence.
pub open spec fn events_monotone<T: Outcome>(evs: Seq<Event<T>>) -> bool {
    forall|i: int, j: int|
        0 <= i < j < evs.len() && event_block(#[trigger] evs[i]) is Some && event_block(
            #[trigger] evs[j],
        ) is Some ==> event_block(evs[i])->0 <= event_block(evs[j])->0
}

/// Items arrive in non-decreasing block order, all at or above `start`.
pub open spec fn sorted_from<T: Outcome>(items: Seq<Option<T>>, start: u64) -> bool {
    &&& forall|i: int, j: int|
        0 <= i < j < items.len() && (#[trigger] items[i]) is Some && (#[trigger] items[j]) is Some
            ==> items[i]->0.spec_block_number() <= items[j]->0.spec_block_number()
    &&& forall|i: int|
        0 <= i < items.len() && (#[trigger] items[i]) is Some ==> items[i]->0.spec_block_number()
            >= start
}

/// The supplied lookups answer exactly the due checkpoints, in order, each
/// with the block that was asked for.
pub open spec fn lookups_aligned<T: Outcome>(
    pre: State,
    items: Seq<Option<T>>,
    interval: u64,
    lookups: Seq<Block>,
) -> bool {
    &&& lookups.len() == spec_flush_points(pre, items, interval).len()
    &&& forall|k: int|
        0 <= k < lookups.len() ==> (#[trigger] lookups[k]).number == spec_flush_points(
            pre,
            items,
            interval,
        )[k]
}

/// A due checkpoint and the flush taken inside the transition are one and
/// the same condition, and a flush that finds its block leaves the state of
/// `spec_step_state`.
proof fn lemma_step_flush_iff_due<T: Outcome>(
    pre: State,
    decoded: Option<T>,
    interval: u64,
    lookup: Option<Block>,
)
    requires
        pre.block_counter < u64::MAX,
    ensures
        ({
            let (post, evs) = spec_roll_forward(pre, decoded, interval, lookup);
            &&& (spec_checkpoint_due(pre, decoded, interval) is Some && lookup is Some ==> post
                == spec_step_state(pre, decoded, interval))
            &&& (spec_checkpoint_due(pre, decoded, interval) is None ==> post == spec_step_state(
                pre,
                decoded,
                interval,
            ))
        }),
{
    match decoded {
        Option::None => {},
        Option::Some(t) => {
            if t.spec_block_number() != pre.current_block_number {
                let adv_counter = (pre.block_counter + 1) as u64;
                assert(adv_counter == pre.block_counter + 1);
            }
        },
    }
}

/// Law (order): a run whose items arrive in non-decreasing block order at or
/// above the starting block, and whose due checkpoints are answered with the
/// blocks asked for, emits its events with non-decreasing block numbers; the
/// current block only advances, and every event sits between the starting
/// and the final block.
pub proof fn lemma_events_monotone<T: Outcome>(
    pre: State,
    items: Seq<Option<T>>,
    interval: u64,
    lookups: Seq<Block>,
)
    requires
        sorted_from(items, pre.current_block_number),
        lookups_aligned(pre, items, interval, lookups),
        pre.block_counter + items.len() <= u64::MAX,
    ensures
        ({
            let (post, evs) = spec_batch_roll(pre, items, interval, lookups);
            &&& events_monotone(evs)
            &&& post.current_block_number >= pre.current_block_number
            &&& forall|k: int|
                0 <= k < evs.len() && event_block(#[trigger] evs[k]) is Some ==> pre.current_block_number
                    <= event_block(evs[k])->0 <= post.current_block_number
            &&& post == fold_state(pre, items, interval)
        }),
    decreases items.len(),
{
    let (post, evs) = spec_batch_roll(pre, items, interval, lookups);
    if items.len() == 0 {
    } else {
        let item = items[0];
        let rest = items.drop_first();
        let due = spec_checkpoint_due(pre, item, interval);
        let flush_pts = spec_flush_points(pre, items, interval);
        let lk: Option<Block> = if due is Some && lookups.len() > 0 {
            Option::Some(lookups[0])
        } else {
            Option::None
        };
        let rest_lk = if due is Some && lookups.len() > 0 {
            lookups.drop_first()
        } else {
            lookups
        };
        let (post1, evs1) = spec_roll_forward(pre, item, interval, lk);
        let (postn, evsn) = spec_batch_roll(post1, rest, interval, rest_lk);

        lemma_step_flush_iff_due(pre, item, interval, lk);
        if due is Some {
            assert(flush_pts == seq![due->0] + spec_flush_points(
                spec_step_state(pre, item, interval),
                rest,
                interval,
            ));
            assert(flush_pts.len() > 0);
            assert(lookups.len() > 0);
            assert(lookups[0].number == flush_pts[0]);
            assert(flush_pts[0] == due->0);
        }
        assert(post1 == spec_step_state(pre, item, interval));

        // the tail hypotheses
        assert(spec_flush_points(pre, items, interval).len() == (if due is Some {
            1int
        } else {
            0int
        }) + spec_flush_points(post1, rest, interval).len());
        assert forall|k: int| 0 <= k < rest_lk.len() implies (#[trigger] rest_lk[k]).number
            == spec_flush_points(post1, rest, interval)[k] by {
            if due is Some {
                assert(rest_lk[k] == lookups[k + 1]);
                assert(flush_pts[k + 1] == spec_flush_points(post1, rest, interval)[k]);
            } else {
                assert(flush_pts[k] == spec_flush_points(post1, rest, interval)[k]);
            }
        }
        assert(lookups_aligned(post1, rest, interval, rest_lk));

        assert forall|i: int| 0 <= i < rest.len() implies #[trigger] rest[i] == items[i + 1] by {}
        assert forall|i: int|
            0 <= i < rest.len() && (#[trigger] rest[i]) is Some implies rest[i]->0.spec_block_number()
            >= post1.current_block_number by {
            assert(items[i + 1] is Some);
            if item is Some && item->0.spec_block_number() != pre.current_block_number {
                assert(items[0] is Some);
                assert(items[i + 1]->0.spec_block_number() >= items[0]->0.spec_block_number());
            }
        }
        assert(sorted_from(rest, post1.current_block_number));

        lemma_events_monotone(post1, rest, interval, rest_lk);

        // bounds on this step's own events
        assert(post1.current_block_number >= pre.current_block_number);
        assert forall|k: int|
            0 <= k < evs1.len() && event_block(#[trigger] evs1[k]) is Some implies pre.current_block_number
            <= event_block(evs1[k])->0 <= post1.current_block_number by {
            if item is Some && item->0.spec_block_number() != pre.current_block_number {
                assert(item->0.spec_block_number() >= pre.current_block_number);
            }
        }

        assert(evs =~= evs1 + evsn);
        assert forall|k: int| 0 <= k < evsn.len() implies #[trigger] evs[evs1.len() + k]
            == evsn[k] by {}
        assert forall|k: int|
            0 <= k < evs.len() && event_block(#[trigger] evs[k]) is Some implies pre.current_block_number
            <= event_block(evs[k])->0 <= post.current_block_number by {
            if k < evs1.len() {
                assert(evs[k] == evs1[k]);
            } else {
                assert(evs[k] == evsn[k - evs1.len()]);
            }
        }
        assert forall|i: int, j: int|
            0 <= i < j < evs.len() && event_block(#[trigger] evs[i]) is Some && event_block(
                #[trigger] evs[j],
            ) is Some implies event_block(evs[i])->0 <= event_block(evs[j])->0 by {
            if j < evs1.len() {
                assert(evs[i] == evs1[i] && evs[j] == evs1[j]);
            } else if i >= evs1.len() {
                assert(evs[i] == evsn[i - evs1.len()] && evs[j] == evsn[j - evs1.len()]);
            } else {
                assert(evs[i] == evs1[i] && evs[j] == evsn[j - evs1.len()]);
                assert(event_block(evs1[i])->0 <= post1.current_block_number);
                assert(event_block(evsn[j - evs1.len()])->0 >= post1.current_block_number);
            }
        }
    }
}

/// Law (counter reset): immediately after the transition emits a checkpoint
/// event, the block counter is zero.
pub proof fn lemma_checkpoint_resets_counter<T: Outcome>(
    pre: State,
    decoded: Option<T>,
    interval: u64,
    lookup: Option<Block>,
)
    ensures
        ({
            let (post, evs) = spec_roll_forward(pre, decoded, interval, lookup);
            (exists|i: int| 0 <= i < evs.len() && #[trigger] evs[i] is Checkpoint)
                ==> post.block_counter == 0
        }),
{
    let (post, evs) = spec_roll_forward(pre, decoded, interval, lookup);
    if exists|i: int| 0 <= i < evs.len() && #[trigger] evs[i] is Checkpoint {
        let i = choose|i: int| 0 <= i < evs.len() && #[trigger] evs[i] is Checkpoint;
        assert(evs[i] is Checkpoint);
    }
}

/// Law (cadence): over any run, the distinct advancing block numbers split
/// exactly into `interval` for each emitted checkpoint plus the residue left
/// in the block counter. Between two consecutive emitted checkpoints,
/// therefore, exactly `interval` distinct advancing blocks are consumed —
/// never more — and the counter always stays below the interval.
pub proof fn lemma_checkpoint_cadence<T: Outcome>(pre: State, items: Seq<Option<T>>, interval: u64)
    requires
        pre.block_counter < interval,
        pre.checkpoint_counter + items.len() <= u64::MAX,
    ensures
        ({
            let post = fold_state(pre, items, interval);
            &&& post.block_counter < interval
            &&& post.checkpoint_counter >= pre.checkpoint_counter
            &&& pre.block_counter + advances(items, pre.current_block_number) == (
            post.checkpoint_counter - pre.checkpoint_counter) * interval + post.block_counter
        }),
    decreases items.len(),
{
    let post = fold_state(pre, items, interval);
    if items.len() == 0 {
        assert((post.checkpoint_counter - pre.checkpoint_counter) * interval == 0) by (nonlinear_arith)
            requires post.checkpoint_counter == pre.checkpoint_counter;
    } else {
        let item = items[0];
        let rest = items.drop_first();
        let mid = spec_step_state(pre, item, interval);
        match item {
            Option::None => {
                lemma_checkpoint_cadence(mid, rest, interval);
            },
            Option::Some(t) => {
                if t.spec_block_number() == pre.current_block_number {
                    lemma_checkpoint_cadence(mid, rest, interval);
                } else {
                    assert(pre.block_counter + 1 <= interval);
                    if pre.block_counter + 1 == interval {
                        assert(mid.block_counter == 0);
                        assert(mid.checkpoint_counter == pre.checkpoint_counter + 1);
                        lemma_checkpoint_cadence(mid, rest, interval);
                        let postd = post.checkpoint_counter - mid.checkpoint_counter;
                        assert((postd + 1) * interval == postd * interval + interval)
                            by (nonlinear_arith);
                    } else {
                        assert(mid.block_counter == pre.block_counter + 1 < interval);
                        lemma_checkpoint_cadence(mid, rest, interval);
                    }
                }
            },
        }
    }
}

/// The state after the first `k` items of a run.
pub open spec fn state_at<T: Outcome>(pre: State, items: Seq<Option<T>>, interval: u64, k: int) -> State {
    fold_state(pre, items.take(k), interval)
}

/// Whether consuming item `k` flushes a checkpoint, read off the checkpoint
/// counter.
pub open spec fn flushes_at<T: Outcome>(
    pre: State,
    items: Seq<Option<T>>,
    interval: u64,
    k: int,
) -> bool {
    state_at(pre, items, interval, k + 1).checkpoint_counter > state_at(
        pre,
        items,
        interval,
        k,
    ).checkpoint_counter
}

proof fn lemma_fold_state_singleton<T: Outcome>(s: State, x: Option<T>, interval: u64)
    ensures
        fold_state(s, seq![x], interval) == spec_step_state(s, x, interval),
{
    let v: Seq<Option<T>> = seq![x];
    assert(v.len() == 1);
    assert(v[0] == x);
    assert(v.drop_first() =~= Seq::<Option<T>>::empty());
    assert(fold_state(spec_step_state(s, x, interval), Seq::<Option<T>>::empty(), interval)
        == spec_step_state(s, x, interval));
}

proof fn lemma_fold_state_concat<T: Outcome>(pre: State, a: Seq<Option<T>>, b: Seq<Option<T>>, interval: u64)
    ensures
        fold_state(pre, a + b, interval) == fold_state(fold_state(pre, a, interval), b, interval),
    decreases a.len(),
{
    if a.len() == 0 {
        assert(a + b =~= b);
        assert(a.take(0) =~= a);
    } else {
        assert((a + b)[0] == a[0]);
        assert((a + b).drop_first() =~= a.drop_first() + b);
        lemma_fold_state_concat(spec_step_state(pre, a[0], interval), a.drop_first(), b, interval);
    }
}

/// One step moves the checkpoint counter by at most one, and exactly the
/// steps that move it reset the block counter.
proof fn lemma_step_counters<T: Outcome>(pre: State, item: Option<T>, interval: u64)
    requires
        pre.checkpoint_counter < u64::MAX,
    ensures
        ({
            let post = spec_step_state(pre, item, interval);
            &&& post.checkpoint_counter == pre.checkpoint_counter || post.checkpoint_counter
                == pre.checkpoint_counter + 1
            &&& post.checkpoint_counter == pre.checkpoint_counter + 1 ==> post.block_counter == 0
        }),
{
}

/// Consuming one more item applies one step to the state reached so far.
proof fn lemma_state_at_step<T: Outcome>(pre: State, items: Seq<Option<T>>, interval: u64, k: int)
    requires
        0 <= k < items.len(),
    ensures
        state_at(pre, items, interval, k + 1) == spec_step_state(
            state_at(pre, items, interval, k),
            items[k],
            interval,
        ),
{
    assert(items.take(k + 1) =~= items.take(k) + seq![items[k]]);
    lemma_fold_state_concat(pre, items.take(k), seq![items[k]], interval);
    lemma_fold_state_singleton(state_at(pre, items, interval, k), items[k], interval);
}

proof fn lemma_ck_bounded<T: Outcome>(pre: State, items: Seq<Option<T>>, interval: u64, k: int)
    requires
        0 <= k <= items.len(),
        pre.checkpoint_counter + items.len() <= u64::MAX,
    ensures
        pre.checkpoint_counter <= state_at(pre, items, interval, k).checkpoint_counter
            <= pre.checkpoint_counter + k,
    decreases k,
{
    if k == 0 {
        assert(items.take(0) =~= Seq::<Option<T>>::empty());
    } else {
        lemma_ck_bounded(pre, items, interval, k - 1);
        let s = state_at(pre, items, interval, k - 1);
        lemma_step_counters(s, items[k - 1], interval);
        lemma_state_at_step(pre, items, interval, k - 1);
    }
}

/// Law (cadence between checkpoints): in a run where every due lookup
/// succeeds, any two consecutive emitted checkpoints are exactly
/// `interval` distinct advancing block numbers apart — never more. The items
/// strictly between them, together with the one that triggers the second
/// checkpoint, advance through exactly `interval` distinct blocks.
pub proof fn lemma_cadence_between_checkpoints<T: Outcome>(
    pre: State,
    items: Seq<Option<T>>,
    interval: u64,
    i: int,
    j: int,
)
    requires
        pre.checkpoint_counter + items.len() <= u64::MAX,
        0 <= i < j < items.len(),
        flushes_at(pre, items, interval, i),
        flushes_at(pre, items, interval, j),
        forall|k: int| i < k < j ==> !flushes_at(pre, items, interval, k),
        interval >= 1,
    ensures
        advances(
            items.subrange(i + 1, j + 1),
            state_at(pre, items, interval, i + 1).current_block_number,
        ) == interval,
{
    let s1 = state_at(pre, items, interval, i + 1);
    let s0 = state_at(pre, items, interval, i);
    let seg = items.subrange(i + 1, j + 1);

    // the flush at i leaves the counter at zero
    lemma_ck_bounded(pre, items, interval, i);
    lemma_step_counters(s0, items[i], interval);
    lemma_state_at_step(pre, items, interval, i);
    assert(s1.block_counter == 0);

    // the checkpoint counter rises exactly once over the segment: at j
    assert forall|k: int|
        i + 1 <= k < j implies (#[trigger] state_at(pre, items, interval, k)).checkpoint_counter
        == state_at(pre, items, interval, k + 1).checkpoint_counter by {
        lemma_ck_bounded(pre, items, interval, k);
        let s = state_at(pre, items, interval, k);
        lemma_step_counters(s, items[k], interval);
        lemma_state_at_step(pre, items, interval, k);
        assert(!flushes_at(pre, items, interval, k));
    }
    lemma_ck_chain(pre, items, interval, i + 1, j);

    let s2 = state_at(pre, items, interval, j + 1);
    lemma_ck_bounded(pre, items, interval, j);
    let sj = state_at(pre, items, interval, j);
    lemma_step_counters(sj, items[j], interval);
    lemma_state_at_step(pre, items, interval, j);
    assert(s2.checkpoint_counter == sj.checkpoint_counter + 1);
    assert(s2.block_counter == 0);
    assert(sj.checkpoint_counter == s1.checkpoint_counter);

    // the whole segment, folded from s1, ends at s2
    assert(items.take(j + 1) =~= items.take(i + 1) + seg);
    lemma_fold_state_concat(pre, items.take(i + 1), seg, interval);
    assert(fold_state(s1, seg, interval) == s2);

    // the accounting law over the segment settles the count
    assert(s1.checkpoint_counter + seg.len() <= u64::MAX) by {
        lemma_ck_bounded(pre, items, interval, i + 1);
    }
    lemma_checkpoint_cadence(s1, seg, interval);
    assert((s2.checkpoint_counter - s1.checkpoint_counter) * interval == interval)
        by (nonlinear_arith)
        requires
            s2.checkpoint_counter == s1.checkpoint_counter + 1,
    ;
}

/// Equal checkpoint counters chain along steps that flush nothing.
proof fn lemma_ck_chain<T: Outcome>(pre: State, items: Seq<Option<T>>, interval: u64, a: int, k: int)
    requires
        0 <= a <= k,
        forall|m: int|
            a <= m < k ==> (#[trigger] state_at(pre, items, interval, m)).checkpoint_counter
                == state_at(pre, items, interval, m + 1).checkpoint_counter,
    ensures
        state_at(pre, items, interval, k).checkpoint_counter == state_at(
            pre,
            items,
            interval,
            a,
        ).checkpoint_counter,
    decreases k - a,
{
    if k > a {
        lemma_ck_chain(pre, items, interval, a, k - 1);
        assert(state_at(pre, items, interval, k - 1).checkpoint_counter == state_at(
            pre,
            items,
            interval,
            k,
        ).checkpoint_counter);
    }
}

/// Law (interval one): with a checkpoint interval of one, every advancing
/// item emits a checkpoint at its own block, immediately before its element.
pub proof fn lemma_interval_one<T: Outcome>(pre: State, decoded: Option<T>, lookup: Option<Block>)
    requires
        pre.block_counter == 0,
        decoded matches Option::Some(t) && t.spec_block_number() != pre.current_block_number,
        lookup is Some,
    ensures
        ({
            let (post, evs) = spec_roll_forward(pre, decoded, 1u64, lookup);
            &&& evs.len() == 2
            &&& evs[0] == Event::<T>::Checkpoint(lookup->0)
            &&& evs[1] == Event::<T>::Element(decoded->0)
            &&& post.block_counter == 0
            &&& post.current_block_number == decoded->0.spec_block_number()
        }),
{
}

/// Law (batch shape): whatever `roll_forward_batch` hands to the channel
/// holds only checkpoints and element batches, never two element batches
/// next to each other, and carries the run's checkpoint blocks and element
/// payload unchanged and in order.
pub proof fn lemma_batch_output_shape<T: Outcome>(
    pre: State,
    items: Seq<Option<T>>,
    interval: u64,
    lookups: Seq<Block>,
    out: Seq<Event<T>>,
)
    requires
        crate::event::batched_matches(
            out,
            crate::event::spec_batch_events(spec_batch_roll(pre, items, interval, lookups).1),
        ),
    ensures
        ({
            let evs = spec_batch_roll(pre, items, interval, lookups).1;
            &&& forall|i: int|
                0 <= i < out.len() ==> ((#[trigger] out[i]) is Checkpoint || out[i] is Many)
            &&& forall|i: int|
                0 <= i < out.len() - 1 ==> !((#[trigger] out[i]) is Many && out[i + 1] is Many)
            &&& crate::event::checkpoint_blocks(out) =~= crate::event::checkpoint_blocks(evs)
            &&& crate::event::flat_items(out) =~= crate::event::flat_items(evs)
        }),
{
    lemma_batch_roll_no_many(pre, items, interval, lookups);
    crate::event::lemma_batching_rewrite(spec_batch_roll(pre, items, interval, lookups).1, out);
}

/// The state machine never emits a `Many`: only the batching rewrite builds
/// those.
pub proof fn lemma_batch_roll_no_many<T: Outcome>(
    pre: State,
    items: Seq<Option<T>>,
    interval: u64,
    lookups: Seq<Block>,
)
    ensures
        crate::event::no_many(spec_batch_roll(pre, items, interval, lookups).1),
    decreases items.len(),
{
    if items.len() > 0 {
        let due = spec_checkpoint_due(pre, items[0], interval) is Some;
        let lk: Option<Block> = if due && lookups.len() > 0 {
            Option::Some(lookups[0])
        } else {
            Option::None
        };
        let rest_lk = if due && lookups.len() > 0 {
            lookups.drop_first()
        } else {
            lookups
        };
        let (post1, evs1) = spec_roll_forward(pre, items[0], interval, lk);
        lemma_batch_roll_no_many(post1, items.drop_first(), interval, rest_lk);
        let (postn, evsn) = spec_batch_roll(post1, items.drop_first(), interval, rest_lk);
        assert(crate::event::no_many(evs1 + evsn)) by {
            assert(forall|i: int|
                0 <= i < evs1.len() ==> (evs1 + evsn)[i] == #[trigger] evs1[i]);
            assert(forall|i: int|
                evs1.len() <= i < evs1.len() + evsn.len() ==> (evs1 + evsn)[i] == #[trigger] evsn[
                    i - evs1.len()
                ]);
        }
    }
}

} // verus!
