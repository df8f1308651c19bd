//! The consumer side of the pipeline: each event maps to one action against
//! the sink or the checkpoint store. The driver performs the action; the
//! decision of what to do with an event lives here.

use vstd::prelude::*;

use crate::checkpoint::Checkpoint;
use crate::event::Event;

verus! {

/// What the consumer does with one event: nothing, persist a checkpoint row,
/// persist a single element, or persist a batch of elements at once.
#[derive(Debug)]
pub enum SinkAction<T> {
    Nothing,
    SaveCheckpoint(Checkpoint),
    ProcessOne(T),
    ProcessBatch(Vec<T>),
}

/// Dispatches one event. `Skip` does nothing; a checkpoint becomes its store
/// row; a single element — also a `Many` of exactly one — is persisted on
/// its own, and a longer `Many` as one batch. An empty `Many` does nothing.
pub fn consume_event_outcome<T>(event: Event<T>) -> (action: SinkAction<T>)
    ensures
        match event {
            Event::Skip => action is Nothing,
            Event::Checkpoint(b) => action matches SinkAction::SaveCheckpoint(c)
                && c.matches_block(b),
            Event::Element(t) => action == SinkAction::ProcessOne(t),
            Event::Many(v) => {
                if v@.len() == 0 {
                    action is Nothing
                } else if v@.len() == 1 {
                    action == SinkAction::ProcessOne(v@[0])
                } else {
                    action == SinkAction::ProcessBatch(v)
                }
            },
        },
{
    match event {
        Event::Skip => SinkAction::Nothing,
        Event::Checkpoint(b) => SinkAction::SaveCheckpoint(Checkpoint::from_block(&b)),
        Event::Element(t) => SinkAction::ProcessOne(t),
        Event::Many(v) => {
            if v.len() == 0 {
                SinkAction::Nothing
            } else if v.len() == 1 {
                let mut v = v;
                let t = v.remove(0);
                SinkAction::ProcessOne(t)
            } else {
                SinkAction::ProcessBatch(v)
            }
        },
    }
}

} // verus!
