//! The live producer's own bookkeeping: it counts events since the last
//! checkpoint and remembers which block the next checkpoint will record.
//! The driver polls the stream and fetches checkpoint blocks; the decisions
//! live here.

use vstd::prelude::*;

use crate::block::Block;
use crate::event::Event;
use crate::source::{Decode, SourceInput};

verus! {

/// Counters of the live producer: how many stream events since the last
/// checkpoint, and the block number the next checkpoint will be taken at.
#[derive(Clone, Copy, Debug, PartialEq, Eq, Structural)]
pub struct ProducerState {
    pub event_counter: u64,
    pub next_checkpoint_block_number: u64,
}

impl ProducerState {
    /// A fresh producer that would checkpoint at `next_checkpoint_block_number`.
    pub fn new(next_checkpoint_block_number: u64) -> (s: ProducerState)
        ensures
            s.event_counter == 0,
            s.next_checkpoint_block_number == next_checkpoint_block_number,
    {
        ProducerState { event_counter: 0, next_checkpoint_block_number }
    }

    fn increment_event_counter(&mut self)
        requires
            old(self).event_counter < u64::MAX,
        ensures
            final(self).event_counter == old(self).event_counter + 1,
            final(self).next_checkpoint_block_number == old(self).next_checkpoint_block_number,
    {
        self.event_counter = self.event_counter + 1;
    }

    fn reset_event_counter(&mut self)
        ensures
            final(self).event_counter == 0,
            final(self).next_checkpoint_block_number == old(self).next_checkpoint_block_number,
    {
        self.event_counter = 0;
    }

    fn set_next_checkpoint_block_number(&mut self, block_number: u64)
        ensures
            final(self).next_checkpoint_block_number == block_number,
            final(self).event_counter == old(self).event_counter,
    {
        self.next_checkpoint_block_number = block_number;
    }

    /// Whether the producer owes a checkpoint now — every `interval` events,
    /// never on the first — and at which block it would be taken.
    pub fn checkpoint_decision(&self, interval: u64) -> (r: (bool, u64))
        ensures
            r.0 == (self.event_counter > 0 && self.event_counter == interval),
            r.1 == self.next_checkpoint_block_number,
    {
        (self.event_counter > 0 && self.event_counter == interval, self.next_checkpoint_block_number)
    }

    /// Consumes the block the driver fetched for a due checkpoint: the
    /// counter starts over and the checkpoint event carries the block.
    pub fn on_checkpoint_block<T>(&mut self, block: Block) -> (ev: Event<T>)
        ensures
            final(self).event_counter == 0,
            final(self).next_checkpoint_block_number == old(self).next_checkpoint_block_number,
            ev == Event::<T>::Checkpoint(block),
    {
        self.reset_event_counter();
        Event::Checkpoint(block)
    }

    /// Consumes one item pulled from the live stream. A pending item or one
    /// that does not decode counts but is skipped; a decoded element counts,
    /// moves the next checkpoint to its block, and is emitted.
    pub fn on_input<E: SourceInput + Decode<T>, T>(&mut self, input: &E) -> (ev: Event<T>)
        requires
            old(self).event_counter < u64::MAX,
        ensures
            final(self).event_counter == old(self).event_counter + 1,
            match input.spec_block_number() {
                Option::None => ev is Skip && final(self).next_checkpoint_block_number == old(
                    self,
                ).next_checkpoint_block_number,
                Option::Some(bn) => {
                    if input.decodable() {
                        &&& ev matches Event::Element(t) && input.decodes_to(t)
                        &&& final(self).next_checkpoint_block_number == bn
                    } else {
                        &&& ev is Skip
                        &&& final(self).next_checkpoint_block_number == old(
                            self,
                        ).next_checkpoint_block_number
                    }
                },
            },
    {
        match input.block_number() {
            None => {
                self.increment_event_counter();
                Event::Skip
            },
            Some(bn) => {
                match input.decode() {
                    None => {
                        self.increment_event_counter();
                        Event::Skip
                    },
                    Some(t) => {
                        self.set_next_checkpoint_block_number(bn);
                        self.increment_event_counter();
                        Event::Element(t)
                    },
                }
            },
        }
    }
}

} // verus!
