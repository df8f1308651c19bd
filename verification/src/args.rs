//! The engine's configuration: what to watch, where to resume, and the two
//! cadences. Immutable after construction.

use vstd::prelude::*;

use crate::source::EventType;

verus! {

/// Arguments of one engine run. Addresses are 20-byte contract addresses;
/// both intervals are in distinct advancing blocks, the poll interval in
/// milliseconds.
#[derive(Debug)]
pub struct Args {
    pub addresses: Vec<Vec<u8>>,
    pub event: EventType,
    pub from_block: Option<u64>,
    pub checkpoint_interval: u64,
    pub backfill_checkpoint_interval: Option<u64>,
    pub poll_interval_ms: u64,
}

/// Why a set of arguments is rejected.
#[derive(Clone, Copy, Debug, PartialEq, Eq, Structural)]
pub enum ArgsError {
    NoAddresses,
    ZeroCheckpointInterval,
    ZeroBackfillCheckpointInterval,
    ZeroPollInterval,
}

impl Args {
    /// The invariants the engine relies on: at least one address to watch,
    /// and strictly positive cadences.
    pub open spec fn wf(self) -> bool {
        &&& self.addresses@.len() > 0
        &&& self.checkpoint_interval > 0
        &&& (self.backfill_checkpoint_interval matches Some(b) ==> b > 0)
        &&& self.poll_interval_ms > 0
    }

    /// Builds a configuration, rejecting empty address lists and zero
    /// intervals — the first violation in this order decides the error.
    pub fn new(
        addresses: Vec<Vec<u8>>,
        event: EventType,
        from_block: Option<u64>,
        checkpoint_interval: u64,
        backfill_checkpoint_interval: Option<u64>,
        poll_interval_ms: u64,
    ) -> (r: Result<Args, ArgsError>)
        ensures
            r matches Ok(a) ==> a.wf() && a.addresses@ == addresses@ && a.event == event
                && a.from_block == from_block && a.checkpoint_interval == checkpoint_interval
                && a.backfill_checkpoint_interval == backfill_checkpoint_interval
                && a.poll_interval_ms == poll_interval_ms,
            r is Ok <==> (addresses@.len() > 0 && checkpoint_interval > 0 && (
            backfill_checkpoint_interval matches Some(b) ==> b > 0) && poll_interval_ms > 0),
            r matches Err(e) ==> e == (if addresses@.len() == 0 {
                ArgsError::NoAddresses
            } else if checkpoint_interval == 0 {
                ArgsError::ZeroCheckpointInterval
            } else if backfill_checkpoint_interval matches Some(b) && b == 0 {
                ArgsError::ZeroBackfillCheckpointInterval
            } else {
                ArgsError::ZeroPollInterval
            }),
    {
        if addresses.len() == 0 {
            return Err(ArgsError::NoAddresses);
        }
        if checkpoint_interval == 0 {
            return Err(ArgsError::ZeroCheckpointInterval);
        }
        if let Some(b) = backfill_checkpoint_interval {
            if b == 0 {
                return Err(ArgsError::ZeroBackfillCheckpointInterval);
            }
        }
        if poll_interval_ms == 0 {
            return Err(ArgsError::ZeroPollInterval);
        }
        Ok(
            Args {
                addresses,
                event,
                from_block,
                checkpoint_interval,
                backfill_checkpoint_interval,
                poll_interval_ms,
            },
        )
    }

    /// The cadence backfill runs at: its own interval when one was given,
    /// else the live checkpoint interval.
    pub fn backfill_interval(&self) -> (r: u64)
        ensures
            r == match self.backfill_checkpoint_interval {
                Option::Some(b) => b,
                Option::None => self.checkpoint_interval,
            },
    {
        match self.backfill_checkpoint_interval {
            Some(b) => b,
            None => self.checkpoint_interval,
        }
    }
}

/// The event kinds the command line accepts, mapped onto the engine's own
/// event filter.
#[derive(Clone, Copy, Debug, PartialEq, Eq, Structural)]
pub enum CliEventType {
    Transfer,
}

impl CliEventType {
    pub fn as_event_type(&self) -> (e: EventType)
        ensures
            *self == CliEventType::Transfer ==> e == EventType::Transfer,
    {
        match self {
            CliEventType::Transfer => EventType::Transfer,
        }
    }
}

/// Reads the command line's `from_block`, whose default of zero means
/// "resume from the last checkpoint, or start at the tip".
pub fn resolve_from_block(raw: u64) -> (r: Option<u64>)
    ensures
        raw == 0 ==> r is None,
        raw != 0 ==> r == Some(raw),
{
    if raw == 0 {
        None
    } else {
        Some(raw)
    }
}

} // verus!
