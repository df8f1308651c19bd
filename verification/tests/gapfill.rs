use eth_indexer::block::Block;
use eth_indexer::event::{Event, Events};
use eth_indexer::gapfiller::{chunk_plan, gapfill_chunk, gapfill_final_checkpoint, next_chunk};
use eth_indexer::log::LogRecord;
use eth_indexer::state::State;
use eth_indexer::subscriber::{consume_event_outcome, SinkAction};
use eth_indexer::transfer::Transfer;

fn block_at(number: u64) -> Block {
    let mut hash = vec![0u8; 32];
    hash[0] = number as u8;
    let mut parent = vec![0u8; 32];
    parent[0] = number.wrapping_sub(1) as u8;
    Block::new(number, hash, parent)
}

fn log_at(block_number: u64, tx: u8, log_index: u64) -> LogRecord {
    LogRecord {
        block_number: Some(block_number),
        block_hash: Some(vec![block_number as u8; 32]),
        transaction_hash: Some(vec![tx; 32]),
        log_index: Some(log_index),
        address: vec![0xcc; 20],
        topics: vec![vec![0xaa; 32], vec![0x11; 32], vec![0x22; 32]],
        data: vec![0x2a],
    }
}

/// The rows a run persists, with the store's duplicate handling: a transfer
/// is ignored when its `(transaction_hash, log_index)` key is present, a
/// checkpoint when its `(block_number, block_hash)` is.
struct ModelStore {
    transfers: Vec<Transfer>,
    checkpoints: Vec<(i64, Vec<u8>)>,
    // what order rows and checkpoints arrived in, for ordering assertions
    writes: Vec<String>,
}

impl ModelStore {
    fn new() -> ModelStore {
        ModelStore { transfers: Vec::new(), checkpoints: Vec::new(), writes: Vec::new() }
    }

    fn insert_transfer(&mut self, t: Transfer) {
        let duplicate = self
            .transfers
            .iter()
            .any(|x| x.transaction_hash == t.transaction_hash && x.log_index == t.log_index);
        if !duplicate {
            self.writes.push(format!("transfer@{}", t.block_number));
            self.transfers.push(t);
        }
    }

    fn insert_checkpoint(&mut self, block_number: i64, block_hash: Vec<u8>) {
        let duplicate = self
            .checkpoints
            .iter()
            .any(|(n, h)| *n == block_number && *h == block_hash);
        if !duplicate {
            self.writes.push(format!("checkpoint@{}", block_number));
            self.checkpoints.push((block_number, block_hash));
        }
    }

    fn apply(&mut self, events: Events<Transfer>) {
        for ev in events.0 {
            match consume_event_outcome(ev) {
                SinkAction::Nothing => {},
                SinkAction::SaveCheckpoint(c) => self.insert_checkpoint(c.block_number, c.block_hash),
                SinkAction::ProcessOne(t) => self.insert_transfer(t),
                SinkAction::ProcessBatch(ts) => {
                    for t in ts {
                        self.insert_transfer(t);
                    }
                },
            }
        }
    }
}

/// Runs one whole backfill against the model store: `logs` plays the chain's
/// log index, keyed by block.
fn run_backfill(
    store: &mut ModelStore,
    state: &mut State,
    logs: &[LogRecord],
    tip: u64,
    interval: u64,
) {
    let plan = chunk_plan(state.get_current_block_number(), tip, interval);
    for (from, to) in plan {
        let chunk: Vec<LogRecord> = logs
            .iter()
            .filter(|l| {
                let n = l.block_number.unwrap();
                from <= n && n <= to
            })
            .cloned()
            .collect();
        let events = gapfill_chunk(state, &chunk, block_at(to));
        store.apply(events);
    }
    if let Some(ev) = gapfill_final_checkpoint::<Transfer>(
        state,
        Some(block_at(state.get_current_block_number())),
    ) {
        store.apply(Events(vec![ev]));
    }
}

#[test]
fn next_chunk_bounds() {
    assert_eq!(next_chunk(11, 10, 5), None);
    assert_eq!(next_chunk(1, 10, 5), Some((1, 5)));
    assert_eq!(next_chunk(8, 10, 5), Some((8, 10)));
    assert_eq!(next_chunk(u64::MAX - 1, u64::MAX, 100), Some((u64::MAX - 1, u64::MAX)));
}

#[test]
fn plan_covers_the_range_in_interval_steps() {
    assert_eq!(chunk_plan(1, 5, 2), vec![(1, 2), (3, 4), (5, 5)]);
    assert_eq!(chunk_plan(10, 10, 100), vec![(10, 10)]);
    assert_eq!(chunk_plan(11, 10, 2), Vec::<(u64, u64)>::new());
}

#[test]
fn plan_with_interval_one_checkpoints_every_block() {
    assert_eq!(chunk_plan(3, 6, 1), vec![(3, 3), (4, 4), (5, 5), (6, 6)]);
}

#[test]
fn empty_chunk_still_advances_and_checkpoints() {
    let mut s = State::new(4);
    let inputs: Vec<LogRecord> = Vec::new();
    let events = gapfill_chunk::<LogRecord, Transfer>(&mut s, &inputs, block_at(6));
    assert_eq!(events.0.len(), 1);
    match &events.0[0] {
        Event::Checkpoint(b) => assert_eq!(b.number, 6),
        _ => panic!("expected the chunk checkpoint"),
    }
    assert_eq!(s.get_current_block_number(), 6);
    assert_eq!(s.get_checkpoint_counter(), 1);
    assert_eq!(s.block_counter, 0);
}

#[test]
fn chunk_with_items_persists_them_before_the_checkpoint() {
    let mut s = State::new(2);
    let inputs = vec![log_at(3, 1, 0)];
    let events = gapfill_chunk::<LogRecord, Transfer>(&mut s, &inputs, block_at(4));
    assert_eq!(events.0.len(), 2);
    match &events.0[0] {
        Event::Many(ts) => assert_eq!(ts[0].block_number, 3),
        _ => panic!("expected the elements first"),
    }
    assert!(matches!(events.0[1], Event::Checkpoint(_)));
}

#[test]
fn fresh_start_on_empty_range_writes_one_checkpoint_at_the_tip() {
    // from block 10, tip 10, no logs: no rows, exactly one checkpoint at 10
    let mut store = ModelStore::new();
    let mut state = State::new(10);
    run_backfill(&mut store, &mut state, &[], 10, 100);
    assert_eq!(store.transfers.len(), 0);
    assert_eq!(store.checkpoints.len(), 1);
    assert_eq!(store.checkpoints[0].0, 10);
}

#[test]
fn backfill_with_one_log_checkpoints_on_the_chunk_grid() {
    // tip 5, one transfer at block 3, interval 2, from block 1:
    // one row; checkpoints at 2, 4 and 5; the row persisted before the
    // checkpoint at 4
    let mut store = ModelStore::new();
    let mut state = State::new(1);
    let logs = vec![log_at(3, 9, 0)];
    run_backfill(&mut store, &mut state, &logs, 5, 2);

    assert_eq!(store.transfers.len(), 1);
    assert_eq!(store.transfers[0].block_number, 3);
    let numbers: Vec<i64> = store.checkpoints.iter().map(|(n, _)| *n).collect();
    assert_eq!(numbers, vec![2, 4, 5]);

    let row = store.writes.iter().position(|w| w == "transfer@3").unwrap();
    let ck4 = store.writes.iter().position(|w| w == "checkpoint@4").unwrap();
    assert!(row < ck4, "the row must land before its covering checkpoint");
}

#[test]
fn every_row_is_covered_by_a_checkpoint() {
    // progress: after a completed backfill, each persisted transfer has a
    // checkpoint at or above its block
    let mut store = ModelStore::new();
    let mut state = State::new(1);
    let logs = vec![log_at(3, 9, 0), log_at(7, 10, 1), log_at(9, 11, 0)];
    run_backfill(&mut store, &mut state, &logs, 9, 4);
    for t in &store.transfers {
        assert!(
            store.checkpoints.iter().any(|(n, _)| *n >= t.block_number),
            "a transfer is not covered"
        );
    }
}

#[test]
fn duplicate_ingestion_keeps_one_row_and_no_error() {
    // the same transfer log fed twice leaves one row
    let mut store = ModelStore::new();
    let mut state = State::new(1);
    let logs = vec![log_at(3, 9, 0), log_at(3, 9, 0)];
    run_backfill(&mut store, &mut state, &logs, 5, 2);
    assert_eq!(store.transfers.len(), 1);
}

#[test]
fn reingesting_after_clean_shutdown_adds_no_rows() {
    // run a backfill to completion, then run it again resuming from the last
    // persisted checkpoint: no new rows, no new checkpoints
    let mut store = ModelStore::new();
    let mut state = State::new(1);
    let logs = vec![log_at(3, 9, 0), log_at(5, 10, 0)];
    run_backfill(&mut store, &mut state, &logs, 5, 2);
    let rows_before = store.transfers.len();
    let checkpoints_before = store.checkpoints.len();

    let resume = store.checkpoints.last().unwrap().0 as u64;
    let mut state2 = State::new(resume);
    run_backfill(&mut store, &mut state2, &logs, 5, 2);
    assert_eq!(store.transfers.len(), rows_before);
    assert_eq!(store.checkpoints.len(), checkpoints_before);
}

#[test]
fn final_checkpoint_only_when_none_was_emitted() {
    let mut s = State::new(10);
    let ev = gapfill_final_checkpoint::<Transfer>(&mut s, Some(block_at(10)));
    assert!(matches!(ev, Some(Event::Checkpoint(_))));
    assert_eq!(s.get_checkpoint_counter(), 1);

    let ev = gapfill_final_checkpoint::<Transfer>(&mut s, Some(block_at(10)));
    assert!(ev.is_none());
    assert_eq!(s.get_checkpoint_counter(), 1);
}
