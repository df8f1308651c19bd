use eth_indexer::block::Block;
use eth_indexer::event::{batch_events, Event, Events};
use eth_indexer::subscriber::{consume_event_outcome, SinkAction};
use eth_indexer::transfer::Transfer;

fn transfer_at(block_number: i64, tx: u8) -> Transfer {
    Transfer {
        block_number,
        block_hash: vec![0xbb; 32],
        transaction_hash: vec![tx; 32],
        log_index: 0,
        contract_address: vec![0xcc; 20],
        from_address: vec![0x11; 32],
        to_address: vec![0x22; 32],
        amount: vec![1],
    }
}

fn block_at(number: u64) -> Block {
    Block::new(number, vec![0xab; 32], vec![0xba; 32])
}

#[test]
fn batching_discards_skips_and_coalesces_elements() {
    let input = Events(vec![
        Event::Skip,
        Event::Element(transfer_at(5, 1)),
        Event::Element(transfer_at(5, 2)),
        Event::Checkpoint(block_at(5)),
        Event::Skip,
        Event::Element(transfer_at(6, 3)),
    ]);
    let out = batch_events(input);
    assert_eq!(out.0.len(), 3);
    match &out.0[0] {
        Event::Many(ts) => {
            assert_eq!(ts.len(), 2);
            assert_eq!(ts[0].transaction_hash[0], 1);
            assert_eq!(ts[1].transaction_hash[0], 2);
        },
        _ => panic!("expected a coalesced batch first"),
    }
    assert!(matches!(out.0[1], Event::Checkpoint(_)));
    match &out.0[2] {
        Event::Many(ts) => assert_eq!(ts.len(), 1),
        _ => panic!("expected the trailing batch"),
    }
}

#[test]
fn batching_keeps_checkpoint_order_and_separates_batches() {
    let input = Events(vec![
        Event::Checkpoint(block_at(1)),
        Event::Element(transfer_at(2, 1)),
        Event::Checkpoint(block_at(2)),
        Event::Checkpoint(block_at(3)),
    ]);
    let out = batch_events(input);
    let mut checkpoints = Vec::new();
    for (i, ev) in out.0.iter().enumerate() {
        if let Event::Many(_) = ev {
            if i + 1 < out.0.len() {
                assert!(
                    !matches!(out.0[i + 1], Event::Many(_)),
                    "no two element batches may be adjacent"
                );
            }
        }
        if let Event::Checkpoint(b) = ev {
            checkpoints.push(b.number);
        }
    }
    assert_eq!(checkpoints, vec![1, 2, 3]);
}

#[test]
fn batching_empty_input_yields_nothing() {
    let out = batch_events(batch_input_empty());
    assert_eq!(out.0.len(), 0);
}

fn batch_input_empty() -> Events<Transfer> {
    Events(Vec::new())
}

#[test]
fn consume_skip_does_nothing() {
    let action = consume_event_outcome::<Transfer>(Event::Skip);
    assert!(matches!(action, SinkAction::Nothing));
}

#[test]
fn consume_checkpoint_builds_the_store_row() {
    let action = consume_event_outcome::<Transfer>(Event::Checkpoint(block_at(9)));
    match action {
        SinkAction::SaveCheckpoint(c) => {
            assert_eq!(c.block_number, 9);
            assert_eq!(c.block_hash, vec![0xab; 32]);
            assert_eq!(c.parent_hash, vec![0xba; 32]);
        },
        _ => panic!("expected a checkpoint save"),
    }
}

#[test]
fn consume_element_processes_one() {
    let action = consume_event_outcome(Event::Element(transfer_at(4, 7)));
    match action {
        SinkAction::ProcessOne(t) => assert_eq!(t.block_number, 4),
        _ => panic!("expected a single-row insert"),
    }
}

#[test]
fn consume_empty_many_does_nothing() {
    let action = consume_event_outcome::<Transfer>(Event::Many(Vec::new()));
    assert!(matches!(action, SinkAction::Nothing));
}

#[test]
fn consume_singleton_many_processes_one() {
    let action = consume_event_outcome(Event::Many(vec![transfer_at(4, 7)]));
    match action {
        SinkAction::ProcessOne(t) => assert_eq!(t.transaction_hash[0], 7),
        _ => panic!("expected a single-row insert"),
    }
}

#[test]
fn consume_larger_many_processes_batch() {
    let action = consume_event_outcome(Event::Many(vec![transfer_at(4, 7), transfer_at(4, 8)]));
    match action {
        SinkAction::ProcessBatch(ts) => assert_eq!(ts.len(), 2),
        _ => panic!("expected a batch insert"),
    }
}
