use eth_indexer::args::{resolve_from_block, Args, ArgsError, CliEventType};
use eth_indexer::block::Block;
use eth_indexer::engine::channel_size;
use eth_indexer::event::Event;
use eth_indexer::log::LogRecord;
use eth_indexer::publisher::ProducerState;
use eth_indexer::source::EventType;
use eth_indexer::transfer::Transfer;

fn valid_args() -> Result<Args, ArgsError> {
    Args::new(vec![vec![0xcc; 20]], EventType::Transfer, None, 100, None, 500)
}

#[test]
fn channel_size_follows_the_sizing_formula() {
    // max(finality = 12, interval) * 50 events per block * burst 2
    assert_eq!(channel_size(100), 10000);
    assert_eq!(channel_size(1), 1200);
    assert_eq!(channel_size(12), 1200);
    assert_eq!(channel_size(13), 1300);
}

#[test]
fn args_accept_the_defaults() {
    let a = valid_args().unwrap();
    assert_eq!(a.checkpoint_interval, 100);
    assert_eq!(a.poll_interval_ms, 500);
    assert_eq!(a.backfill_interval(), 100);
}

#[test]
fn backfill_interval_prefers_its_own_setting() {
    let a = Args::new(vec![vec![0xcc; 20]], EventType::Transfer, None, 100, Some(7), 500).unwrap();
    assert_eq!(a.backfill_interval(), 7);
}

#[test]
fn args_reject_each_invalid_setting() {
    let e = Args::new(Vec::new(), EventType::Transfer, None, 100, None, 500).unwrap_err();
    assert_eq!(e, ArgsError::NoAddresses);
    let e = Args::new(vec![vec![0xcc; 20]], EventType::Transfer, None, 0, None, 500).unwrap_err();
    assert_eq!(e, ArgsError::ZeroCheckpointInterval);
    let e =
        Args::new(vec![vec![0xcc; 20]], EventType::Transfer, None, 100, Some(0), 500).unwrap_err();
    assert_eq!(e, ArgsError::ZeroBackfillCheckpointInterval);
    let e = Args::new(vec![vec![0xcc; 20]], EventType::Transfer, None, 100, None, 0).unwrap_err();
    assert_eq!(e, ArgsError::ZeroPollInterval);
}

#[test]
fn from_block_zero_means_resume_or_tip() {
    assert_eq!(resolve_from_block(0), None);
    assert_eq!(resolve_from_block(5), Some(5));
}

#[test]
fn event_type_maps_to_its_signature() {
    assert_eq!(EventType::Transfer.as_str(), "Transfer(address,address,uint256)");
}

#[test]
fn cli_event_type_maps_to_the_engine_filter() {
    assert!(matches!(CliEventType::Transfer.as_event_type(), EventType::Transfer));
}

fn log_at(block_number: u64) -> LogRecord {
    LogRecord {
        block_number: Some(block_number),
        block_hash: Some(vec![0x01; 32]),
        transaction_hash: Some(vec![0x02; 32]),
        log_index: Some(0),
        address: vec![0xcc; 20],
        topics: vec![vec![0xaa; 32], vec![0x11; 32], vec![0x22; 32]],
        data: vec![0x2a],
    }
}

#[test]
fn pending_items_are_dropped_at_the_source_boundary() {
    let mut pending = log_at(52);
    pending.block_number = None;
    let items = vec![log_at(51), pending, log_at(53)];
    let kept = eth_indexer::source::filter_confirmed(items);
    assert_eq!(kept.len(), 2);
    assert_eq!(kept[0].block_number, Some(51));
    assert_eq!(kept[1].block_number, Some(53));
}

#[test]
fn producer_counts_and_remembers_the_next_checkpoint() {
    let mut p = ProducerState::new(50);
    assert_eq!(p.checkpoint_decision(3), (false, 50));

    let ev: Event<Transfer> = p.on_input(&log_at(51));
    assert!(matches!(ev, Event::Element(_)));
    assert_eq!(p.event_counter, 1);
    assert_eq!(p.next_checkpoint_block_number, 51);

    // a pending item is skipped but still counted
    let mut pending = log_at(52);
    pending.block_number = None;
    let ev: Event<Transfer> = p.on_input(&pending);
    assert!(matches!(ev, Event::Skip));
    assert_eq!(p.event_counter, 2);
    assert_eq!(p.next_checkpoint_block_number, 51);

    // an undecodable item is skipped but still counted
    let mut broken = log_at(53);
    broken.topics = vec![vec![0xaa; 32]];
    let ev: Event<Transfer> = p.on_input(&broken);
    assert!(matches!(ev, Event::Skip));
    assert_eq!(p.event_counter, 3);
    assert_eq!(p.next_checkpoint_block_number, 51);

    assert_eq!(p.checkpoint_decision(3), (true, 51));

    let b = Block::new(51, vec![0xab; 32], vec![0xba; 32]);
    let ev: Event<Transfer> = p.on_checkpoint_block(b);
    match ev {
        Event::Checkpoint(bl) => assert_eq!(bl.number, 51),
        _ => panic!("expected the checkpoint event"),
    }
    assert_eq!(p.event_counter, 0);
    assert_eq!(p.checkpoint_decision(3), (false, 51));
}
