use eth_indexer::log::LogRecord;
use eth_indexer::source::Outcome;
use eth_indexer::transfer::{transfer_batches, DecodeError, Transfer, ROWS_PER_BATCH};

fn full_log() -> LogRecord {
    LogRecord {
        block_number: Some(3),
        block_hash: Some(vec![0x01; 32]),
        transaction_hash: Some(vec![0x02; 32]),
        log_index: Some(4),
        address: vec![0xcc; 20],
        topics: vec![vec![0xaa; 32], vec![0x11; 32], vec![0x22; 32]],
        data: vec![0x2a],
    }
}

fn transfer_with_key(tx: u8, log_index: i64) -> Transfer {
    Transfer {
        block_number: 1,
        block_hash: vec![0x01; 32],
        transaction_hash: vec![tx; 32],
        log_index,
        contract_address: vec![0xcc; 20],
        from_address: vec![0x11; 32],
        to_address: vec![0x22; 32],
        amount: vec![1],
    }
}

#[test]
fn decoding_copies_every_field() {
    let t = Transfer::try_from_log(&full_log()).unwrap();
    assert_eq!(t.block_number, 3);
    assert_eq!(t.block_hash, vec![0x01; 32]);
    assert_eq!(t.transaction_hash, vec![0x02; 32]);
    assert_eq!(t.log_index, 4);
    assert_eq!(t.contract_address, vec![0xcc; 20]);
    assert_eq!(t.from_address, vec![0x11; 32]);
    assert_eq!(t.to_address, vec![0x22; 32]);
    assert_eq!(t.amount, vec![0x2a]);
    assert_eq!(t.block_number(), 3);
}

#[test]
fn decoding_reports_the_first_missing_field() {
    let mut l = full_log();
    l.block_number = None;
    assert_eq!(Transfer::try_from_log(&l).unwrap_err(), DecodeError::MissingBlockNumber);

    let mut l = full_log();
    l.block_hash = None;
    assert_eq!(Transfer::try_from_log(&l).unwrap_err(), DecodeError::MissingBlockHash);

    let mut l = full_log();
    l.transaction_hash = None;
    assert_eq!(Transfer::try_from_log(&l).unwrap_err(), DecodeError::MissingTransactionHash);

    let mut l = full_log();
    l.log_index = None;
    assert_eq!(Transfer::try_from_log(&l).unwrap_err(), DecodeError::MissingLogIndex);

    let mut l = full_log();
    l.topics = vec![vec![0xaa; 32]];
    assert_eq!(Transfer::try_from_log(&l).unwrap_err(), DecodeError::MissingFrom);

    let mut l = full_log();
    l.topics = vec![vec![0xaa; 32], vec![0x11; 32]];
    assert_eq!(Transfer::try_from_log(&l).unwrap_err(), DecodeError::MissingTo);
}

#[test]
fn the_key_follows_the_source_log() {
    // the canonical key carries over unchanged, so distinct source keys give
    // distinct rows
    let mut l1 = full_log();
    l1.log_index = Some(1);
    let mut l2 = full_log();
    l2.log_index = Some(2);
    let t1 = Transfer::try_from_log(&l1).unwrap();
    let t2 = Transfer::try_from_log(&l2).unwrap();
    assert_eq!(t1.transaction_hash, t2.transaction_hash);
    assert_ne!(t1.log_index, t2.log_index);

    let t1_again = Transfer::try_from_log(&l1).unwrap();
    assert_eq!(t1.transaction_hash, t1_again.transaction_hash);
    assert_eq!(t1.log_index, t1_again.log_index);
}

#[test]
fn batches_respect_the_variable_cap() {
    assert_eq!(ROWS_PER_BATCH, 124);
    let rows: Vec<Transfer> = (0..250u32)
        .map(|i| transfer_with_key((i % 200) as u8, i as i64))
        .collect();
    let batches = transfer_batches(rows);
    let sizes: Vec<usize> = batches.iter().map(|b| b.len()).collect();
    assert_eq!(sizes, vec![124, 124, 2]);
    // nothing reordered
    let mut k = 0i64;
    for batch in &batches {
        for t in batch {
            assert_eq!(t.log_index, k);
            k += 1;
        }
    }
}

#[test]
fn no_rows_make_no_batches() {
    let batches = transfer_batches(Vec::new());
    assert_eq!(batches.len(), 0);
}
