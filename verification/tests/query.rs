use eth_indexer::checkpoint::Checkpoint;
use eth_indexer::query::{
    resolve_query_block, CheckpointResponse, Entity, FromBlock, Query, QueryError,
    TransferResponse,
};
use eth_indexer::transfer::Transfer;

#[test]
fn from_str_accepts_last_in_any_case() {
    assert!(matches!(FromBlock::from_str("last"), Ok(FromBlock::Last)));
    assert!(matches!(FromBlock::from_str("LAST"), Ok(FromBlock::Last)));
    assert!(matches!(FromBlock::from_str("LaSt"), Ok(FromBlock::Last)));
}

#[test]
fn from_str_accepts_decimal_numbers() {
    assert!(matches!(FromBlock::from_str("0"), Ok(FromBlock::Number(0))));
    assert!(matches!(FromBlock::from_str("123"), Ok(FromBlock::Number(123))));
    assert!(matches!(
        FromBlock::from_str("18446744073709551615"),
        Ok(FromBlock::Number(u64::MAX))
    ));
}

#[test]
fn from_str_rejects_everything_else() {
    let err = FromBlock::from_str("abc").unwrap_err();
    assert_eq!(err, "`abc` is not a valid block number or `last`");
    assert!(FromBlock::from_str("").is_err());
    assert!(FromBlock::from_str("12x").is_err());
    assert!(FromBlock::from_str("lasts").is_err());
    // one past the largest block number that fits
    assert!(FromBlock::from_str("18446744073709551616").is_err());
}

#[test]
fn query_start_block_resolves() {
    assert_eq!(resolve_query_block(&FromBlock::Number(9), None), Ok(9));
    assert_eq!(resolve_query_block(&FromBlock::Last, Some(70)), Ok(70));
    assert_eq!(
        resolve_query_block(&FromBlock::Last, None),
        Err(QueryError::LastCheckpointNotFound)
    );
}

#[test]
fn query_carries_its_parts() {
    let q = Query { db_url: String::from("sqlite::memory:"), entity: Entity::Checkpoint, from_block: FromBlock::Last };
    assert!(matches!(q.entity, Entity::Checkpoint));
    assert!(matches!(q.from_block, FromBlock::Last));
    assert_eq!(q.db_url, "sqlite::memory:");
}

#[test]
fn checkpoint_response_renders_hashes() {
    let c = Checkpoint {
        block_number: 12345,
        block_hash: vec![0xab; 32],
        parent_hash: vec![0xba; 32],
    };
    let r = CheckpointResponse::from_checkpoint(&c);
    assert_eq!(r.block_number, 12345);
    assert_eq!(
        r.block_hash,
        "0xabababababababababababababababababababababababababababababababab"
    );
    assert_eq!(
        r.parent_hash,
        "0xbabababababababababababababababababababababababababababababababa"
    );
}

#[test]
fn transfer_response_renders_all_columns() {
    let mut from_address = vec![0u8; 12];
    from_address.extend_from_slice(&[
        0xd8, 0xda, 0x6b, 0xf2, 0x69, 0x64, 0xaf, 0x9d, 0x7e, 0xed, 0x9e, 0x03, 0xe5, 0x34, 0x15,
        0xd3, 0x7a, 0xa9, 0x60, 0x45,
    ]);
    let t = Transfer {
        block_number: 3,
        block_hash: vec![0x01; 32],
        transaction_hash: vec![0x02; 32],
        log_index: 4,
        contract_address: vec![0x00; 20],
        from_address: from_address.clone(),
        to_address: from_address,
        amount: vec![0x01, 0x00],
    };
    let r = TransferResponse::from_transfer(&t);
    assert_eq!(r.block_number, 3);
    assert_eq!(r.log_index, 4);
    assert_eq!(
        r.block_hash,
        "0x0101010101010101010101010101010101010101010101010101010101010101"
    );
    assert_eq!(r.contract_address, "0x0000000000000000000000000000000000000000");
    assert_eq!(r.from_address, "0xd8dA6BF26964aF9D7eEd9e03E53415D37aA96045");
    assert_eq!(r.to_address, "0xd8dA6BF26964aF9D7eEd9e03E53415D37aA96045");
    assert_eq!(r.amount, "256");
}
