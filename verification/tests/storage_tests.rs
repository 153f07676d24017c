use minichain::block::Block;
use minichain::chain::Blockchain;
use minichain::crypto::ValidatorIdentity;
use minichain::error::MiniChainError;
use minichain::json::JsonValue;
use minichain::storage::{
    ChainMetadata, RecordIndex, RecordStatus, RecordTable, Snapshot, SnapshotPayload,
    check_record_index, check_restore, check_transaction_index, needs_genesis, payload_digest,
    StoredTransaction, history_of, plan_commit, snapshots_in_order, record_models, record_updates_for_block, sort_stored,
    transaction_models, verify_record_in,
};
use minichain::transaction::{Operation, Timestamp, Transaction};

fn identity() -> ValidatorIdentity {
    ValidatorIdentity::from_secret_bytes("validator-1", [41; 32])
}

fn course(value: &str) -> JsonValue {
    JsonValue::Object(vec![("course".to_owned(), JsonValue::String(value.to_owned()))])
}

fn transaction(operation: Operation, id: &str, value: &str) -> Transaction {
    Transaction::new(operation, id, course(value), Vec::new(), &identity())
}

fn populated_chain() -> (Blockchain, Transaction) {
    let mut chain = Blockchain::new().unwrap();
    let created = transaction(Operation::CreateRecord, "CERT-CORRUPT", "MCA");
    let tip = chain.tip().hash.clone();
    chain.append(Block::new(1, &tip, vec![created.clone()], "validator-1").unwrap()).unwrap();
    (chain, created)
}

fn metadata(chain: &Blockchain) -> ChainMetadata {
    ChainMetadata::for_chain(chain, 7, "corruption-test")
}

#[test]
fn metadata_mismatch_fails_recovery() {
    let (chain, _) = populated_chain();
    let mut stored = metadata(&chain);
    stored.latest_block_hash = "f".repeat(64);
    assert_eq!(stored.chain_from(chain.copy_blocks()).unwrap_err(), MiniChainError::MetadataMismatch);
    let good = metadata(&chain);
    assert_eq!(good.chain_from(chain.copy_blocks()).unwrap().height(), 1);
    assert!(good.check(7, "corruption-test").is_ok());
    assert_eq!(good.check(8, "corruption-test").unwrap_err(), MiniChainError::MetadataMismatch);
    assert_eq!(good.check(7, "other").unwrap_err(), MiniChainError::MetadataMismatch);
}

#[test]
fn corrupted_block_fails_recovery() {
    let (chain, _) = populated_chain();
    let mut blocks = chain.copy_blocks();
    blocks[1].transactions[0].payload = course("altered");
    assert!(matches!(
        metadata(&chain).chain_from(blocks),
        Err(MiniChainError::StorageCorruption { .. })
    ));
}

#[test]
fn broken_derived_index_is_detected_and_can_be_rebuilt() {
    let (chain, _) = populated_chain();
    let expected = transaction_models(&chain);
    assert_eq!(expected.len(), 1);
    let found: Vec<_> = vec![None];
    assert_eq!(
        check_transaction_index(&expected, 0, &found).unwrap_err(),
        MiniChainError::IndexCorrupted { index: "transactions" }
    );
    let rebuilt = transaction_models(&chain);
    let found: Vec<_> = rebuilt.iter().map(|stored| Some(stored.clone())).collect();
    assert!(check_transaction_index(&expected, 1, &found).is_ok());
    assert_eq!(chain.height(), 1);
}

fn payload_for(chain: &Blockchain, chain_id: u128) -> SnapshotPayload {
    SnapshotPayload {
        version: 1,
        chain_id,
        height: chain.height(),
        latest_block_hash: chain.tip().hash.clone(),
        genesis_hash: chain.blocks()[0].hash.clone(),
        created_at: Timestamp { seconds: 1_700_000_000, nanos: 0 },
        blocks: chain.copy_blocks(),
    }
}

#[test]
fn modified_and_incompatible_snapshots_are_rejected() {
    let (chain, _) = populated_chain();
    let stored = metadata(&chain);
    let payload_bytes = b"serialized payload".to_vec();
    let snapshot = Snapshot::new(payload_for(&chain, 7), &payload_bytes);
    assert!(snapshot.verify_integrity(&payload_bytes));
    assert!(snapshot.check(&payload_bytes, &stored).is_ok());

    let mut modified = Snapshot::new(payload_for(&chain, 7), &payload_bytes);
    modified.id = snapshot.id;
    modified.integrity_hash = "0".repeat(64);
    assert_eq!(
        modified.check(&payload_bytes, &stored).unwrap_err(),
        MiniChainError::SnapshotInvalid { id: snapshot.id }
    );

    let incompatible_bytes = b"another payload".to_vec();
    let mut incompatible = Snapshot::new(payload_for(&chain, 99), &incompatible_bytes);
    incompatible.id = snapshot.id;
    assert_eq!(
        incompatible.check(&incompatible_bytes, &stored).unwrap_err(),
        MiniChainError::SnapshotIncompatible
    );
}

#[test]
fn snapshot_integrity_is_the_payload_digest() {
    let digest = payload_digest(b"abc");
    assert_eq!(digest, "ba7816bf8f01cfea414140de5dae2223b00361a396177a9cb410ff61f20015ad");
}

#[test]
fn record_index_follows_create_update_and_revoke() {
    let mut chain = Blockchain::new().unwrap();
    let created = transaction(Operation::CreateRecord, "CERT-1", "first");
    let tip = chain.tip().hash.clone();
    chain.append(Block::new(1, &tip, vec![created.clone()], "validator-1").unwrap()).unwrap();
    let updated = transaction(Operation::UpdateRecord, "CERT-1", "second");
    let revoked = transaction(Operation::RevokeRecord, "CERT-1", "reason");
    let audit = transaction(Operation::AuditEvent, "CERT-1", "ignored");
    let stray = transaction(Operation::RevokeRecord, "CERT-NONE", "reason");
    let tip = chain.tip().hash.clone();
    chain
        .append(
            Block::new(2, &tip, vec![updated.clone(), revoked.clone(), audit, stray], "validator-1")
                .unwrap(),
        )
        .unwrap();
    let table = record_models(&chain);
    let record = table.get("CERT-1").unwrap();
    assert_eq!(record.status, RecordStatus::Revoked);
    assert_eq!(record.latest_transaction_id, revoked.id);
    assert_eq!(record.block_height, 2);
    assert!(table.get("CERT-NONE").is_none());
    assert_eq!(table.records().len(), 1);

    let verification = verify_record_in(&chain, "CERT-1", record.clone()).unwrap();
    assert!(verification.merkle_proof_valid);
    assert!(verification.cryptographically_verified);
    assert!(verification.chain_valid);
    assert_eq!(verification.latest_transaction.transaction.id, revoked.id);
    assert_eq!(verification.latest_transaction.block_height, 2);
    assert_eq!(verification.latest_transaction.transaction_index, 1);

    let mut stale = record.clone();
    stale.status = RecordStatus::Active;
    assert_eq!(
        verify_record_in(&chain, "CERT-1", stale).unwrap_err(),
        MiniChainError::IndexCorrupted { index: "records" }
    );
    assert_eq!(
        verify_record_in(&chain, "CERT-NONE", record.clone()).unwrap_err(),
        MiniChainError::RecordNotFound { id: "CERT-NONE".to_owned() }
    );
}

#[test]
fn committing_block_by_block_matches_rebuilding() {
    let (mut chain, created) = populated_chain();
    let stored = record_models(&chain);
    let revoke = transaction(Operation::RevokeRecord, "CERT-CORRUPT", "reason");
    let fresh = transaction(Operation::CreateRecord, "CERT-NEW", "MBA");
    let tip = chain.tip().clone();
    let block = Block::new(2, &tip.hash, vec![revoke.clone(), fresh], "validator-1").unwrap();
    let meta = metadata(&chain);
    let plan = plan_commit(&meta, &tip, &block, &Vec::new(), &stored).unwrap();
    assert_eq!(plan.transactions.len(), 2);
    assert_eq!(plan.metadata.current_height, 2);
    assert_eq!(plan.metadata.latest_block_hash, block.hash);
    let updates = record_updates_for_block(&block, &stored);
    assert_eq!(updates.records().len(), 2);

    let mut merged = RecordTable::new();
    for record in stored.records() {
        merged.put(record.clone());
    }
    for record in plan.records.records() {
        merged.put(record.clone());
    }
    chain.append(block.clone()).unwrap();
    let rebuilt = record_models(&chain);
    let expected: Vec<Option<RecordIndex>> =
        rebuilt.records().iter().map(|record| merged.get(&record.record_id).cloned()).collect();
    assert!(check_record_index(&rebuilt, merged.records().len() as u64, &expected).is_ok());

    let duplicate = Block::new(3, &block.hash, vec![created.clone()], "validator-1").unwrap();
    assert_eq!(
        plan_commit(&meta, &block, &duplicate, &vec![created.id], &rebuilt).unwrap_err(),
        MiniChainError::DuplicateTransaction { id: created.id }
    );
}

#[test]
fn restore_and_initialization_rules() {
    assert!(check_restore(0, false).is_ok());
    assert!(check_restore(5, true).is_ok());
    assert_eq!(check_restore(5, false).unwrap_err(), MiniChainError::RestoreWouldOverwrite);
    assert_eq!(needs_genesis(true, true).unwrap(), true);
    assert_eq!(needs_genesis(false, false).unwrap(), false);
    assert_eq!(
        needs_genesis(true, false).unwrap_err(),
        MiniChainError::StorageCorruption { reason: "metadata is missing".to_owned() }
    );
}

#[test]
fn block_counts_must_match_height() {
    let (chain, _) = populated_chain();
    let meta = metadata(&chain);
    assert!(meta.check_block_counts(2, 2).is_ok());
    assert_eq!(
        meta.check_block_counts(1, 2).unwrap_err(),
        MiniChainError::IndexCorrupted { index: "blocks" }
    );
}

fn stored(record: &str, height: u64, position: usize) -> StoredTransaction {
    StoredTransaction {
        transaction: transaction(Operation::CreateRecord, record, "MCA"),
        block_height: height,
        block_hash: format!("hash-{height}"),
        transaction_index: position,
    }
}

#[test]
fn stored_transactions_sort_into_chain_order_and_filter_by_record() {
    let items = vec![stored("A", 2, 0), stored("B", 1, 1), stored("A", 1, 1), stored("C", 1, 0)];
    let sorted = sort_stored(items);
    let order: Vec<(u64, usize)> =
        sorted.iter().map(|s| (s.block_height, s.transaction_index)).collect();
    assert_eq!(order.len(), 4);
    assert_eq!(order[0], (1, 0));
    assert_eq!(order[3], (2, 0));
    assert!(order.windows(2).all(|pair| pair[0] <= pair[1]));
    let history = history_of(&sorted, "A");
    assert_eq!(history.len(), 2);
    assert!(history.iter().all(|s| s.transaction.record_id == "A"));
    assert_eq!(history[1].block_height, 2);
    assert!(history_of(&sorted, "missing").is_empty());
}

#[test]
fn snapshots_are_listed_in_creation_order() {
    let (chain, _) = populated_chain();
    let made_at = |seconds: i64, nanos: u32| {
        let mut payload = payload_for(&chain, 7);
        payload.created_at = Timestamp { seconds, nanos };
        Snapshot::new(payload, b"bytes")
    };
    let sorted = snapshots_in_order(vec![made_at(20, 0), made_at(10, 5), made_at(10, 1)]);
    let order: Vec<(i64, u32)> = sorted
        .iter()
        .map(|s| (s.payload.created_at.seconds, s.payload.created_at.nanos))
        .collect();
    assert_eq!(order, vec![(10, 1), (10, 5), (20, 0)]);

    let mut first = made_at(30, 0);
    first.id = 1;
    let mut second = made_at(30, 0);
    second.id = 2;
    let mut third = made_at(30, 0);
    third.id = 3;
    let ids: Vec<u128> = snapshots_in_order(vec![first, made_at(5, 0), second, third])
        .iter()
        .map(|s| s.id)
        .collect();
    assert_eq!(&ids[1..], &[1, 2, 3]);
}

#[test]
fn snapshot_of_a_chain_checks_against_its_metadata() {
    let (chain, _) = populated_chain();
    let stored = metadata(&chain);
    let made = Timestamp { seconds: 1_700_000_100, nanos: 7 };
    let payload = SnapshotPayload::of_chain(&chain, &stored, made);
    assert_eq!(payload.height, 1);
    assert_eq!(payload.latest_block_hash, chain.tip().hash);
    assert_eq!(payload.genesis_hash, chain.blocks()[0].hash);
    assert_eq!(payload.blocks.len(), 2);
    assert_eq!(payload.created_at, made);
    let bytes = b"serialized".to_vec();
    let snapshot = Snapshot::new(payload, &bytes);
    assert!(snapshot.check(&bytes, &stored).is_ok());
}
