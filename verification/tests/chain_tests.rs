use minichain::block::{Block, create_genesis_block};
use minichain::chain::Blockchain;
use minichain::crypto::{ValidatorIdentity, decode_hex, verify_signature};
use minichain::error::MiniChainError;
use minichain::json::{JsonValue, entries_are_canonical, json_is_canonical, keys_in_order};
use minichain::merkle::{MerkleTree, empty_merkle_root, proves_inclusion};
use minichain::quorum::required_quorum;
use minichain::text::encode_hex;
use minichain::transaction::{Operation, Transaction};

fn identity() -> ValidatorIdentity {
    ValidatorIdentity::from_secret_bytes("validator-1", [41; 32])
}

fn course(value: &str) -> JsonValue {
    JsonValue::Object(vec![("course".to_owned(), JsonValue::String(value.to_owned()))])
}

fn record(id: &str) -> Transaction {
    Transaction::new(Operation::CreateRecord, id, course("MCA"), Vec::new(), &identity())
}

fn chain_with_one_block() -> Blockchain {
    let mut chain = Blockchain::new().unwrap();
    let tip = chain.tip().hash.clone();
    let block = Block::new(1, &tip, vec![record("CERT-1"), record("CERT-2")], "validator-1").unwrap();
    chain.append(block).unwrap();
    chain
}

#[test]
fn new_chain_holds_only_genesis() {
    let chain = Blockchain::new().unwrap();
    assert_eq!(chain.height(), 0);
    assert!(chain.tip().is_genesis());
    assert_eq!(chain.tip().hash, create_genesis_block().hash);
    let report = chain.validate();
    assert!(report.valid);
    assert_eq!(report.checked_blocks, 1);
}

#[test]
fn appended_block_keeps_chain_valid() {
    let chain = chain_with_one_block();
    assert_eq!(chain.height(), 1);
    assert!(chain.validate().valid);
    assert_eq!(chain.transaction_ids().len(), 2);
}

#[test]
fn block_with_wrong_index_is_refused() {
    let mut chain = Blockchain::new().unwrap();
    let tip = chain.tip().hash.clone();
    let block = Block::new(2, &tip, vec![record("CERT-1")], "validator-1").unwrap();
    assert_eq!(
        chain.append(block).unwrap_err(),
        MiniChainError::InvalidBlockIndex { index: 2, expected: 1, actual: 2 }
    );
    assert_eq!(chain.height(), 0);
}

#[test]
fn block_with_wrong_parent_is_refused() {
    let mut chain = Blockchain::new().unwrap();
    let block = Block::new(1, &"0".repeat(64), vec![record("CERT-1")], "validator-1").unwrap();
    assert_eq!(chain.append(block).unwrap_err(), MiniChainError::InvalidPreviousHash { index: 1 });
}

#[test]
fn duplicate_transaction_is_refused() {
    let mut chain = chain_with_one_block();
    let repeated = chain.blocks()[1].transactions[0].clone();
    let tip = chain.tip().hash.clone();
    let block = Block::new(2, &tip, vec![repeated.clone()], "validator-1").unwrap();
    assert_eq!(
        chain.append(block).unwrap_err(),
        MiniChainError::DuplicateTransaction { id: repeated.id }
    );
}

#[test]
fn tampered_payload_is_detected() {
    let chain = chain_with_one_block();
    let mut blocks = chain.copy_blocks();
    blocks[1].transactions[0].payload = course("tampered");
    assert!(Blockchain::from_blocks(blocks).is_err());
}

#[test]
fn tampered_block_hash_is_detected() {
    let chain = chain_with_one_block();
    let mut blocks = chain.copy_blocks();
    blocks[1].hash = "f".repeat(64);
    assert!(matches!(
        Blockchain::from_blocks(blocks),
        Err(MiniChainError::InvalidBlockHash { index: 1, .. })
    ));
}

#[test]
fn transaction_signature_and_hash_verify() {
    let transaction = record("CERT-9");
    assert!(transaction.validate().is_ok());
    assert_eq!(transaction.hash, transaction.calculate_hash());
    let mut altered = transaction.clone();
    altered.record_id = "CERT-10".to_owned();
    assert!(altered.validate().is_err());
}

#[test]
fn signatures_verify_only_for_their_message() {
    let identity = identity();
    let signature = identity.sign(b"message");
    assert!(verify_signature(&identity.public_key(), b"message", &signature).is_ok());
    assert_eq!(
        verify_signature(&identity.public_key(), b"other", &signature).unwrap_err(),
        MiniChainError::InvalidSignature
    );
    assert_eq!(
        verify_signature(&[1, 2, 3], b"message", &signature).unwrap_err(),
        MiniChainError::InvalidPublicKey
    );
}

#[test]
fn hex_round_trips() {
    let bytes = vec![0u8, 1, 171, 255];
    let text = encode_hex(&bytes);
    assert_eq!(text, "0001abff");
    assert_eq!(decode_hex(&text).unwrap(), bytes);
    assert_eq!(decode_hex("ABFF").unwrap(), vec![171, 255]);
    assert_eq!(decode_hex("abc").unwrap_err(), MiniChainError::InvalidHex);
    assert_eq!(decode_hex("zz").unwrap_err(), MiniChainError::InvalidHex);
}

#[test]
fn merkle_proofs_verify_for_every_leaf() {
    let hashes: Vec<String> =
        vec![record("A").hash, record("B").hash, record("C").hash];
    let tree = MerkleTree::from_hashes(&hashes).unwrap();
    let root = tree.root();
    for hash in &hashes {
        let proof = tree.inclusion_proof(hash).unwrap();
        assert!(proof.verify(&root));
        assert!(!proof.verify(&"0".repeat(64)));
        assert!(proves_inclusion(&hashes, hash, &root));
    }
    assert_eq!(
        tree.inclusion_proof(&"a".repeat(64)).unwrap_err(),
        MiniChainError::TransactionNotInMerkleTree
    );
}

#[test]
fn merkle_tree_needs_leaves_of_hex_digests() {
    assert_eq!(MerkleTree::from_hashes(&[]).unwrap_err(), MiniChainError::EmptyMerkleTree);
    assert_eq!(
        MerkleTree::from_hashes(&["not-hex".to_owned()]).unwrap_err(),
        MiniChainError::InvalidHex
    );
    assert_eq!(empty_merkle_root().len(), 64);
}

#[test]
fn merkle_root_ignores_leaf_order() {
    let a = record("A").hash;
    let b = record("B").hash;
    let one = MerkleTree::from_hashes(&[a.clone(), b.clone()]).unwrap().root();
    let two = MerkleTree::from_hashes(&[b, a]).unwrap().root();
    assert_eq!(one, two);
}

#[test]
fn quorum_is_more_than_two_thirds() {
    assert_eq!(required_quorum(0), 0);
    assert_eq!(required_quorum(1), 1);
    assert_eq!(required_quorum(3), 3);
    assert_eq!(required_quorum(4), 3);
    assert_eq!(required_quorum(6), 5);
    for n in 1..50usize {
        let q = required_quorum(n);
        assert!(3 * q > 2 * n);
        assert!(q <= n);
    }
}

#[test]
fn stored_secrets_must_be_32_bytes() {
    let identity =
        minichain::crypto::ValidatorIdentity::from_stored_secret("node-01", &[5u8; 32]).unwrap();
    assert_eq!(identity.secret_bytes(), [5u8; 32]);
    assert_eq!(identity.validator_id(), "node-01");
    assert_eq!(
        minichain::crypto::ValidatorIdentity::from_stored_secret("node-01", &[5u8; 31]).err(),
        Some(minichain::error::MiniChainError::IdentityKeyUnavailable)
    );
}

fn text(value: &str) -> JsonValue {
    JsonValue::String(value.to_owned())
}

#[test]
fn objects_in_key_order_are_canonical() {
    let sorted = vec![("course".to_owned(), text("MCA")), ("year".to_owned(), text("2024"))];
    let unsorted = vec![("year".to_owned(), text("2024")), ("course".to_owned(), text("MCA"))];
    let repeated = vec![("course".to_owned(), text("MCA")), ("course".to_owned(), text("BCA"))];
    assert!(keys_in_order(&sorted));
    assert!(!keys_in_order(&unsorted));
    assert!(!keys_in_order(&repeated));
    assert!(json_is_canonical(&JsonValue::Object(sorted.clone())));
    assert!(!json_is_canonical(&JsonValue::Array(vec![
        JsonValue::Null,
        JsonValue::Object(unsorted.clone())
    ])));
    let nested = vec![("inner".to_owned(), JsonValue::Object(unsorted.clone()))];
    assert!(keys_in_order(&nested));
    assert!(!entries_are_canonical(&nested));
    assert!(entries_are_canonical(&sorted));
    assert!(entries_are_canonical(&Vec::new()));
}

#[test]
fn transactions_with_unordered_objects_are_refused() {
    let unsorted = vec![("year".to_owned(), text("2024")), ("course".to_owned(), text("MCA"))];
    let sorted = vec![("course".to_owned(), text("MCA")), ("year".to_owned(), text("2024"))];
    let payload = Transaction::new(
        Operation::CreateRecord,
        "CERT-9",
        JsonValue::Object(unsorted.clone()),
        Vec::new(),
        &identity(),
    );
    assert_eq!(
        payload.validate(),
        Err(MiniChainError::InvalidTransactionField { field: "payload" })
    );
    let metadata =
        Transaction::new(Operation::CreateRecord, "CERT-9", JsonValue::Null, unsorted, &identity());
    assert_eq!(
        metadata.validate(),
        Err(MiniChainError::InvalidTransactionField { field: "metadata" })
    );
    let good = Transaction::new(
        Operation::CreateRecord,
        "CERT-9",
        JsonValue::Object(sorted.clone()),
        sorted,
        &identity(),
    );
    assert_eq!(good.validate(), Ok(()));
}
