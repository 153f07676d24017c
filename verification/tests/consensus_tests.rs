use minichain::authority::{Approval, AuthorityConsensus, Proposal};
use minichain::block::Block;
use minichain::chain::Blockchain;
use minichain::crypto::ValidatorIdentity;
use minichain::error::MiniChainError;
use minichain::json::JsonValue;
use minichain::transaction::{Operation, Transaction};
use minichain::validator::{Permission, Validator, ValidatorRegistry};

fn identity(index: u8) -> ValidatorIdentity {
    ValidatorIdentity::from_secret_bytes(&format!("validator-{index}"), [100 + index; 32])
}

fn all_permissions() -> Vec<Permission> {
    vec![Permission::ProposeBlocks, Permission::ApproveBlocks, Permission::SubmitTransactions]
}

fn registry(count: u8) -> ValidatorRegistry {
    let mut registry = ValidatorRegistry::new();
    for index in 0..count {
        let id = identity(index);
        let validator =
            Validator::new(id.validator_id(), id.public_key().to_vec(), "local", all_permissions())
                .unwrap();
        registry.register(validator).unwrap();
    }
    registry
}

fn next_block(chain: &Blockchain, proposer: &ValidatorIdentity) -> Block {
    let transaction = Transaction::new(
        Operation::CreateRecord,
        "CERT-QUORUM",
        JsonValue::Bool(true),
        Vec::new(),
        proposer,
    );
    Block::new(1, &chain.tip().hash, vec![transaction], proposer.validator_id()).unwrap()
}

#[test]
fn validator_registry_authorizes_by_permission_and_activity() {
    let mut registry = registry(1);
    let id = identity(0);
    assert!(registry.authorize("validator-0", Permission::ApproveBlocks).is_ok());
    assert_eq!(
        registry.authorize("nobody", Permission::ApproveBlocks).unwrap_err(),
        MiniChainError::UnknownValidator { id: "nobody".to_owned() }
    );
    let duplicate =
        Validator::new("validator-0", id.public_key().to_vec(), "local", all_permissions()).unwrap();
    assert_eq!(
        registry.register(duplicate).unwrap_err(),
        MiniChainError::DuplicateValidator { id: "validator-0".to_owned() }
    );
    registry.set_active("validator-0", false).unwrap();
    assert_eq!(
        registry.authorize("validator-0", Permission::ApproveBlocks).unwrap_err(),
        MiniChainError::InactiveValidator { id: "validator-0".to_owned() }
    );
    assert_eq!(registry.active_approver_count(), 0);
}

#[test]
fn validator_without_permission_is_denied() {
    let mut registry = ValidatorRegistry::new();
    let id = identity(5);
    let validator = Validator::new(
        id.validator_id(),
        id.public_key().to_vec(),
        "local",
        vec![Permission::SubmitTransactions],
    )
    .unwrap();
    registry.register(validator).unwrap();
    assert_eq!(
        registry.authorize("validator-5", Permission::ProposeBlocks).unwrap_err(),
        MiniChainError::ValidatorPermissionDenied {
            id: "validator-5".to_owned(),
            permission: "propose_blocks".to_owned()
        }
    );
}

#[test]
fn invalid_public_key_is_refused() {
    assert_eq!(
        Validator::new("v", vec![1, 2, 3], "local", all_permissions()).unwrap_err(),
        MiniChainError::InvalidPublicKey
    );
}

#[test]
fn heartbeat_updates_height() {
    let mut registry = registry(1);
    let now = minichain::transaction::Timestamp { seconds: 1_700_000_000, nanos: 0 };
    registry.heartbeat("validator-0", 7, now).unwrap();
    let validator = registry.get("validator-0").unwrap();
    assert_eq!(validator.block_height, 7);
    assert_eq!(validator.last_heartbeat, Some(now));
    assert!(registry.heartbeat("ghost", 1, now).is_err());
}

#[test]
fn quorum_is_reached_with_two_thirds_of_approvers() {
    let registry = registry(4);
    let chain = Blockchain::new().unwrap();
    let proposer = identity(0);
    let block = next_block(&chain, &proposer);
    let hash = block.hash.clone();
    let mut consensus = AuthorityConsensus::new(1, &chain.tip().hash);
    consensus.register_proposal(&Proposal::new(block, &proposer), &registry).unwrap();
    consensus.approve(Approval::sign(&hash, &identity(0)), &registry).unwrap();
    consensus.approve(Approval::sign(&hash, &identity(1)), &registry).unwrap();
    assert_eq!(
        consensus.ensure_quorum(&hash, &registry).unwrap_err(),
        MiniChainError::InsufficientQuorum { required: 3, received: 2 }
    );
    assert_eq!(
        consensus.approve(Approval::sign(&hash, &identity(1)), &registry).unwrap_err(),
        MiniChainError::DuplicateApproval { id: "validator-1".to_owned() }
    );
    consensus.approve(Approval::sign(&hash, &identity(2)), &registry).unwrap();
    assert!(consensus.ensure_quorum(&hash, &registry).is_ok());
}

#[test]
fn proposal_checks_height_parent_and_signature() {
    let registry = registry(3);
    let chain = Blockchain::new().unwrap();
    let proposer = identity(0);
    let block = next_block(&chain, &proposer);
    let mut wrong_height = AuthorityConsensus::new(2, &chain.tip().hash);
    assert_eq!(
        wrong_height.register_proposal(&Proposal::new(block.clone(), &proposer), &registry).unwrap_err(),
        MiniChainError::InvalidBlockIndex { index: 1, expected: 2, actual: 1 }
    );
    let mut wrong_parent = AuthorityConsensus::new(1, &"0".repeat(64));
    assert_eq!(
        wrong_parent.register_proposal(&Proposal::new(block.clone(), &proposer), &registry).unwrap_err(),
        MiniChainError::InvalidPreviousHash { index: 1 }
    );
    let mut consensus = AuthorityConsensus::new(1, &chain.tip().hash);
    let mut forged = Proposal::new(block.clone(), &proposer);
    forged.proposer_signature = identity(1).sign(block.hash.as_bytes()).to_vec();
    assert_eq!(
        consensus.register_proposal(&forged, &registry).unwrap_err(),
        MiniChainError::InvalidSignature
    );
    let impostor = Proposal::new(block.clone(), &identity(1));
    assert_eq!(
        consensus.register_proposal(&impostor, &registry).unwrap_err(),
        MiniChainError::BlockValidatorMismatch {
            block_validator: "validator-0".to_owned(),
            proposer: "validator-1".to_owned()
        }
    );
    consensus.register_proposal(&Proposal::new(block.clone(), &proposer), &registry).unwrap();
    assert_eq!(
        consensus.register_proposal(&Proposal::new(block.clone(), &proposer), &registry).unwrap_err(),
        MiniChainError::DuplicateProposal { hash: block.hash.clone() }
    );
    let other = next_block(&chain, &proposer);
    assert_eq!(
        consensus.register_proposal(&Proposal::new(other, &proposer), &registry).unwrap_err(),
        MiniChainError::ConflictingProposal { height: 1 }
    );
}

#[test]
fn approvals_need_a_registered_proposal_and_eligibility() {
    let mut registry = registry(3);
    let chain = Blockchain::new().unwrap();
    let proposer = identity(0);
    let block = next_block(&chain, &proposer);
    let hash = block.hash.clone();
    let mut consensus = AuthorityConsensus::new(1, &chain.tip().hash);
    assert_eq!(
        consensus.approve(Approval::sign(&hash, &identity(0)), &registry).unwrap_err(),
        MiniChainError::ApprovalForWrongProposal
    );
    consensus.register_proposal(&Proposal::new(block, &proposer), &registry).unwrap();
    let late = identity(9);
    registry
        .register(
            Validator::new(late.validator_id(), late.public_key().to_vec(), "local", all_permissions())
                .unwrap(),
        )
        .unwrap();
    assert_eq!(
        consensus.approve(Approval::sign(&hash, &late), &registry).unwrap_err(),
        MiniChainError::ValidatorNotEligibleForProposal { id: "validator-9".to_owned() }
    );
    assert_eq!(
        consensus.approve(Approval::sign(&hash, &identity(7)), &registry).unwrap_err(),
        MiniChainError::UnknownValidator { id: "validator-7".to_owned() }
    );
    assert_eq!(
        consensus.ensure_quorum(&"e".repeat(64), &registry).unwrap_err(),
        MiniChainError::ApprovalForWrongProposal
    );
}

#[test]
fn no_active_approvers_means_no_proposal() {
    let mut registry = registry(1);
    registry.set_active("validator-0", false).unwrap();
    let chain = Blockchain::new().unwrap();
    let proposer = identity(0);
    let block = next_block(&chain, &proposer);
    let mut consensus = AuthorityConsensus::new(1, &chain.tip().hash);
    assert_eq!(
        consensus.register_proposal(&Proposal::new(block, &proposer), &registry).unwrap_err(),
        MiniChainError::InactiveValidator { id: "validator-0".to_owned() }
    );
}
