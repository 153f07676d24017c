//! The errors of the library and their messages.
use vstd::prelude::*;

use crate::text::{decimal_text, id_text, push_decimal, push_id, push_str};

verus! {

/// Every way an operation of the library can fail.
#[allow(inconsistent_fields)]
#[derive(Clone, Debug, PartialEq, Eq)]
pub enum MiniChainError {
    InvalidBlockHash { index: u64, expected: String, calculated: String },
    InvalidBlockIndex { index: u64, expected: u64, actual: u64 },
    InvalidPreviousHash { index: u64 },
    UnsupportedBlockVersion { index: u64, version: u16 },
    EmptyChain,
    InvalidGenesis,
    InvalidTransactionHash { id: u128 },
    MissingTransactionSignature { id: u128 },
    InvalidSignature,
    InvalidPublicKey,
    InvalidHex,
    InvalidMerkleRoot { index: u64 },
    DuplicateTransaction { id: u128 },
    EmptyMerkleTree,
    TransactionNotInMerkleTree,
    BlockTimestampBeforeParent { index: u64 },
    DuplicateValidator { id: String },
    UnknownValidator { id: String },
    InactiveValidator { id: String },
    ValidatorPermissionDenied { id: String, permission: String },
    DuplicateApproval { id: String },
    InsufficientQuorum { required: usize, received: usize },
    ConflictingProposal { height: u64 },
    ApprovalForWrongProposal,
    DuplicateMempoolTransaction { id: u128 },
    MempoolFull { capacity: usize },
    ExpiredTransaction { id: u128 },
    EmptyBlock { index: u64 },
    BlockValidatorMismatch { block_validator: String, proposer: String },
    DuplicateProposal { hash: String },
    TransactionPayloadTooLarge { limit: usize },
    TransactionMetadataTooLarge,
    InvalidTransactionField { field: &'static str },
    NoActiveApprovers,
    ValidatorNotEligibleForProposal { id: String },
    StorageUnavailable,
    StorageCorruption { reason: String },
    BlockNotFound { height: u64 },
    BlockHashNotFound { hash: String },
    TransactionNotFound { id: u128 },
    RecordNotFound { id: String },
    MetadataMismatch,
    SnapshotInvalid { id: u128 },
    SnapshotIncompatible,
    RestoreWouldOverwrite,
    IndexCorrupted { index: &'static str },
    PeerUnavailable { peer: String },
    HandshakeFailed,
    InvalidPeerIdentity { peer: String },
    ProtocolMismatch { version: u16 },
    InvalidMessage,
    MessageTooLarge { limit: usize },
    SyncFailed,
    DivergenceDetected { height: u64 },
    NetworkTimeout,
    InvalidConfiguration,
    IdentityKeyUnavailable,
}

/// The value of an error: texts become character sequences.
#[allow(inconsistent_fields)]
pub enum ErrorSpec {
    InvalidBlockHash { index: u64, expected: Seq<char>, calculated: Seq<char> },
    InvalidBlockIndex { index: u64, expected: u64, actual: u64 },
    InvalidPreviousHash { index: u64 },
    UnsupportedBlockVersion { index: u64, version: u16 },
    EmptyChain,
    InvalidGenesis,
    InvalidTransactionHash { id: u128 },
    MissingTransactionSignature { id: u128 },
    InvalidSignature,
    InvalidPublicKey,
    InvalidHex,
    InvalidMerkleRoot { index: u64 },
    DuplicateTransaction { id: u128 },
    EmptyMerkleTree,
    TransactionNotInMerkleTree,
    BlockTimestampBeforeParent { index: u64 },
    DuplicateValidator { id: Seq<char> },
    UnknownValidator { id: Seq<char> },
    InactiveValidator { id: Seq<char> },
    ValidatorPermissionDenied { id: Seq<char>, permission: Seq<char> },
    DuplicateApproval { id: Seq<char> },
    InsufficientQuorum { required: usize, received: usize },
    ConflictingProposal { height: u64 },
    ApprovalForWrongProposal,
    DuplicateMempoolTransaction { id: u128 },
    MempoolFull { capacity: usize },
    ExpiredTransaction { id: u128 },
    EmptyBlock { index: u64 },
    BlockValidatorMismatch { block_validator: Seq<char>, proposer: Seq<char> },
    DuplicateProposal { hash: Seq<char> },
    TransactionPayloadTooLarge { limit: usize },
    TransactionMetadataTooLarge,
    InvalidTransactionField { field: Seq<char> },
    NoActiveApprovers,
    ValidatorNotEligibleForProposal { id: Seq<char> },
    StorageUnavailable,
    StorageCorruption { reason: Seq<char> },
    BlockNotFound { height: u64 },
    BlockHashNotFound { hash: Seq<char> },
    TransactionNotFound { id: u128 },
    RecordNotFound { id: Seq<char> },
    MetadataMismatch,
    SnapshotInvalid { id: u128 },
    SnapshotIncompatible,
    RestoreWouldOverwrite,
    IndexCorrupted { index: Seq<char> },
    PeerUnavailable { peer: Seq<char> },
    HandshakeFailed,
    InvalidPeerIdentity { peer: Seq<char> },
    ProtocolMismatch { version: u16 },
    InvalidMessage,
    MessageTooLarge { limit: usize },
    SyncFailed,
    DivergenceDetected { height: u64 },
    NetworkTimeout,
    InvalidConfiguration,
    IdentityKeyUnavailable,
}

impl View for MiniChainError {
    type V = ErrorSpec;

    open spec fn view(&self) -> ErrorSpec {
        match *self {
            MiniChainError::InvalidBlockHash { index, expected, calculated } => ErrorSpec::InvalidBlockHash { index, expected: expected@, calculated: calculated@ },
            MiniChainError::InvalidBlockIndex { index, expected, actual } => ErrorSpec::InvalidBlockIndex { index, expected, actual },
            MiniChainError::InvalidPreviousHash { index } => ErrorSpec::InvalidPreviousHash { index },
            MiniChainError::UnsupportedBlockVersion { index, version } => ErrorSpec::UnsupportedBlockVersion { index, version },
            MiniChainError::EmptyChain => ErrorSpec::EmptyChain,
            MiniChainError::InvalidGenesis => ErrorSpec::InvalidGenesis,
            MiniChainError::InvalidTransactionHash { id } => ErrorSpec::InvalidTransactionHash { id },
            MiniChainError::MissingTransactionSignature { id } => ErrorSpec::MissingTransactionSignature { id },
            MiniChainError::InvalidSignature => ErrorSpec::InvalidSignature,
            MiniChainError::InvalidPublicKey => ErrorSpec::InvalidPublicKey,
            MiniChainError::InvalidHex => ErrorSpec::InvalidHex,
            MiniChainError::InvalidMerkleRoot { index } => ErrorSpec::InvalidMerkleRoot { index },
            MiniChainError::DuplicateTransaction { id } => ErrorSpec::DuplicateTransaction { id },
            MiniChainError::EmptyMerkleTree => ErrorSpec::EmptyMerkleTree,
            MiniChainError::TransactionNotInMerkleTree => ErrorSpec::TransactionNotInMerkleTree,
            MiniChainError::BlockTimestampBeforeParent { index } => ErrorSpec::BlockTimestampBeforeParent { index },
            MiniChainError::DuplicateValidator { id } => ErrorSpec::DuplicateValidator { id: id@ },
            MiniChainError::UnknownValidator { id } => ErrorSpec::UnknownValidator { id: id@ },
            MiniChainError::InactiveValidator { id } => ErrorSpec::InactiveValidator { id: id@ },
            MiniChainError::ValidatorPermissionDenied { id, permission } => ErrorSpec::ValidatorPermissionDenied { id: id@, permission: permission@ },
            MiniChainError::DuplicateApproval { id } => ErrorSpec::DuplicateApproval { id: id@ },
            MiniChainError::InsufficientQuorum { required, received } => ErrorSpec::InsufficientQuorum { required, received },
            MiniChainError::ConflictingProposal { height } => ErrorSpec::ConflictingProposal { height },
            MiniChainError::ApprovalForWrongProposal => ErrorSpec::ApprovalForWrongProposal,
            MiniChainError::DuplicateMempoolTransaction { id } => ErrorSpec::DuplicateMempoolTransaction { id },
            MiniChainError::MempoolFull { capacity } => ErrorSpec::MempoolFull { capacity },
            MiniChainError::ExpiredTransaction { id } => ErrorSpec::ExpiredTransaction { id },
            MiniChainError::EmptyBlock { index } => ErrorSpec::EmptyBlock { index },
            MiniChainError::BlockValidatorMismatch { block_validator, proposer } => ErrorSpec::BlockValidatorMismatch { block_validator: block_validator@, proposer: proposer@ },
            MiniChainError::DuplicateProposal { hash } => ErrorSpec::DuplicateProposal { hash: hash@ },
            MiniChainError::TransactionPayloadTooLarge { limit } => ErrorSpec::TransactionPayloadTooLarge { limit },
            MiniChainError::TransactionMetadataTooLarge => ErrorSpec::TransactionMetadataTooLarge,
            MiniChainError::InvalidTransactionField { field } => ErrorSpec::InvalidTransactionField { field: field@ },
            MiniChainError::NoActiveApprovers => ErrorSpec::NoActiveApprovers,
            MiniChainError::ValidatorNotEligibleForProposal { id } => ErrorSpec::ValidatorNotEligibleForProposal { id: id@ },
            MiniChainError::StorageUnavailable => ErrorSpec::StorageUnavailable,
            MiniChainError::StorageCorruption { reason } => ErrorSpec::StorageCorruption { reason: reason@ },
            MiniChainError::BlockNotFound { height } => ErrorSpec::BlockNotFound { height },
            MiniChainError::BlockHashNotFound { hash } => ErrorSpec::BlockHashNotFound { hash: hash@ },
            MiniChainError::TransactionNotFound { id } => ErrorSpec::TransactionNotFound { id },
            MiniChainError::RecordNotFound { id } => ErrorSpec::RecordNotFound { id: id@ },
            MiniChainError::MetadataMismatch => ErrorSpec::MetadataMismatch,
            MiniChainError::SnapshotInvalid { id } => ErrorSpec::SnapshotInvalid { id },
            MiniChainError::SnapshotIncompatible => ErrorSpec::SnapshotIncompatible,
            MiniChainError::RestoreWouldOverwrite => ErrorSpec::RestoreWouldOverwrite,
            MiniChainError::IndexCorrupted { index } => ErrorSpec::IndexCorrupted { index: index@ },
            MiniChainError::PeerUnavailable { peer } => ErrorSpec::PeerUnavailable { peer: peer@ },
            MiniChainError::HandshakeFailed => ErrorSpec::HandshakeFailed,
            MiniChainError::InvalidPeerIdentity { peer } => ErrorSpec::InvalidPeerIdentity { peer: peer@ },
            MiniChainError::ProtocolMismatch { version } => ErrorSpec::ProtocolMismatch { version },
            MiniChainError::InvalidMessage => ErrorSpec::InvalidMessage,
            MiniChainError::MessageTooLarge { limit } => ErrorSpec::MessageTooLarge { limit },
            MiniChainError::SyncFailed => ErrorSpec::SyncFailed,
            MiniChainError::DivergenceDetected { height } => ErrorSpec::DivergenceDetected { height },
            MiniChainError::NetworkTimeout => ErrorSpec::NetworkTimeout,
            MiniChainError::InvalidConfiguration => ErrorSpec::InvalidConfiguration,
            MiniChainError::IdentityKeyUnavailable => ErrorSpec::IdentityKeyUnavailable,
        }
    }
}

/// The library's result type.
pub type Result<T> = core::result::Result<T, MiniChainError>;

/// The value of a result: the error, if any, by its value.
pub open spec fn outcome<T>(r: core::result::Result<T, MiniChainError>) -> core::result::Result<T, ErrorSpec> {
    match r {
        Ok(v) => Ok(v),
        Err(e) => Err(e@),
    }
}

/// The human-readable message of an error.
pub open spec fn error_message(e: ErrorSpec) -> Seq<char> {
    match e {
        ErrorSpec::InvalidBlockHash { index, expected, calculated } => "block "@ + decimal_text(index as nat) + " has an invalid hash: expected "@ + expected + ", calculated "@ + calculated,
        ErrorSpec::InvalidBlockIndex { index, expected, actual } => "block "@ + decimal_text(index as nat) + " has index "@ + decimal_text(actual as nat) + ", but the next index is "@ + decimal_text(expected as nat),
        ErrorSpec::InvalidPreviousHash { index } => "block "@ + decimal_text(index as nat) + " does not link to the current chain tip"@,
        ErrorSpec::UnsupportedBlockVersion { index, version } => "block "@ + decimal_text(index as nat) + " uses unsupported version "@ + decimal_text(version as nat),
        ErrorSpec::EmptyChain  => "the chain cannot be empty"@,
        ErrorSpec::InvalidGenesis  => "the first block is not the MiniChain genesis block"@,
        ErrorSpec::InvalidTransactionHash { id } => "transaction "@ + id_text(id) + " has an invalid hash"@,
        ErrorSpec::MissingTransactionSignature { id } => "transaction "@ + id_text(id) + " has no signature"@,
        ErrorSpec::InvalidSignature  => "the Ed25519 signature is invalid"@,
        ErrorSpec::InvalidPublicKey  => "the Ed25519 public key is invalid"@,
        ErrorSpec::InvalidHex  => "the value is not valid hexadecimal data"@,
        ErrorSpec::InvalidMerkleRoot { index } => "block "@ + decimal_text(index as nat) + " has an invalid Merkle root"@,
        ErrorSpec::DuplicateTransaction { id } => "transaction ID "@ + id_text(id) + " appears more than once in the chain"@,
        ErrorSpec::EmptyMerkleTree  => "a Merkle tree requires at least one leaf"@,
        ErrorSpec::TransactionNotInMerkleTree  => "transaction hash was not found in the Merkle tree"@,
        ErrorSpec::BlockTimestampBeforeParent { index } => "block "@ + decimal_text(index as nat) + " has a timestamp earlier than its parent"@,
        ErrorSpec::DuplicateValidator { id } => "validator ID "@ + id + " is already registered"@,
        ErrorSpec::UnknownValidator { id } => "validator "@ + id + " is not registered"@,
        ErrorSpec::InactiveValidator { id } => "validator "@ + id + " is inactive"@,
        ErrorSpec::ValidatorPermissionDenied { id, permission } => "validator "@ + id + " does not have "@ + permission + " permission"@,
        ErrorSpec::DuplicateApproval { id } => "validator "@ + id + " already approved this proposal"@,
        ErrorSpec::InsufficientQuorum { required, received } => "proposal has "@ + decimal_text(received as nat) + " approvals but requires "@ + decimal_text(required as nat),
        ErrorSpec::ConflictingProposal { height } => "a different block has already been proposed at height "@ + decimal_text(height as nat),
        ErrorSpec::ApprovalForWrongProposal  => "approval refers to a different proposal"@,
        ErrorSpec::DuplicateMempoolTransaction { id } => "transaction "@ + id_text(id) + " is already in the mempool"@,
        ErrorSpec::MempoolFull { capacity } => "the mempool has reached its capacity of "@ + decimal_text(capacity as nat) + " transactions"@,
        ErrorSpec::ExpiredTransaction { id } => "transaction "@ + id_text(id) + " has expired"@,
        ErrorSpec::EmptyBlock { index } => "non-genesis block "@ + decimal_text(index as nat) + " contains no transactions"@,
        ErrorSpec::BlockValidatorMismatch { block_validator, proposer } => "the block validator "@ + block_validator + " does not match proposer "@ + proposer,
        ErrorSpec::DuplicateProposal { hash } => "proposal "@ + hash + " has already been registered"@,
        ErrorSpec::TransactionPayloadTooLarge { limit } => "transaction payload exceeds the "@ + decimal_text(limit as nat) + "-byte limit"@,
        ErrorSpec::TransactionMetadataTooLarge  => "transaction metadata exceeds the configured limit"@,
        ErrorSpec::InvalidTransactionField { field } => "transaction field "@ + field + " is empty or too large"@,
        ErrorSpec::NoActiveApprovers  => "no active validators are eligible to approve blocks"@,
        ErrorSpec::ValidatorNotEligibleForProposal { id } => "validator "@ + id + " was not eligible when the proposal was created"@,
        ErrorSpec::StorageUnavailable  => "persistent storage is unavailable"@,
        ErrorSpec::StorageCorruption { reason } => "stored data is corrupted: "@ + reason,
        ErrorSpec::BlockNotFound { height } => "block "@ + decimal_text(height as nat) + " was not found"@,
        ErrorSpec::BlockHashNotFound { hash } => "block hash "@ + hash + " was not found"@,
        ErrorSpec::TransactionNotFound { id } => "transaction "@ + id_text(id) + " was not found"@,
        ErrorSpec::RecordNotFound { id } => "record "@ + id + " was not found"@,
        ErrorSpec::MetadataMismatch  => "stored blockchain metadata does not match chain data"@,
        ErrorSpec::SnapshotInvalid { id } => "snapshot "@ + id_text(id) + " is invalid"@,
        ErrorSpec::SnapshotIncompatible  => "snapshot is incompatible with the active chain"@,
        ErrorSpec::RestoreWouldOverwrite  => "restoration would overwrite active state; force must be explicitly enabled"@,
        ErrorSpec::IndexCorrupted { index } => "derived storage index is corrupted: "@ + index,
        ErrorSpec::PeerUnavailable { peer } => "peer "@ + peer + " is unavailable"@,
        ErrorSpec::HandshakeFailed  => "network handshake failed"@,
        ErrorSpec::InvalidPeerIdentity { peer } => "peer identity is not trusted: "@ + peer,
        ErrorSpec::ProtocolMismatch { version } => "unsupported network protocol version "@ + decimal_text(version as nat),
        ErrorSpec::InvalidMessage  => "network message is malformed or invalid"@,
        ErrorSpec::MessageTooLarge { limit } => "network message exceeds the "@ + decimal_text(limit as nat) + "-byte limit"@,
        ErrorSpec::SyncFailed  => "network synchronization failed"@,
        ErrorSpec::DivergenceDetected { height } => "chain divergence detected at height "@ + decimal_text(height as nat),
        ErrorSpec::NetworkTimeout  => "network operation timed out"@,
        ErrorSpec::InvalidConfiguration  => "configuration is invalid"@,
        ErrorSpec::IdentityKeyUnavailable  => "node identity key is invalid or unavailable"@,
    }
}

impl MiniChainError {
    /// The human-readable message of this error.
    pub fn message(&self) -> (text: String)
        ensures
            text@ == error_message(self@),
    {
        let mut text = String::new();
        match self {
            MiniChainError::InvalidBlockHash { index, expected, calculated } => {
                push_str(&mut text, "block ");
                push_decimal(&mut text, *index as u64);
                push_str(&mut text, " has an invalid hash: expected ");
                push_str(&mut text, expected.as_str());
                push_str(&mut text, ", calculated ");
                push_str(&mut text, calculated.as_str());
            },
            MiniChainError::InvalidBlockIndex { index, expected, actual } => {
                push_str(&mut text, "block ");
                push_decimal(&mut text, *index as u64);
                push_str(&mut text, " has index ");
                push_decimal(&mut text, *actual as u64);
                push_str(&mut text, ", but the next index is ");
                push_decimal(&mut text, *expected as u64);
            },
            MiniChainError::InvalidPreviousHash { index } => {
                push_str(&mut text, "block ");
                push_decimal(&mut text, *index as u64);
                push_str(&mut text, " does not link to the current chain tip");
            },
            MiniChainError::UnsupportedBlockVersion { index, version } => {
                push_str(&mut text, "block ");
                push_decimal(&mut text, *index as u64);
                push_str(&mut text, " uses unsupported version ");
                push_decimal(&mut text, *version as u64);
            },
            MiniChainError::EmptyChain  => {
                push_str(&mut text, "the chain cannot be empty");
            },
            MiniChainError::InvalidGenesis  => {
                push_str(&mut text, "the first block is not the MiniChain genesis block");
            },
            MiniChainError::InvalidTransactionHash { id } => {
                push_str(&mut text, "transaction ");
                push_id(&mut text, *id);
                push_str(&mut text, " has an invalid hash");
            },
            MiniChainError::MissingTransactionSignature { id } => {
                push_str(&mut text, "transaction ");
                push_id(&mut text, *id);
                push_str(&mut text, " has no signature");
            },
            MiniChainError::InvalidSignature  => {
                push_str(&mut text, "the Ed25519 signature is invalid");
            },
            MiniChainError::InvalidPublicKey  => {
                push_str(&mut text, "the Ed25519 public key is invalid");
            },
            MiniChainError::InvalidHex  => {
                push_str(&mut text, "the value is not valid hexadecimal data");
            },
            MiniChainError::InvalidMerkleRoot { index } => {
                push_str(&mut text, "block ");
                push_decimal(&mut text, *index as u64);
                push_str(&mut text, " has an invalid Merkle root");
            },
            MiniChainError::DuplicateTransaction { id } => {
                push_str(&mut text, "transaction ID ");
                push_id(&mut text, *id);
                push_str(&mut text, " appears more than once in the chain");
            },
            MiniChainError::EmptyMerkleTree  => {
                push_str(&mut text, "a Merkle tree requires at least one leaf");
            },
            MiniChainError::TransactionNotInMerkleTree  => {
                push_str(&mut text, "transaction hash was not found in the Merkle tree");
            },
            MiniChainError::BlockTimestampBeforeParent { index } => {
                push_str(&mut text, "block ");
                push_decimal(&mut text, *index as u64);
                push_str(&mut text, " has a timestamp earlier than its parent");
            },
            MiniChainError::DuplicateValidator { id } => {
                push_str(&mut text, "validator ID ");
                push_str(&mut text, id.as_str());
                push_str(&mut text, " is already registered");
            },
            MiniChainError::UnknownValidator { id } => {
                push_str(&mut text, "validator ");
                push_str(&mut text, id.as_str());
                push_str(&mut text, " is not registered");
            },
            MiniChainError::InactiveValidator { id } => {
                push_str(&mut text, "validator ");
                push_str(&mut text, id.as_str());
                push_str(&mut text, " is inactive");
            },
            MiniChainError::ValidatorPermissionDenied { id, permission } => {
                push_str(&mut text, "validator ");
                push_str(&mut text, id.as_str());
                push_str(&mut text, " does not have ");
                push_str(&mut text, permission.as_str());
                push_str(&mut text, " permission");
            },
            MiniChainError::DuplicateApproval { id } => {
                push_str(&mut text, "validator ");
                push_str(&mut text, id.as_str());
                push_str(&mut text, " already approved this proposal");
            },
            MiniChainError::InsufficientQuorum { required, received } => {
                push_str(&mut text, "proposal has ");
                push_decimal(&mut text, *received as u64);
                push_str(&mut text, " approvals but requires ");
                push_decimal(&mut text, *required as u64);
            },
            MiniChainError::ConflictingProposal { height } => {
                push_str(&mut text, "a different block has already been proposed at height ");
                push_decimal(&mut text, *height as u64);
            },
            MiniChainError::ApprovalForWrongProposal  => {
                push_str(&mut text, "approval refers to a different proposal");
            },
            MiniChainError::DuplicateMempoolTransaction { id } => {
                push_str(&mut text, "transaction ");
                push_id(&mut text, *id);
                push_str(&mut text, " is already in the mempool");
            },
            MiniChainError::MempoolFull { capacity } => {
                push_str(&mut text, "the mempool has reached its capacity of ");
                push_decimal(&mut text, *capacity as u64);
                push_str(&mut text, " transactions");
            },
            MiniChainError::ExpiredTransaction { id } => {
                push_str(&mut text, "transaction ");
                push_id(&mut text, *id);
                push_str(&mut text, " has expired");
            },
            MiniChainError::EmptyBlock { index } => {
                push_str(&mut text, "non-genesis block ");
                push_decimal(&mut text, *index as u64);
                push_str(&mut text, " contains no transactions");
            },
            MiniChainError::BlockValidatorMismatch { block_validator, proposer } => {
                push_str(&mut text, "the block validator ");
                push_str(&mut text, block_validator.as_str());
                push_str(&mut text, " does not match proposer ");
                push_str(&mut text, proposer.as_str());
            },
            MiniChainError::DuplicateProposal { hash } => {
                push_str(&mut text, "proposal ");
                push_str(&mut text, hash.as_str());
                push_str(&mut text, " has already been registered");
            },
            MiniChainError::TransactionPayloadTooLarge { limit } => {
                push_str(&mut text, "transaction payload exceeds the ");
                push_decimal(&mut text, *limit as u64);
                push_str(&mut text, "-byte limit");
            },
            MiniChainError::TransactionMetadataTooLarge  => {
                push_str(&mut text, "transaction metadata exceeds the configured limit");
            },
            MiniChainError::InvalidTransactionField { field } => {
                push_str(&mut text, "transaction field ");
                push_str(&mut text, *field);
                push_str(&mut text, " is empty or too large");
            },
            MiniChainError::NoActiveApprovers  => {
                push_str(&mut text, "no active validators are eligible to approve blocks");
            },
            MiniChainError::ValidatorNotEligibleForProposal { id } => {
                push_str(&mut text, "validator ");
                push_str(&mut text, id.as_str());
                push_str(&mut text, " was not eligible when the proposal was created");
            },
            MiniChainError::StorageUnavailable  => {
                push_str(&mut text, "persistent storage is unavailable");
            },
            MiniChainError::StorageCorruption { reason } => {
                push_str(&mut text, "stored data is corrupted: ");
                push_str(&mut text, reason.as_str());
            },
            MiniChainError::BlockNotFound { height } => {
                push_str(&mut text, "block ");
                push_decimal(&mut text, *height as u64);
                push_str(&mut text, " was not found");
            },
            MiniChainError::BlockHashNotFound { hash } => {
                push_str(&mut text, "block hash ");
                push_str(&mut text, hash.as_str());
                push_str(&mut text, " was not found");
            },
            MiniChainError::TransactionNotFound { id } => {
                push_str(&mut text, "transaction ");
                push_id(&mut text, *id);
                push_str(&mut text, " was not found");
            },
            MiniChainError::RecordNotFound { id } => {
                push_str(&mut text, "record ");
                push_str(&mut text, id.as_str());
                push_str(&mut text, " was not found");
            },
            MiniChainError::MetadataMismatch  => {
                push_str(&mut text, "stored blockchain metadata does not match chain data");
            },
            MiniChainError::SnapshotInvalid { id } => {
                push_str(&mut text, "snapshot ");
                push_id(&mut text, *id);
                push_str(&mut text, " is invalid");
            },
            MiniChainError::SnapshotIncompatible  => {
                push_str(&mut text, "snapshot is incompatible with the active chain");
            },
            MiniChainError::RestoreWouldOverwrite  => {
                push_str(&mut text, "restoration would overwrite active state; force must be explicitly enabled");
            },
            MiniChainError::IndexCorrupted { index } => {
                push_str(&mut text, "derived storage index is corrupted: ");
                push_str(&mut text, *index);
            },
            MiniChainError::PeerUnavailable { peer } => {
                push_str(&mut text, "peer ");
                push_str(&mut text, peer.as_str());
                push_str(&mut text, " is unavailable");
            },
            MiniChainError::HandshakeFailed  => {
                push_str(&mut text, "network handshake failed");
            },
            MiniChainError::InvalidPeerIdentity { peer } => {
                push_str(&mut text, "peer identity is not trusted: ");
                push_str(&mut text, peer.as_str());
            },
            MiniChainError::ProtocolMismatch { version } => {
                push_str(&mut text, "unsupported network protocol version ");
                push_decimal(&mut text, *version as u64);
            },
            MiniChainError::InvalidMessage  => {
                push_str(&mut text, "network message is malformed or invalid");
            },
            MiniChainError::MessageTooLarge { limit } => {
                push_str(&mut text, "network message exceeds the ");
                push_decimal(&mut text, *limit as u64);
                push_str(&mut text, "-byte limit");
            },
            MiniChainError::SyncFailed  => {
                push_str(&mut text, "network synchronization failed");
            },
            MiniChainError::DivergenceDetected { height } => {
                push_str(&mut text, "chain divergence detected at height ");
                push_decimal(&mut text, *height as u64);
            },
            MiniChainError::NetworkTimeout  => {
                push_str(&mut text, "network operation timed out");
            },
            MiniChainError::InvalidConfiguration  => {
                push_str(&mut text, "configuration is invalid");
            },
            MiniChainError::IdentityKeyUnavailable  => {
                push_str(&mut text, "node identity key is invalid or unavailable");
            },
        }
        text
    }
}

} // verus!
