use minichain::api::{
    ApiError, ChainValidationResponse, AuthContext, AuthService, RateClass, RateLimiter, admit_request,
    bearer_token, block_range,
    contains_text, failure_block, healthy_peer_count, inconsistent_peers, page_items,
    pagination_values, rate_class, role_level, sync_state, validate_hash, validate_record_id,
    validators_in_order, with_operation,
};
use minichain::cli::{CheckStatus, CliError, api_failure, check_status, overall_status, title_case};
use minichain::error::MiniChainError;
use minichain::network::{
    ApiConfig, ApiRole, ApiTokenConfig, NodeConfig, Peer, PeerState, SyncState, TrustedPeer,
};
use minichain::crypto::ValidatorIdentity;
use minichain::json::JsonValue;
use minichain::storage::StoredTransaction;
use minichain::text::{encode_hex, sort_by_key};
use minichain::transaction::{Operation, Transaction};
use minichain::validator::{Permission, Validator};
use minichain::transaction::Timestamp;
use sha2::Digest;

fn digest_of(token: &str) -> String {
    encode_hex(&sha2::Sha256::digest(token.as_bytes()))
}

fn tokens() -> Vec<ApiTokenConfig> {
    vec![
        ApiTokenConfig {
            identity: "viewer".to_owned(),
            role: ApiRole::Viewer,
            token_sha256: digest_of("viewer-token"),
        },
        ApiTokenConfig {
            identity: "admin".to_owned(),
            role: ApiRole::Admin,
            token_sha256: digest_of("admin-token"),
        },
    ]
}

#[test]
fn errors_map_to_statuses_and_codes() {
    let not_found = ApiError::from_error(MiniChainError::RecordNotFound { id: "X".to_owned() });
    assert_eq!(not_found.status, 404);
    assert_eq!(not_found.code, "NOT_FOUND");
    assert_eq!(not_found.message, "record X was not found");
    let conflict = ApiError::from_error(MiniChainError::RestoreWouldOverwrite);
    assert_eq!((conflict.status, conflict.code), (409, "CONFLICT"));
    let internal = ApiError::from_error(MiniChainError::StorageUnavailable);
    assert_eq!((internal.status, internal.code), (500, "INTERNAL_ERROR"));
    assert_eq!(internal.message, "The node could not complete the request");
    let corrupt = ApiError::from_error(MiniChainError::MetadataMismatch);
    assert_eq!((corrupt.status, corrupt.code), (500, "CHAIN_INVALID"));
    let large = ApiError::from_error(MiniChainError::MessageTooLarge { limit: 3 });
    assert_eq!((large.status, large.code), (413, "VALIDATION_ERROR"));
    let offline = ApiError::from_error(MiniChainError::NetworkTimeout);
    assert_eq!((offline.status, offline.code), (503, "SERVICE_UNAVAILABLE"));
    let diverged = ApiError::from_error(MiniChainError::DivergenceDetected { height: 3 });
    assert_eq!((diverged.status, diverged.code), (409, "CHAIN_INVALID"));
    let body = not_found.body();
    assert_eq!(body.error.code, "NOT_FOUND");
}

#[test]
fn roles_are_ranked() {
    assert!(role_level(ApiRole::Viewer) < role_level(ApiRole::Operator));
    assert!(role_level(ApiRole::Operator) < role_level(ApiRole::Admin));
    let viewer = AuthContext { identity: "v".to_owned(), role: ApiRole::Viewer };
    assert!(viewer.require(ApiRole::Viewer).is_ok());
    assert_eq!(viewer.require(ApiRole::Operator).unwrap_err().status, 403);
    let admin = AuthContext { identity: "a".to_owned(), role: ApiRole::Admin };
    assert!(admin.require(ApiRole::Operator).is_ok());
}

#[test]
fn tokens_authenticate_by_digest() {
    let service = AuthService::new(&tokens()).unwrap();
    let context = service.authenticate_token("admin-token").unwrap();
    assert_eq!(context.identity, "admin");
    assert_eq!(context.role, ApiRole::Admin);
    assert_eq!(service.authenticate_token("wrong").unwrap_err().status, 401);
    assert_eq!(service.authenticate_token("").unwrap_err().status, 401);
    let mut bad = tokens();
    bad[0].token_sha256 = "abc".to_owned();
    assert_eq!(AuthService::new(&bad).err().unwrap().status, 400);
}

#[test]
fn bearer_tokens_are_extracted() {
    assert_eq!(bearer_token("Bearer abc").unwrap(), "abc");
    assert_eq!(bearer_token("Bearer ").unwrap_err().status, 401);
    assert_eq!(bearer_token("Basic abc").unwrap_err().status, 401);
    assert_eq!(bearer_token("").unwrap_err().status, 401);
}

fn api_config() -> ApiConfig {
    ApiConfig {
        listen_address: "127.0.0.1:8080".to_owned(),
        allowed_origins: vec!["http://localhost".to_owned()],
        max_body_bytes: 1024,
        rate_window_ms: 1000,
        read_requests_per_window: 2,
        write_requests_per_window: 1,
        admin_requests_per_window: 1,
        tokens: tokens(),
    }
}

#[test]
fn rate_limits_count_per_window() {
    let mut limiter = RateLimiter::new(&api_config());
    let second: u128 = 1_000_000_000;
    assert!(limiter.check("viewer", RateClass::Read, 0).is_ok());
    assert!(limiter.check("viewer", RateClass::Read, 10).is_ok());
    let refused = limiter.check("viewer", RateClass::Read, 20).unwrap_err();
    assert_eq!((refused.status, refused.code), (429, "RATE_LIMITED"));
    assert!(limiter.check("admin", RateClass::Read, 20).is_ok());
    assert!(limiter.check("viewer", RateClass::Write, 20).is_ok());
    assert!(limiter.check("viewer", RateClass::Read, second).is_ok());
}

#[test]
fn requests_are_classified_for_rate_limits() {
    assert_eq!(rate_class(true, "/api/v1/snapshots"), RateClass::Admin);
    assert_eq!(rate_class(false, "/api/v1/snapshots/restore"), RateClass::Admin);
    assert_eq!(rate_class(true, "/api/v1/blocks"), RateClass::Read);
    assert_eq!(rate_class(false, "/api/v1/transactions"), RateClass::Write);
    assert!(contains_text("abcdef", "cde"));
    assert!(!contains_text("abc", "abcd"));
    assert!(contains_text("abc", ""));
}

#[test]
fn pagination_is_bounded() {
    assert_eq!(pagination_values(None, None).unwrap(), (1, 20));
    assert_eq!(pagination_values(Some(3), Some(100)).unwrap(), (3, 100));
    assert_eq!(pagination_values(Some(0), None).unwrap_err().status, 400);
    assert_eq!(
        pagination_values(None, Some(101)).unwrap_err().message,
        "page must be positive and limit must be between 1 and 100"
    );
    let page = page_items((0..25).collect::<Vec<u32>>(), 2, 10);
    assert_eq!(page.items, (10..20).collect::<Vec<u32>>());
    assert_eq!(page.total, 25);
    let last = page_items((0..25).collect::<Vec<u32>>(), 3, 10);
    assert_eq!(last.items, vec![20, 21, 22, 23, 24]);
    let beyond = page_items((0..25).collect::<Vec<u32>>(), 9, 10);
    assert!(beyond.items.is_empty());
    assert_eq!(block_range(None, 1, 20, 5), Some((0, 4)));
    assert_eq!(block_range(Some(3), 1, 2, 10), Some((3, 4)));
    assert_eq!(block_range(Some(10), 1, 2, 10), None);
}

#[test]
fn paths_are_validated() {
    assert!(validate_hash(&"a".repeat(64)).is_ok());
    assert_eq!(validate_hash("abc").unwrap_err().status, 400);
    assert!(validate_hash(&"g".repeat(64)).is_err());
    assert!(validate_record_id("CERT-1").is_ok());
    assert!(validate_record_id("").is_err());
    assert!(validate_record_id(&"x".repeat(257)).is_err());
    assert!(validate_record_id(&"x".repeat(256)).is_ok());
}

fn peer(id: &str, state: PeerState, height: u64, hash: &str) -> Peer {
    Peer {
        id: id.to_owned(),
        address: "127.0.0.1:1".to_owned(),
        state,
        last_heartbeat: None,
        height,
        latest_hash: hash.to_owned(),
        protocol_version: 1,
        connected_at: Timestamp { seconds: 0, nanos: 0 },
        latency_ms: None,
        failure_count: 0,
    }
}

#[test]
fn sync_state_reflects_peers() {
    assert_eq!(sync_state(3, "h", &[]), SyncState::Synced);
    assert_eq!(sync_state(3, "h", &[peer("a", PeerState::Syncing, 3, "h")]), SyncState::Syncing);
    assert_eq!(sync_state(3, "h", &[peer("a", PeerState::Ready, 3, "g")]), SyncState::Diverged);
    assert_eq!(sync_state(3, "h", &[peer("a", PeerState::Ready, 3, "")]), SyncState::Synced);
    assert_eq!(sync_state(3, "h", &[peer("a", PeerState::Ready, 5, "g")]), SyncState::Behind);
    assert_eq!(
        sync_state(3, "h", &[peer("a", PeerState::Failed, 2, "g"), peer("b", PeerState::Disconnected, 1, "g")]),
        SyncState::Offline
    );
    let peers = [peer("a", PeerState::Ready, 3, "h"), peer("b", PeerState::Failed, 2, "h")];
    assert_eq!(inconsistent_peers(3, "h", &peers), vec!["b".to_owned()]);
    assert_eq!(healthy_peer_count(&peers), 1);
}

#[test]
fn failures_name_their_block() {
    assert_eq!(failure_block(&MiniChainError::InvalidMerkleRoot { index: 4 }), Some(4));
    assert_eq!(failure_block(&MiniChainError::EmptyChain), None);
}

#[test]
fn cli_errors_carry_exit_codes() {
    let error = CliError::from_error(MiniChainError::InvalidConfiguration);
    assert_eq!(error.exit_code, 3);
    assert_eq!(CliError::from_error(MiniChainError::NetworkTimeout).exit_code, 4);
    assert_eq!(CliError::from_error(MiniChainError::SyncFailed).exit_code, 5);
    assert_eq!(CliError::from_error(MiniChainError::EmptyChain).exit_code, 1);
    let rendered = CliError::new(2, "broken").reason("disk full").render();
    assert_eq!(rendered, "Error: broken\n\nReason:\ndisk full");
    assert_eq!(CliError::validation("x").exit_code, 3);
    assert_eq!(CliError::unavailable("x").exit_code, 4);
    assert_eq!(CliError::synchronization("x").exit_code, 5);
    assert_eq!(title_case("latest hash"), "Latest hash");
    assert_eq!(title_case(""), "");
    assert_eq!(title_case("école"), "École");
}

fn validator(id: &str, active: bool) -> Validator {
    let identity = ValidatorIdentity::from_secret_bytes(id, [7; 32]);
    let mut v = Validator::new(id, identity.public_key().to_vec(), "addr", vec![Permission::ApproveBlocks])
        .unwrap();
    v.active = active;
    v
}

#[test]
fn validators_are_filtered_and_listed_by_id() {
    let items = vec![validator("v3", true), validator("v1", false), validator("v2", true)];
    let all: Vec<String> = validators_in_order(items.clone(), None).into_iter().map(|v| v.id).collect();
    assert_eq!(all, vec!["v1", "v2", "v3"]);
    let active: Vec<String> =
        validators_in_order(items.clone(), Some(true)).into_iter().map(|v| v.id).collect();
    assert_eq!(active, vec!["v2", "v3"]);
    let inactive: Vec<String> =
        validators_in_order(items, Some(false)).into_iter().map(|v| v.id).collect();
    assert_eq!(inactive, vec!["v1"]);
}

#[test]
fn peers_are_listed_by_id() {
    let peers = vec![
        peer("node-03", PeerState::Ready, 1, "a"),
        peer("node-01", PeerState::Ready, 1, "a"),
        peer("node-02", PeerState::Failed, 1, "a"),
    ];
    let ids: Vec<String> = sort_by_key(peers).into_iter().map(|p| p.id).collect();
    assert_eq!(ids, vec!["node-01", "node-02", "node-03"]);
}

#[test]
fn transactions_are_filtered_by_operation() {
    let identity = ValidatorIdentity::from_secret_bytes("actor", [9; 32]);
    let stored = |operation: Operation, record: &str, height: u64| StoredTransaction {
        transaction: Transaction::new(operation, record, JsonValue::Null, Vec::new(), &identity),
        block_height: height,
        block_hash: "h".to_owned(),
        transaction_index: 0,
    };
    let items = vec![
        stored(Operation::CreateRecord, "A", 1),
        stored(Operation::RevokeRecord, "A", 2),
        stored(Operation::CreateRecord, "B", 3),
    ];
    let created = with_operation(items.clone(), Some(Operation::CreateRecord));
    let heights: Vec<u64> = created.iter().map(|s| s.block_height).collect();
    assert_eq!(heights, vec![1, 3]);
    assert_eq!(with_operation(items.clone(), None).len(), 3);
    assert_eq!(with_operation(items, Some(Operation::AuditEvent)).len(), 0);
}

#[test]
fn api_failures_map_statuses_to_exit_codes() {
    let invalid = api_failure(422, Some("bad input"));
    assert_eq!((invalid.exit_code, invalid.message.as_str()), (3, "bad input"));
    assert_eq!(api_failure(400, None).exit_code, 3);
    assert_eq!(api_failure(503, None).exit_code, 4);
    assert_eq!(api_failure(409, None).exit_code, 5);
    let other = api_failure(500, None);
    assert_eq!((other.exit_code, other.message.as_str()), (1, "The node rejected the request"));
}

#[test]
fn diagnostics_combine_check_outcomes() {
    assert_eq!(check_status(false, true), CheckStatus::Fail);
    assert_eq!(check_status(true, false), CheckStatus::Warn);
    assert_eq!(check_status(true, true), CheckStatus::Pass);
    assert_eq!(CheckStatus::Warn.name(), "warn");
    assert_eq!(overall_status(&[CheckStatus::Pass, CheckStatus::Warn, CheckStatus::Fail]), "fail");
    assert_eq!(overall_status(&[CheckStatus::Pass, CheckStatus::Warn]), "warning");
    assert_eq!(overall_status(&[CheckStatus::Pass]), "pass");
    assert_eq!(overall_status(&[]), "pass");
}

#[test]
fn shown_configuration_masks_secrets() {
    let config = NodeConfig {
        node_id: "node-01".to_owned(),
        listen_address: "127.0.0.1:9101".to_owned(),
        trusted_peers: vec![(
            "node-02".to_owned(),
            TrustedPeer { address: "127.0.0.1:9102".to_owned(), public_key: vec![1; 32] },
        )],
        max_peers: 4,
        chain_id: 5,
        network_id: "local".to_owned(),
        storage_path: "data/node-01.redb".to_owned(),
        identity_path: "data/node-01.key".to_owned(),
        heartbeat_interval_ms: 1000,
        api: Some(api_config()),
    };
    let shown = config.clone().redacted();
    assert_eq!(shown.identity_path, "********");
    assert_eq!(shown.storage_path, config.storage_path);
    assert_eq!(shown.trusted_peers, config.trusted_peers);
    let api = shown.api.unwrap();
    assert_eq!(api.tokens.len(), 2);
    assert!(api.tokens.iter().all(|t| t.token_sha256 == "********"));
    assert_eq!(api.tokens[1].identity, "admin");
    assert_eq!(api.tokens[1].role, ApiRole::Admin);
}

#[test]
fn authorization_headers_authenticate_bearer_tokens() {
    let service = AuthService::new(&tokens()).unwrap();
    let admin = service.authenticate(Some("Bearer admin-token")).unwrap();
    assert_eq!((admin.identity.as_str(), admin.role), ("admin", ApiRole::Admin));
    assert_eq!(service.authenticate(None).unwrap_err().status, 401);
    assert_eq!(service.authenticate(Some("Basic admin-token")).unwrap_err().status, 401);
    assert_eq!(service.authenticate(Some("Bearer ")).unwrap_err().status, 401);
    assert_eq!(service.authenticate(Some("Bearer wrong")).unwrap_err().code, "UNAUTHORIZED");
}

#[test]
fn validation_answers_report_chains_blocks_and_failures() {
    let chain = minichain::chain::Blockchain::new().unwrap();
    let report = ChainValidationResponse::of_chain(&chain);
    assert!(report.valid);
    assert_eq!(report.checked_height, 0);
    assert_eq!(report.failure_block, None);
    let failed = ChainValidationResponse::of_failure(&MiniChainError::InvalidMerkleRoot { index: 3 }, 9);
    assert!(!failed.valid);
    assert_eq!((failed.checked_height, failed.failure_block), (9, Some(3)));
    assert_eq!(failed.failure_reason.unwrap(), MiniChainError::InvalidMerkleRoot { index: 3 }.message());
    let block_ok = ChainValidationResponse::of_block(4, &Ok(()));
    assert!(block_ok.valid && block_ok.failure_reason.is_none());
    let block_bad = ChainValidationResponse::of_block(4, &Err(MiniChainError::EmptyBlock { index: 4 }));
    assert_eq!((block_bad.valid, block_bad.failure_block), (false, Some(4)));
}

#[test]
fn a_window_allows_exactly_its_limit() {
    let mut limiter = RateLimiter::new(&api_config());
    let outcomes: Vec<bool> = (0..5u128)
        .map(|j| limiter.check("viewer", RateClass::Read, 5_000 + j * 1_000).is_ok())
        .collect();
    assert_eq!(outcomes, vec![true, true, false, false, false]);
    let refused = limiter.check("viewer", RateClass::Read, 999_999_999).unwrap_err();
    assert_eq!((refused.status, refused.code), (429, "RATE_LIMITED"));
    assert!(limiter.check("viewer", RateClass::Read, 1_000_005_000).is_ok());
}

#[test]
fn admission_charges_the_caller_or_unauthenticated() {
    let mut limiter = RateLimiter::new(&api_config());
    let writer = || AuthContext { identity: "writer".to_owned(), role: ApiRole::Operator };
    let admitted = admit_request(&mut limiter, Ok(writer()), RateClass::Write, 10).unwrap();
    assert_eq!(admitted.identity, "writer");
    let over = admit_request(&mut limiter, Ok(writer()), RateClass::Write, 20).unwrap_err();
    assert_eq!((over.status, over.code), (429, "RATE_LIMITED"));
    let denied =
        admit_request(&mut limiter, Err(ApiError::unauthorized()), RateClass::Write, 30).unwrap_err();
    assert_eq!((denied.status, denied.code), (401, "UNAUTHORIZED"));
    let limited =
        admit_request(&mut limiter, Err(ApiError::unauthorized()), RateClass::Write, 40).unwrap_err();
    assert_eq!((limited.status, limited.code), (429, "RATE_LIMITED"));
}
