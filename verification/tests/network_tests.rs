use minichain::crypto::ValidatorIdentity;
use minichain::error::MiniChainError;
use minichain::network::{
    ApiConfig, ApiRole, ApiTokenConfig, BlockArrival, Envelope, MAX_MESSAGE_BYTES, MessagePayload,
    NetworkStatus, NodeConfig, PeerState, PeerTable, SeenMessages, SyncStart, TrustedPeer,
    check_frame_length, check_known_block, check_pong, check_sync_request, classify_block,
    ensure_consistent, start_sync,
};
use minichain::transaction::Timestamp;

/// A stand-in for the serialized signed fields of an envelope: the fields
/// and a tag of the payload, in a fixed order.
fn signed_fields(envelope: &Envelope) -> Vec<u8> {
    let mut bytes = Vec::new();
    bytes.extend_from_slice(&envelope.version.to_be_bytes());
    bytes.extend_from_slice(&envelope.message_id.to_be_bytes());
    bytes.extend_from_slice(envelope.sender.as_bytes());
    bytes.extend_from_slice(&envelope.timestamp.seconds.to_be_bytes());
    bytes.extend_from_slice(&envelope.timestamp.nanos.to_be_bytes());
    match &envelope.payload {
        MessagePayload::GetStatus => bytes.extend_from_slice(b"get_status"),
        MessagePayload::Reject { reason } => {
            bytes.extend_from_slice(b"reject");
            bytes.extend_from_slice(reason.as_bytes());
        }
        _ => bytes.extend_from_slice(b"other"),
    }
    bytes
}

fn signed(payload: MessagePayload, identity: &ValidatorIdentity) -> Envelope {
    let mut envelope = Envelope::unsigned(payload, identity);
    let bytes = signed_fields(&envelope);
    envelope.sign(identity, &bytes);
    envelope
}

#[test]
fn signed_envelope_rejects_payload_changes_and_wrong_identity() {
    let identity = ValidatorIdentity::from_secret_bytes("node-01", [81; 32]);
    let mut envelope = signed(MessagePayload::GetStatus, &identity);
    envelope.verify("node-01", &identity.public_key(), &signed_fields(&envelope)).unwrap();
    envelope.payload = MessagePayload::Reject { reason: "changed".to_owned() };
    assert_eq!(
        envelope.verify("node-01", &identity.public_key(), &signed_fields(&envelope)).unwrap_err(),
        MiniChainError::InvalidSignature
    );
    assert!(matches!(
        envelope.verify("node-02", &identity.public_key(), &signed_fields(&envelope)),
        Err(MiniChainError::InvalidPeerIdentity { .. })
    ));
}

#[test]
fn stale_or_foreign_envelopes_are_rejected() {
    let identity = ValidatorIdentity::from_secret_bytes("node-01", [81; 32]);
    let envelope = signed(MessagePayload::GetStatus, &identity);
    let bytes = signed_fields(&envelope);
    let later = Timestamp { seconds: envelope.timestamp.seconds + 301, nanos: envelope.timestamp.nanos };
    assert_eq!(
        envelope.verify_at("node-01", &identity.public_key(), later, &bytes).unwrap_err(),
        MiniChainError::InvalidMessage
    );
    let soon = Timestamp { seconds: envelope.timestamp.seconds + 299, nanos: envelope.timestamp.nanos };
    assert!(envelope.verify_at("node-01", &identity.public_key(), soon, &bytes).is_ok());
    let mut old_version = signed(MessagePayload::GetStatus, &identity);
    old_version.version = 2;
    assert_eq!(
        old_version.verify("node-01", &identity.public_key(), &signed_fields(&old_version)).unwrap_err(),
        MiniChainError::ProtocolMismatch { version: 2 }
    );
}

#[test]
fn oversized_frame_is_rejected_before_allocation() {
    assert_eq!(
        check_frame_length(MAX_MESSAGE_BYTES + 1).unwrap_err(),
        MiniChainError::MessageTooLarge { limit: MAX_MESSAGE_BYTES }
    );
    assert!(check_frame_length(MAX_MESSAGE_BYTES).is_ok());
}

#[test]
fn sync_requests_are_bounded() {
    assert!(check_sync_request(1, 16).is_ok());
    assert_eq!(check_sync_request(1, 17).unwrap_err(), MiniChainError::InvalidMessage);
    assert_eq!(check_sync_request(5, 4).unwrap_err(), MiniChainError::InvalidMessage);
}

#[test]
fn seen_messages_forget_the_oldest() {
    let mut seen = SeenMessages::new(2);
    assert!(seen.insert(1));
    assert!(!seen.insert(1));
    assert!(seen.insert(2));
    assert!(seen.insert(3));
    assert!(!seen.contains(1));
    assert!(seen.contains(2) && seen.contains(3));
    assert!(seen.insert(1));
}

fn status(id: &str, height: u64, hash: &str) -> NetworkStatus {
    NetworkStatus {
        node_id: id.to_owned(),
        height,
        latest_hash: hash.to_owned(),
        protocol_version: 1,
    }
}

#[test]
fn sync_fetches_batches_up_to_the_peer() {
    let local = status("a", 3, "x");
    match start_sync(&local, &status("b", 3, "x")) {
        SyncStart::UpToDate => {}
        _ => panic!("equal chains need no sync"),
    }
    match start_sync(&local, &status("b", 3, "y")) {
        SyncStart::Diverged { height } => assert_eq!(height, 3),
        _ => panic!("same height, other hash is divergence"),
    }
    match start_sync(&local, &status("b", 1, "y")) {
        SyncStart::UpToDate => {}
        _ => panic!("a lower peer needs no sync"),
    }
    let mut session = match start_sync(&local, &status("b", 40, "z")) {
        SyncStart::Fetch(session) => session,
        _ => panic!("a higher peer must be fetched"),
    };
    assert_eq!(session.next_range(), Some((4, 19)));
    assert!(session.check_batch(4, 19, 16).is_ok());
    assert_eq!(session.check_batch(4, 19, 15).unwrap_err(), MiniChainError::SyncFailed);
    assert_eq!(session.accept_block(5).unwrap_err(), MiniChainError::SyncFailed);
    for height in 4..=19 {
        session.accept_block(height).unwrap();
    }
    assert_eq!(session.next_range(), Some((20, 35)));
    for height in 20..=35 {
        session.accept_block(height).unwrap();
    }
    assert_eq!(session.next_range(), Some((36, 40)));
    for height in 36..=40 {
        session.accept_block(height).unwrap();
    }
    assert_eq!(session.next_range(), None);
    assert!(session.finish(&status("a", 40, "z"), &status("b", 40, "z")).is_ok());
    assert_eq!(
        session.finish(&status("a", 40, "q"), &status("b", 40, "z")).unwrap_err(),
        MiniChainError::DivergenceDetected { height: 40 }
    );
}

#[test]
fn received_blocks_are_classified() {
    assert_eq!(classify_block(3, 5), BlockArrival::Known);
    assert_eq!(classify_block(6, 5), BlockArrival::Next);
    assert_eq!(classify_block(8, 5), BlockArrival::Ahead);
    assert!(check_known_block("abc", "abc", 3).is_ok());
    assert_eq!(
        check_known_block("abc", "abd", 3).unwrap_err(),
        MiniChainError::DivergenceDetected { height: 3 }
    );
    assert!(check_pong(&MessagePayload::Pong { nonce: 9 }, 9).is_ok());
    assert_eq!(check_pong(&MessagePayload::Pong { nonce: 8 }, 9).unwrap_err(), MiniChainError::InvalidMessage);
}

fn token(identity: &str, digest: &str) -> ApiTokenConfig {
    ApiTokenConfig { identity: identity.to_owned(), role: ApiRole::Viewer, token_sha256: digest.to_owned() }
}

fn api_config(tokens: Vec<ApiTokenConfig>) -> ApiConfig {
    ApiConfig {
        listen_address: "127.0.0.1:8080".to_owned(),
        allowed_origins: vec!["http://localhost:5173".to_owned()],
        max_body_bytes: 1024,
        rate_window_ms: 1000,
        read_requests_per_window: 10,
        write_requests_per_window: 5,
        admin_requests_per_window: 1,
        tokens,
    }
}

#[test]
fn api_configuration_is_validated() {
    let a = "a".repeat(64);
    let b = "b".repeat(64);
    assert!(api_config(vec![token("viewer", &a), token("admin", &b)]).validate().is_ok());
    assert_eq!(api_config(vec![]).validate().unwrap_err(), MiniChainError::InvalidConfiguration);
    assert!(api_config(vec![token("viewer", &a), token("viewer", &b)]).validate().is_err());
    assert!(api_config(vec![token("viewer", &a), token("admin", &a.to_uppercase())]).validate().is_err());
    assert!(api_config(vec![token("", &a)]).validate().is_err());
    assert!(api_config(vec![token("viewer", "abcd")]).validate().is_err());
    let mut wildcard = api_config(vec![token("viewer", &a)]);
    wildcard.allowed_origins = vec!["*".to_owned()];
    assert!(wildcard.validate().is_err());
    let mut fast = api_config(vec![token("viewer", &a)]);
    fast.rate_window_ms = 99;
    assert!(fast.validate().is_err());
}

fn node_config() -> NodeConfig {
    NodeConfig {
        node_id: "node-01".to_owned(),
        listen_address: "127.0.0.1:7001".to_owned(),
        trusted_peers: vec![(
            "node-02".to_owned(),
            TrustedPeer { address: "127.0.0.1:7002".to_owned(), public_key: vec![0; 32] },
        )],
        max_peers: 1,
        chain_id: 1,
        network_id: "local".to_owned(),
        storage_path: "data/node-01.redb".to_owned(),
        identity_path: "data/node-01.key".to_owned(),
        heartbeat_interval_ms: 1000,
        api: None,
    }
}

#[test]
fn node_configuration_is_validated() {
    assert!(node_config().validate().is_ok());
    let mut own_peer = node_config();
    own_peer.trusted_peers[0].0 = "node-01".to_owned();
    assert_eq!(own_peer.validate().unwrap_err(), MiniChainError::InvalidConfiguration);
    let mut slow = node_config();
    slow.heartbeat_interval_ms = 10;
    assert!(slow.validate().is_err());
    let mut bad_api = node_config();
    bad_api.api = Some(api_config(vec![]));
    assert!(bad_api.validate().is_err());
}

#[test]
fn peer_table_admits_trusted_peers_within_capacity() {
    let config = node_config();
    let now = Timestamp { seconds: 1_700_000_000, nanos: 0 };
    let mut peers = PeerTable::new();
    assert_eq!(
        peers.update(&config, &status("node-09", 1, "h"), PeerState::Ready, now).unwrap_err(),
        MiniChainError::InvalidPeerIdentity { peer: "node-09".to_owned() }
    );
    peers.update(&config, &status("node-02", 1, "h"), PeerState::Ready, now).unwrap();
    assert_eq!(peers.len(), 1);
    peers.mark_failed("node-02");
    peers.mark_failed("node-02");
    let peer = peers.get("node-02").unwrap();
    assert_eq!(peer.state, PeerState::Failed);
    assert_eq!(peer.failure_count, 2);
    peers.record_heartbeat("node-02", now, 12);
    let peer = peers.get("node-02").unwrap();
    assert_eq!(peer.failure_count, 0);
    assert_eq!(peer.latency_ms, Some(12));
    assert_eq!(peer.address, "127.0.0.1:7002");
}

#[test]
fn consistency_needs_matching_statuses() {
    assert!(ensure_consistent(&[status("a", 2, "h"), status("b", 2, "h")]).is_ok());
    assert_eq!(ensure_consistent(&[]).unwrap_err(), MiniChainError::SyncFailed);
    assert_eq!(
        ensure_consistent(&[status("a", 2, "h"), status("b", 2, "g")]).unwrap_err(),
        MiniChainError::SyncFailed
    );
}

#[test]
fn a_finished_sync_fetched_each_missing_height_once_in_order() {
    let mut session = match start_sync(&status("a", 7, "x"), &status("b", 50, "z")) {
        SyncStart::Fetch(session) => session,
        _ => panic!("a higher peer must be fetched"),
    };
    let mut fetched = Vec::new();
    while let Some((from, to)) = session.next_range() {
        assert!(to - from < 16);
        for height in from..=to {
            session.accept_block(height).unwrap();
            fetched.push(height);
        }
    }
    assert_eq!(fetched, (8..=50).collect::<Vec<u64>>());
}
