//! The node's network: its configuration, its peers, the signed messages it
//! exchanges, and the decisions it takes while talking to other nodes.
use vstd::prelude::*;

use crate::block::Block;
use crate::crypto::{
    ValidatorIdentity, decode_hex, ed25519_signature_of, signature_check, verify_signature,
};
use crate::error::{ErrorSpec, MiniChainError, outcome};
use crate::keyed::{
    keyed_map, lemma_keyed_index, lemma_keyed_len, lemma_keyed_push, lemma_keyed_update,
    unique_keys,
};
use crate::text::{TextKeyed, hex_decode, same_text, texts, utf8};
use crate::transaction::{
    Timestamp, Transaction, copy_bytes, current_time, random_id, same_bytes,
};

verus! {

/// A role that an API token grants.
#[derive(Clone, Copy, Debug, PartialEq, Eq, Structural)]
pub enum ApiRole {
    Viewer,
    Operator,
    Admin,
}

/// An API token: who holds it, the role it grants, and the SHA-256 digest of
/// the token, as hexadecimal text.
#[derive(Clone, Debug, PartialEq, Eq)]
pub struct ApiTokenConfig {
    pub identity: String,
    pub role: ApiRole,
    pub token_sha256: String,
}

/// The HTTP API of a node: where it listens, whom it serves, and its limits.
#[derive(Clone, Debug, PartialEq, Eq)]
pub struct ApiConfig {
    pub listen_address: String,
    pub allowed_origins: Vec<String>,
    pub max_body_bytes: usize,
    pub rate_window_ms: u64,
    pub read_requests_per_window: u32,
    pub write_requests_per_window: u32,
    pub admin_requests_per_window: u32,
    pub tokens: Vec<ApiTokenConfig>,
}

/// The digest that a token's text stands for: 32 bytes of hexadecimal text.
pub open spec fn token_digest(text: Seq<char>) -> Option<Seq<u8>> {
    match hex_decode(utf8(text)) {
        Some(bytes) => if bytes.len() == 32 {
            Some(bytes)
        } else {
            None
        },
        None => None,
    }
}

/// Whether tokens are usable: at least one, each with a holder and a digest,
/// and no holder or digest twice.
pub open spec fn tokens_valid(tokens: Seq<ApiTokenConfig>) -> bool {
    &&& tokens.len() > 0
    &&& forall|i: int|
        0 <= i < tokens.len() ==> (#[trigger] tokens[i]).identity@.len() > 0 && token_digest(
            tokens[i].token_sha256@,
        ) is Some
    &&& forall|i: int, j: int|
        0 <= i < j < tokens.len() ==> (#[trigger] tokens[i]).identity@ != (#[trigger] tokens[j]).identity@
            && token_digest(tokens[i].token_sha256@) != token_digest(tokens[j].token_sha256@)
}

/// Whether an API configuration is usable: an address, explicit origins
/// (no wildcard), positive limits, a rate window of at least 100 ms, and
/// valid tokens.
pub open spec fn api_config_valid(c: ApiConfig) -> bool {
    &&& c.listen_address@.len() > 0
    &&& c.allowed_origins@.len() > 0
    &&& !texts(c.allowed_origins@).contains("*"@)
    &&& c.max_body_bytes > 0
    &&& c.rate_window_ms >= 100
    &&& c.read_requests_per_window > 0
    &&& c.write_requests_per_window > 0
    &&& c.admin_requests_per_window > 0
    &&& tokens_valid(c.tokens@)
}

fn contains_digest(digests: &Vec<Vec<u8>>, digest: &Vec<u8>) -> (r: bool)
    ensures
        r == exists|k: int| 0 <= k < digests@.len() && (#[trigger] digests@[k])@ == digest@,
{
    let mut i: usize = 0;
    while i < digests.len()
        invariant
            i <= digests@.len(),
            forall|k: int| 0 <= k < i ==> (#[trigger] digests@[k])@ != digest@,
        decreases digests@.len() - i,
    {
        if same_bytes(digests[i].as_slice(), digest.as_slice()) {
            return true;
        }
        i = i + 1;
    }
    false
}

fn contains_text(items: &Vec<String>, s: &str) -> (r: bool)
    ensures
        r == texts(items@).contains(s@),
{
    let mut i: usize = 0;
    while i < items.len()
        invariant
            i <= items@.len(),
            forall|k: int| 0 <= k < i ==> items@[k]@ != s@,
        decreases items@.len() - i,
    {
        if same_text(items[i].as_str(), s) {
            assert(texts(items@)[i as int] == s@);
            return true;
        }
        i = i + 1;
    }
    proof {
        if texts(items@).contains(s@) {
            let k = choose|k: int| 0 <= k < texts(items@).len() && texts(items@)[k] == s@;
            assert(items@[k]@ == s@);
        }
    }
    false
}

/// Whether `tokens` are usable.
fn check_tokens(tokens: &Vec<ApiTokenConfig>) -> (r: bool)
    ensures
        r == tokens_valid(tokens@),
{
    if tokens.len() == 0 {
        return false;
    }
    let mut identities: Vec<String> = Vec::new();
    let mut digests: Vec<Vec<u8>> = Vec::new();
    let mut i: usize = 0;
    while i < tokens.len()
        invariant
            i <= tokens@.len(),
            tokens@.len() > 0,
            identities@.len() == i,
            digests@.len() == i,
            forall|k: int| 0 <= k < i ==> (#[trigger] identities@[k])@ == tokens@[k].identity@,
            forall|k: int|
                0 <= k < i ==> (#[trigger] tokens@[k]).identity@.len() > 0 && token_digest(
                    tokens@[k].token_sha256@,
                ) == Some(digests@[k]@),
            forall|k: int, j: int|
                0 <= k < j < i ==> (#[trigger] tokens@[k]).identity@ != (#[trigger] tokens@[j]).identity@
                    && token_digest(tokens@[k].token_sha256@) != token_digest(tokens@[j].token_sha256@),
        decreases tokens@.len() - i,
    {
        let token = &tokens[i];
        if token.identity.as_str().as_bytes().len() == 0 {
            proof {
                crate::text::lemma_text_empty_iff(token.identity@);
            }
            return false;
        }
        if contains_text(&identities, token.identity.as_str()) {
            proof {
                let k = choose|k: int| 0 <= k < texts(identities@).len() && texts(identities@)[k] == token.identity@;
                assert(identities@[k]@ == token.identity@);
                assert(tokens@[k].identity@ == tokens@[i as int].identity@);
            }
            return false;
        }
        let digest = match decode_hex(token.token_sha256.as_str()) {
            Ok(bytes) => bytes,
            Err(_) => {
                return false;
            },
        };
        if digest.len() != 32 {
            return false;
        }
        if contains_digest(&digests, &digest) {
            proof {
                let k = choose|k: int| 0 <= k < digests@.len() && (#[trigger] digests@[k])@ == digest@;
                assert(token_digest(tokens@[i as int].token_sha256@) == Some(digest@));
                assert(token_digest(tokens@[k].token_sha256@) == Some(digests@[k]@));
            }
            return false;
        }
        proof {
            crate::text::lemma_text_empty_iff(token.identity@);
            assert forall|k: int| 0 <= k < i implies tokens@[k].identity@ != token.identity@ by {
                assert(texts(identities@)[k] == identities@[k]@);
            }
            assert forall|k: int| 0 <= k < i implies token_digest(tokens@[k].token_sha256@) != token_digest(token.token_sha256@) by {
                assert(token_digest(tokens@[k].token_sha256@) == Some(digests@[k]@));
            }
        }
        identities.push(token.identity.clone());
        digests.push(digest);
        i = i + 1;
    }
    true
}

impl ApiConfig {
    /// Checks that this configuration is usable.
    pub fn validate(&self) -> (r: Result<(), MiniChainError>)
        ensures
            r is Ok <==> api_config_valid(*self),
            r matches Err(e) ==> e == MiniChainError::InvalidConfiguration,
    {
        let valid_tokens = check_tokens(&self.tokens);
        if self.listen_address.as_str().as_bytes().len() == 0 || self.allowed_origins.len() == 0
            || contains_text(&self.allowed_origins, "*") || self.max_body_bytes == 0
            || self.rate_window_ms < 100 || self.read_requests_per_window == 0
            || self.write_requests_per_window == 0 || self.admin_requests_per_window == 0
            || !valid_tokens {
            proof {
                crate::text::lemma_text_empty_iff(self.listen_address@);
            }
            return Err(MiniChainError::InvalidConfiguration);
        }
        proof {
            crate::text::lemma_text_empty_iff(self.listen_address@);
        }
        Ok(())
    }
}

/// A peer this node trusts: where it listens and its Ed25519 public key.
#[derive(Clone, Debug, PartialEq, Eq)]
pub struct TrustedPeer {
    pub address: String,
    pub public_key: Vec<u8>,
}

/// The configuration of a node.
#[derive(Clone, Debug)]
pub struct NodeConfig {
    pub node_id: String,
    pub listen_address: String,
    pub trusted_peers: Vec<(String, TrustedPeer)>,
    pub max_peers: usize,
    pub chain_id: u128,
    pub network_id: String,
    pub storage_path: String,
    pub identity_path: String,
    pub heartbeat_interval_ms: u64,
    pub api: Option<ApiConfig>,
}

/// The IDs of trusted peers.
pub open spec fn peer_ids(peers: Seq<(String, TrustedPeer)>) -> Seq<Seq<char>> {
    Seq::new(peers.len(), |i: int| peers[i].0@)
}

/// Whether a node configuration is usable: a node and network ID, room for
/// peers, a heartbeat of at least 100 ms, the node not among its own trusted
/// peers, and a usable API configuration if there is one.
pub open spec fn node_config_valid(c: NodeConfig) -> bool {
    &&& c.node_id@.len() > 0
    &&& c.network_id@.len() > 0
    &&& c.max_peers > 0
    &&& c.heartbeat_interval_ms >= 100
    &&& !peer_ids(c.trusted_peers@).contains(c.node_id@)
    &&& (c.api matches Some(api) ==> api_config_valid(api))
}

impl NodeConfig {
    /// Checks that this configuration is usable.
    pub fn validate(&self) -> (r: Result<(), MiniChainError>)
        ensures
            r is Ok <==> node_config_valid(*self),
            r matches Err(e) ==> e == MiniChainError::InvalidConfiguration,
    {
        proof {
            crate::text::lemma_text_empty_iff(self.node_id@);
            crate::text::lemma_text_empty_iff(self.network_id@);
        }
        if self.node_id.as_str().as_bytes().len() == 0 || self.network_id.as_str().as_bytes().len()
            == 0 || self.max_peers == 0 || self.heartbeat_interval_ms < 100 || self.trusted_peer(
            self.node_id.as_str(),
        ).is_some() {
            return Err(MiniChainError::InvalidConfiguration);
        }
        match &self.api {
            Some(api) => api.validate(),
            None => Ok(()),
        }
    }

    /// The configuration as it may be shown: the identity path and every API
    /// token digest replaced by a mask, everything else as it was.
    pub fn redacted(self) -> (shown: NodeConfig)
        ensures
            shown.identity_path@ == "********"@,
            shown.node_id == self.node_id,
            shown.listen_address == self.listen_address,
            shown.trusted_peers == self.trusted_peers,
            shown.max_peers == self.max_peers,
            shown.chain_id == self.chain_id,
            shown.network_id == self.network_id,
            shown.storage_path == self.storage_path,
            shown.heartbeat_interval_ms == self.heartbeat_interval_ms,
            shown.api is Some <==> self.api is Some,
            self.api matches Some(api) ==> shown.api matches Some(masked) && {
                &&& masked.listen_address == api.listen_address
                &&& masked.allowed_origins == api.allowed_origins
                &&& masked.max_body_bytes == api.max_body_bytes
                &&& masked.rate_window_ms == api.rate_window_ms
                &&& masked.read_requests_per_window == api.read_requests_per_window
                &&& masked.write_requests_per_window == api.write_requests_per_window
                &&& masked.admin_requests_per_window == api.admin_requests_per_window
                &&& masked.tokens@.len() == api.tokens@.len()
                &&& forall|i: int|
                    0 <= i < api.tokens@.len() ==> {
                        &&& (#[trigger] masked.tokens@[i]).identity == api.tokens@[i].identity
                        &&& masked.tokens@[i].role == api.tokens@[i].role
                        &&& masked.tokens@[i].token_sha256@ == "********"@
                    }
            },
    {
        let api = match self.api {
            Some(api) => {
                let mut tokens: Vec<ApiTokenConfig> = Vec::new();
                let mut rest = api.tokens;
                let ghost all = rest@;
                let ghost mut i: int = 0;
                while rest.len() > 0
                    invariant
                        0 <= i <= all.len(),
                        rest@ == all.subrange(i, all.len() as int),
                        tokens@.len() == i,
                        forall|k: int|
                            0 <= k < i ==> {
                                &&& (#[trigger] tokens@[k]).identity == all[k].identity
                                &&& tokens@[k].role == all[k].role
                                &&& tokens@[k].token_sha256@ == "********"@
                            },
                    decreases rest@.len(),
                {
                    let token = rest.remove(0);
                    proof {
                        assert(token == all[i]);
                        assert(rest@ =~= all.subrange(i + 1, all.len() as int));
                    }
                    tokens.push(
                        ApiTokenConfig {
                            identity: token.identity,
                            role: token.role,
                            token_sha256: "********".to_string(),
                        },
                    );
                    proof {
                        reveal_strlit("********");
                        i = i + 1;
                    }
                }
                Some(
                    ApiConfig {
                        listen_address: api.listen_address,
                        allowed_origins: api.allowed_origins,
                        max_body_bytes: api.max_body_bytes,
                        rate_window_ms: api.rate_window_ms,
                        read_requests_per_window: api.read_requests_per_window,
                        write_requests_per_window: api.write_requests_per_window,
                        admin_requests_per_window: api.admin_requests_per_window,
                        tokens,
                    },
                )
            },
            None => None,
        };
        NodeConfig {
            node_id: self.node_id,
            listen_address: self.listen_address,
            trusted_peers: self.trusted_peers,
            max_peers: self.max_peers,
            chain_id: self.chain_id,
            network_id: self.network_id,
            storage_path: self.storage_path,
            identity_path: "********".to_string(),
            heartbeat_interval_ms: self.heartbeat_interval_ms,
            api,
        }
    }

    /// The trusted peer with `id`, if any.
    pub fn trusted_peer(&self, id: &str) -> (r: Option<&TrustedPeer>)
        ensures
            r is Some <==> peer_ids(self.trusted_peers@).contains(id@),
            r matches Some(p) ==> exists|i: int|
                0 <= i < self.trusted_peers@.len() && self.trusted_peers@[i].0@ == id@
                    && self.trusted_peers@[i].1 == *p,
    {
        let mut i: usize = 0;
        while i < self.trusted_peers.len()
            invariant
                i <= self.trusted_peers@.len(),
                forall|k: int| 0 <= k < i ==> self.trusted_peers@[k].0@ != id@,
            decreases self.trusted_peers@.len() - i,
        {
            if same_text(self.trusted_peers[i].0.as_str(), id) {
                assert(peer_ids(self.trusted_peers@)[i as int] == id@);
                return Some(&self.trusted_peers[i].1);
            }
            i = i + 1;
        }
        proof {
            if peer_ids(self.trusted_peers@).contains(id@) {
                let k = choose|k: int|
                    0 <= k < peer_ids(self.trusted_peers@).len() && peer_ids(self.trusted_peers@)[k]
                        == id@;
                assert(self.trusted_peers@[k].0@ == id@);
            }
        }
        None
    }
}

/// The version of the peer protocol.
pub const PROTOCOL_VERSION: u16 = 1;

/// The largest frame a peer may send, in bytes.
pub const MAX_MESSAGE_BYTES: usize = 1048576;

/// The most blocks one sync request may ask for.
pub const MAX_SYNC_BLOCKS: u64 = 16;

/// What a node reports of itself.
#[derive(Clone, Debug, PartialEq, Eq)]
pub struct NetworkStatus {
    pub node_id: String,
    pub height: u64,
    pub latest_hash: String,
    pub protocol_version: u16,
}

/// Checks the length of a frame before it is read or written.
pub fn check_frame_length(length: usize) -> (r: Result<(), MiniChainError>)
    ensures
        r is Ok <==> length <= MAX_MESSAGE_BYTES,
        r matches Err(e) ==> e == (MiniChainError::MessageTooLarge { limit: MAX_MESSAGE_BYTES }),
{
    if length > MAX_MESSAGE_BYTES {
        return Err(MiniChainError::MessageTooLarge { limit: MAX_MESSAGE_BYTES });
    }
    Ok(())
}

/// Checks a peer's request for the blocks from `from_height` to `to_height`:
/// a proper range of at most `MAX_SYNC_BLOCKS` blocks.
pub fn check_sync_request(from_height: u64, to_height: u64) -> (r: Result<(), MiniChainError>)
    ensures
        r is Ok <==> from_height <= to_height && to_height - from_height + 1 <= MAX_SYNC_BLOCKS,
        r matches Err(e) ==> e == MiniChainError::InvalidMessage,
{
    if from_height > to_height || to_height - from_height >= MAX_SYNC_BLOCKS {
        return Err(MiniChainError::InvalidMessage);
    }
    Ok(())
}

/// How far a node is from the chain of a peer.
#[derive(Clone, Copy, Debug, PartialEq, Eq, Structural)]
pub enum SyncState {
    Synced,
    Behind,
    Syncing,
    Diverged,
    Offline,
    Failed,
}

/// The state of the connection to a peer.
#[derive(Clone, Copy, Debug, PartialEq, Eq, Structural)]
pub enum PeerState {
    Disconnected,
    Connecting,
    Authenticating,
    Ready,
    Syncing,
    Failed,
}

/// What a node knows of a connected peer.
#[derive(Debug, PartialEq, Eq)]
pub struct Peer {
    pub id: String,
    pub address: String,
    pub state: PeerState,
    pub last_heartbeat: Option<Timestamp>,
    pub height: u64,
    pub latest_hash: String,
    pub protocol_version: u16,
    pub connected_at: Timestamp,
    pub latency_ms: Option<u64>,
    pub failure_count: u32,
}

/// The value of a peer.
pub struct PeerView {
    pub id: Seq<char>,
    pub address: Seq<char>,
    pub state: PeerState,
    pub last_heartbeat: Option<Timestamp>,
    pub height: u64,
    pub latest_hash: Seq<char>,
    pub protocol_version: u16,
    pub connected_at: Timestamp,
    pub latency_ms: Option<u64>,
    pub failure_count: u32,
}

impl View for Peer {
    type V = PeerView;

    open spec fn view(&self) -> PeerView {
        PeerView {
            id: self.id@,
            address: self.address@,
            state: self.state,
            last_heartbeat: self.last_heartbeat,
            height: self.height,
            latest_hash: self.latest_hash@,
            protocol_version: self.protocol_version,
            connected_at: self.connected_at,
            latency_ms: self.latency_ms,
            failure_count: self.failure_count,
        }
    }
}

/// Peers are listed by node ID.
impl TextKeyed for Peer {
    open spec fn text_key(&self) -> Seq<char> {
        self.id@
    }

    fn key(&self) -> (k: &str) {
        self.id.as_str()
    }
}

impl Clone for Peer {
    fn clone(&self) -> (r: Self)
        ensures
            r@ == self@,
    {
        Peer {
            id: self.id.clone(),
            address: self.address.clone(),
            state: self.state,
            last_heartbeat: self.last_heartbeat,
            height: self.height,
            latest_hash: self.latest_hash.clone(),
            protocol_version: self.protocol_version,
            connected_at: self.connected_at,
            latency_ms: self.latency_ms,
            failure_count: self.failure_count,
        }
    }
}

/// The key of a peer: its node ID.
pub open spec fn peer_key() -> spec_fn(PeerView) -> Seq<char> {
    |p: PeerView| p.id
}

/// The values of a sequence of peers.
pub open spec fn peers_view(peers: Seq<Peer>) -> Seq<PeerView> {
    Seq::new(peers.len(), |i: int| peers[i]@)
}

/// The peer that a successful handshake with `status` records.
pub open spec fn connected_peer(
    status: NetworkStatus,
    address: Seq<char>,
    state: PeerState,
    now: Timestamp,
) -> PeerView {
    PeerView {
        id: status.node_id@,
        address,
        state,
        last_heartbeat: Some(now),
        height: status.height,
        latest_hash: status.latest_hash@,
        protocol_version: status.protocol_version,
        connected_at: now,
        latency_ms: None,
        failure_count: 0,
    }
}

/// The peers a node is connected to, by node ID.
#[derive(Debug)]
pub struct PeerTable {
    peers: Vec<Peer>,
}

impl View for PeerTable {
    type V = Map<Seq<char>, PeerView>;

    closed spec fn view(&self) -> Map<Seq<char>, PeerView> {
        keyed_map(peers_view(self.peers@), peer_key())
    }
}

impl PeerTable {
    /// Well-formedness: one entry per peer.
    pub closed spec fn valid(&self) -> bool {
        unique_keys(peers_view(self.peers@), peer_key())
    }

    /// No peers.
    pub fn new() -> (t: Self)
        ensures
            t.valid(),
            t@ == Map::<Seq<char>, PeerView>::empty(),
    {
        let t = PeerTable { peers: Vec::new() };
        assert(t@ =~= Map::<Seq<char>, PeerView>::empty());
        t
    }

    /// The peers, in the order they first connected.
    pub fn peers(&self) -> (r: &[Peer])
        requires
            self.valid(),
        ensures
            keyed_map(peers_view(r@), peer_key()) == self@,
    {
        self.peers.as_slice()
    }

    /// The number of peers.
    pub fn len(&self) -> (n: usize)
        requires
            self.valid(),
        ensures
            n == self@.len(),
    {
        proof {
            lemma_keyed_len(peers_view(self.peers@), peer_key());
        }
        self.peers.len()
    }

    fn position(&self, id: &str) -> (r: Option<usize>)
        requires
            self.valid(),
        ensures
            r is None <==> !self@.contains_key(id@),
            r matches Some(i) ==> i < self.peers@.len() && self.peers@[i as int]@.id == id@
                && self@[id@] == self.peers@[i as int]@,
    {
        let ghost all = peers_view(self.peers@);
        let mut i: usize = 0;
        while i < self.peers.len()
            invariant
                all == peers_view(self.peers@),
                unique_keys(all, peer_key()),
                i <= self.peers@.len(),
                forall|k: int| 0 <= k < i ==> self.peers@[k]@.id != id@,
            decreases self.peers@.len() - i,
        {
            if same_text(self.peers[i].id.as_str(), id) {
                proof {
                    lemma_keyed_index(all, peer_key());
                    assert(all[i as int] == self.peers@[i as int]@);
                }
                return Some(i);
            }
            i = i + 1;
        }
        proof {
            if self@.contains_key(id@) {
                let k = choose|k: int| 0 <= k < all.len() && peer_key()(#[trigger] all[k]) == id@;
                assert(all[k] == self.peers@[k]@);
            }
        }
        None
    }

    /// The peer with `id`, if connected.
    pub fn get(&self, id: &str) -> (r: Option<&Peer>)
        requires
            self.valid(),
        ensures
            r is Some <==> self@.contains_key(id@),
            r matches Some(p) ==> p@ == self@[id@],
    {
        match self.position(id) {
            Some(i) => Some(&self.peers[i]),
            None => None,
        }
    }

    fn put(&mut self, peer: Peer)
        requires
            old(self).valid(),
        ensures
            final(self).valid(),
            final(self)@ == old(self)@.insert(peer@.id, peer@),
    {
        let ghost before = peers_view(self.peers@);
        let ghost v = peer@;
        match self.position(peer.id.as_str()) {
            Some(i) => {
                self.peers.set(i, peer);
                proof {
                    assert(peers_view(self.peers@) =~= before.update(i as int, v));
                    lemma_keyed_update(before, peer_key(), i as int, v);
                }
            },
            None => {
                self.peers.push(peer);
                proof {
                    assert(peers_view(self.peers@) =~= before.push(v));
                    lemma_keyed_push(before, peer_key(), v);
                }
            },
        }
    }

    /// Records a peer after a handshake at `now`: it must be trusted, and a
    /// new peer needs room under the configured maximum.
    pub fn update(&mut self, config: &NodeConfig, status: &NetworkStatus, state: PeerState, now: Timestamp) -> (r:
        Result<(), MiniChainError>)
        requires
            old(self).valid(),
        ensures
            final(self).valid(),
            !peer_ids(config.trusted_peers@).contains(status.node_id@) ==> (r matches Err(e) && e@
                == (ErrorSpec::InvalidPeerIdentity { peer: status.node_id@ })),
            peer_ids(config.trusted_peers@).contains(status.node_id@) && !old(self)@.contains_key(
                status.node_id@,
            ) && old(self)@.len() >= config.max_peers ==> (r matches Err(e) && e@
                == (ErrorSpec::PeerUnavailable { peer: status.node_id@ })),
            r is Ok <==> peer_ids(config.trusted_peers@).contains(status.node_id@) && (old(
                self,
            )@.contains_key(status.node_id@) || old(self)@.len() < config.max_peers),
            r is Ok ==> exists|i: int|
                0 <= i < config.trusted_peers@.len() && config.trusted_peers@[i].0@ == status.node_id@
                    && final(self)@ == old(self)@.insert(
                    status.node_id@,
                    connected_peer(*status, config.trusted_peers@[i].1.address@, state, now),
                ),
            r is Err ==> final(self)@ == old(self)@,
    {
        let trusted = match config.trusted_peer(status.node_id.as_str()) {
            Some(t) => t,
            None => {
                return Err(MiniChainError::InvalidPeerIdentity { peer: status.node_id.clone() });
            },
        };
        let known = self.position(status.node_id.as_str()).is_some();
        if !known && self.len() >= config.max_peers {
            return Err(MiniChainError::PeerUnavailable { peer: status.node_id.clone() });
        }
        self.put(
            Peer {
                id: status.node_id.clone(),
                address: trusted.address.clone(),
                state,
                last_heartbeat: Some(now),
                height: status.height,
                latest_hash: status.latest_hash.clone(),
                protocol_version: status.protocol_version,
                connected_at: now,
                latency_ms: None,
                failure_count: 0,
            },
        );
        Ok(())
    }

    /// Sets the state of the peer with `id`, if connected.
    pub fn set_state(&mut self, id: &str, state: PeerState)
        requires
            old(self).valid(),
        ensures
            final(self).valid(),
            old(self)@.contains_key(id@) ==> final(self)@ == old(self)@.insert(
                id@,
                (PeerView { state, ..old(self)@[id@] }),
            ),
            !old(self)@.contains_key(id@) ==> final(self)@ == old(self)@,
    {
        match self.position(id) {
            Some(i) => {
                let mut peer = self.peers[i].clone();
                peer.state = state;
                self.put(peer);
            },
            None => {},
        }
    }

    /// Marks the peer with `id` failed, counting the failure (saturating).
    pub fn mark_failed(&mut self, id: &str)
        requires
            old(self).valid(),
        ensures
            final(self).valid(),
            old(self)@.contains_key(id@) ==> final(self)@ == old(self)@.insert(
                id@,
                (PeerView {
                    state: PeerState::Failed,
                    failure_count: if old(self)@[id@].failure_count == u32::MAX {
                        u32::MAX
                    } else {
                        (old(self)@[id@].failure_count + 1) as u32
                    },
                    ..old(self)@[id@]
                }),
            ),
            !old(self)@.contains_key(id@) ==> final(self)@ == old(self)@,
    {
        match self.position(id) {
            Some(i) => {
                let mut peer = self.peers[i].clone();
                peer.state = PeerState::Failed;
                peer.failure_count = peer.failure_count.saturating_add(1);
                self.put(peer);
            },
            None => {},
        }
    }

    /// Records an answered heartbeat of the peer with `id` at `now`.
    pub fn record_heartbeat(&mut self, id: &str, now: Timestamp, latency_ms: u64)
        requires
            old(self).valid(),
        ensures
            final(self).valid(),
            old(self)@.contains_key(id@) ==> final(self)@ == old(self)@.insert(
                id@,
                (PeerView {
                    last_heartbeat: Some(now),
                    latency_ms: Some(latency_ms),
                    failure_count: 0,
                    state: PeerState::Ready,
                    ..old(self)@[id@]
                }),
            ),
            !old(self)@.contains_key(id@) ==> final(self)@ == old(self)@,
    {
        match self.position(id) {
            Some(i) => {
                let mut peer = self.peers[i].clone();
                peer.last_heartbeat = Some(now);
                peer.latency_ms = Some(latency_ms);
                peer.failure_count = 0;
                peer.state = PeerState::Ready;
                self.put(peer);
            },
            None => {},
        }
    }
}

/// The IDs of recently seen messages, oldest first, kept up to a capacity.
#[derive(Debug)]
pub struct SeenMessages {
    order: Vec<u128>,
    capacity: usize,
}

impl View for SeenMessages {
    type V = Seq<u128>;

    closed spec fn view(&self) -> Seq<u128> {
        self.order@
    }
}

impl SeenMessages {
    /// The most IDs remembered.
    pub closed spec fn capacity(&self) -> usize {
        self.capacity
    }

    /// Well-formedness: no ID twice, and no more IDs than the capacity.
    pub closed spec fn valid(&self) -> bool {
        self.order@.no_duplicates() && self.order@.len() <= self.capacity
    }

    /// Remembers nothing yet.
    pub fn new(capacity: usize) -> (s: Self)
        ensures
            s.valid(),
            s@ == Seq::<u128>::empty(),
            s.capacity() == capacity,
    {
        SeenMessages { order: Vec::new(), capacity }
    }

    /// Whether `id` is remembered.
    pub fn contains(&self, id: u128) -> (r: bool)
        ensures
            r == self@.contains(id),
    {
        let mut i: usize = 0;
        while i < self.order.len()
            invariant
                i <= self.order@.len(),
                forall|k: int| 0 <= k < i ==> self.order@[k] != id,
            decreases self.order@.len() - i,
        {
            if self.order[i] == id {
                return true;
            }
            i = i + 1;
        }
        false
    }

    /// Remembers `id` and says whether it is new; a new ID past the capacity
    /// pushes out the oldest.
    pub fn insert(&mut self, id: u128) -> (fresh: bool)
        requires
            old(self).valid(),
        ensures
            final(self).valid(),
            final(self).capacity() == old(self).capacity(),
            fresh == !old(self)@.contains(id),
            !fresh ==> final(self)@ == old(self)@,
            fresh && old(self)@.len() + 1 > old(self).capacity() ==> final(self)@ == old(
                self,
            )@.push(id).drop_first(),
            fresh && old(self)@.len() + 1 <= old(self).capacity() ==> final(self)@ == old(
                self,
            )@.push(id),
            old(self).capacity() > 0 ==> final(self)@.contains(id),
    {
        if self.contains(id) {
            return false;
        }
        let ghost before = self.order@;
        self.order.push(id);
        proof {
            assert forall|a: int, b: int|
                0 <= a < self.order@.len() && 0 <= b < self.order@.len() && a != b implies self.order@[a]
                != self.order@[b] by {
                if a < before.len() && b < before.len() {
                } else if a < before.len() {
                    assert(before[a] != id);
                } else {
                    assert(before[b] != id);
                }
            }
        }
        if self.order.len() > self.capacity {
            self.order.remove(0);
            assert(before.push(id).remove(0) =~= before.push(id).drop_first());
            if self.capacity > 0 {
                assert(self.order@[self.order@.len() - 1] == id);
            }
        } else {
            assert(self.order@[self.order@.len() - 1] == id);
        }
        true
    }
}

/// What one node says to another.
#[derive(Debug)]
pub enum MessagePayload {
    Hello { listen_address: String, status: NetworkStatus },
    HelloAck { status: NetworkStatus },
    Ping { nonce: u128 },
    Pong { nonce: u128 },
    GetStatus,
    Status(NetworkStatus),
    Transaction(Transaction),
    Block(Block),
    SyncRequest { from_height: u64, to_height: u64 },
    SyncResponse { blocks: Vec<Block> },
    Reject { reason: String },
}

/// A signed message: protocol version, ID, sender, time and payload, with
/// the sender's signature over their serialized form.
#[derive(Debug)]
pub struct Envelope {
    pub version: u16,
    pub message_id: u128,
    pub sender: String,
    pub timestamp: Timestamp,
    pub payload: MessagePayload,
    pub signature: Vec<u8>,
}

/// An instant in nanoseconds since the Unix epoch.
pub open spec fn instant_nanos(t: Timestamp) -> int {
    t.seconds * 1_000_000_000 + t.nanos
}

/// The longest a message may be early or late: five minutes, in nanoseconds.
pub open spec fn max_clock_skew_nanos() -> int {
    300_000_000_000
}

/// The outcome of checking envelope `e`, whose signed fields serialize to
/// `signed`, as a message from `expected_sender` with `public_key`, at `now`.
pub open spec fn envelope_check(
    e: &Envelope,
    expected_sender: Seq<char>,
    public_key: Seq<u8>,
    now: Timestamp,
    signed: Seq<u8>,
) -> Result<(), ErrorSpec> {
    let skew = instant_nanos(now) - instant_nanos(e.timestamp);
    if e.version != PROTOCOL_VERSION {
        Err(ErrorSpec::ProtocolMismatch { version: e.version })
    } else if e.sender@ != expected_sender {
        Err(ErrorSpec::InvalidPeerIdentity { peer: e.sender@ })
    } else if skew > max_clock_skew_nanos() || -skew > max_clock_skew_nanos() {
        Err(ErrorSpec::InvalidMessage)
    } else {
        signature_check(public_key, signed, e.signature@)
    }
}

/// A message is accepted only within five minutes of its stated time, on
/// either side: one sent more than five minutes before `now`, or dated more
/// than five minutes after it, is refused as an invalid message (once its
/// version and sender are right); an accepted one lies within that window,
/// and has the current protocol version and the expected sender.
pub proof fn lemma_envelope_time_window(
    e: &Envelope,
    expected_sender: Seq<char>,
    public_key: Seq<u8>,
    now: Timestamp,
    signed: Seq<u8>,
)
    ensures
        ({
            let now_ns = now.seconds * 1_000_000_000 + now.nanos;
            let sent_ns = e.timestamp.seconds * 1_000_000_000 + e.timestamp.nanos;
            let r = envelope_check(e, expected_sender, public_key, now, signed);
            &&& r is Ok ==> now_ns - sent_ns <= 300_000_000_000 && sent_ns - now_ns
                <= 300_000_000_000
            &&& r is Ok ==> e.version == PROTOCOL_VERSION && e.sender@ == expected_sender
            &&& e.version == PROTOCOL_VERSION && e.sender@ == expected_sender && (now_ns - sent_ns
                > 300_000_000_000 || sent_ns - now_ns > 300_000_000_000) ==> r == Err::<
                (),
                ErrorSpec,
            >(ErrorSpec::InvalidMessage)
        }),
{
}

impl Envelope {
    /// An envelope of `payload` from `identity`, with a fresh ID and the
    /// current time, not yet signed.
    pub fn unsigned(payload: MessagePayload, identity: &ValidatorIdentity) -> (e: Self)
        ensures
            e.version == PROTOCOL_VERSION,
            e.sender@ == identity.id(),
            e.payload == payload,
            e.signature@.len() == 0,
    {
        Envelope {
            version: PROTOCOL_VERSION,
            message_id: random_id(),
            sender: identity.validator_id().to_owned(),
            timestamp: current_time(),
            payload,
            signature: Vec::new(),
        }
    }

    /// Signs the envelope's fields, serialized as `signed`, with `identity`.
    pub fn sign(&mut self, identity: &ValidatorIdentity, signed: &[u8])
        ensures
            final(self).signature@ == ed25519_signature_of(identity.secret_key(), signed@),
            final(self).version == old(self).version,
            final(self).message_id == old(self).message_id,
            final(self).sender == old(self).sender,
            final(self).timestamp == old(self).timestamp,
            final(self).payload == old(self).payload,
    {
        let signature = identity.sign(signed);
        self.signature = copy_bytes(&signature);
    }

    /// Checks the envelope, whose signed fields serialize to `signed`, as a
    /// message from `expected_sender` with `public_key`, received at `now`.
    pub fn verify_at(&self, expected_sender: &str, public_key: &[u8], now: Timestamp, signed: &[u8]) -> (r:
        Result<(), MiniChainError>)
        ensures
            outcome(r) == envelope_check(self, expected_sender@, public_key@, now, signed@),
            r is Ok ==> now.seconds * 1_000_000_000 + now.nanos - (self.timestamp.seconds
                * 1_000_000_000 + self.timestamp.nanos) <= 300_000_000_000,
            r is Ok ==> self.timestamp.seconds * 1_000_000_000 + self.timestamp.nanos - (
            now.seconds * 1_000_000_000 + now.nanos) <= 300_000_000_000,
    {
        proof {
            lemma_envelope_time_window(self, expected_sender@, public_key@, now, signed@);
        }
        if self.version != PROTOCOL_VERSION {
            return Err(MiniChainError::ProtocolMismatch { version: self.version });
        }
        if !same_text(self.sender.as_str(), expected_sender) {
            return Err(MiniChainError::InvalidPeerIdentity { peer: self.sender.clone() });
        }
        let now_nanos: i128 = now.seconds as i128 * 1_000_000_000 + now.nanos as i128;
        let sent_nanos: i128 = self.timestamp.seconds as i128 * 1_000_000_000
            + self.timestamp.nanos as i128;
        let skew: i128 = now_nanos - sent_nanos;
        if skew > 300_000_000_000 || -skew > 300_000_000_000 {
            return Err(MiniChainError::InvalidMessage);
        }
        verify_signature(public_key, signed, self.signature.as_slice())
    }

    /// Checks the envelope as received now (by the system clock).
    pub fn verify(&self, expected_sender: &str, public_key: &[u8], signed: &[u8]) -> (r: Result<
        (),
        MiniChainError,
    >)
        ensures
            exists|now: Timestamp|
                outcome(r) == envelope_check(self, expected_sender@, public_key@, now, signed@),
    {
        let now = current_time();
        self.verify_at(expected_sender, public_key, now, signed)
    }
}

/// Checks a received envelope, whose signed fields serialize to `signed`:
/// its sender must be a trusted peer, and it must verify under that peer's key.
pub fn authenticate(config: &NodeConfig, envelope: &Envelope, now: Timestamp, signed: &[u8]) -> (r:
    Result<(), MiniChainError>)
    ensures
        !peer_ids(config.trusted_peers@).contains(envelope.sender@) ==> (r matches Err(e) && e@
            == (ErrorSpec::InvalidPeerIdentity { peer: envelope.sender@ })),
        peer_ids(config.trusted_peers@).contains(envelope.sender@) ==> exists|i: int|
            0 <= i < config.trusted_peers@.len() && config.trusted_peers@[i].0@ == envelope.sender@
                && outcome(r) == envelope_check(
                envelope,
                envelope.sender@,
                config.trusted_peers@[i].1.public_key@,
                now,
                signed@,
            ),
{
    match config.trusted_peer(envelope.sender.as_str()) {
        Some(trusted) => envelope.verify_at(
            envelope.sender.as_str(),
            trusted.public_key.as_slice(),
            now,
            signed,
        ),
        None => Err(MiniChainError::InvalidPeerIdentity { peer: envelope.sender.clone() }),
    }
}

/// Checks that a node's configuration names the identity it runs with and
/// leaves room for peers.
pub fn check_node_identity(config: &NodeConfig, identity: &ValidatorIdentity) -> (r: Result<
    (),
    MiniChainError,
>)
    ensures
        r is Ok <==> config.node_id@ == identity.id() && config.max_peers > 0,
        r matches Err(e) ==> e@ == (ErrorSpec::InvalidPeerIdentity { peer: config.node_id@ }),
{
    if !same_text(config.node_id.as_str(), identity.validator_id()) || config.max_peers == 0 {
        return Err(MiniChainError::InvalidPeerIdentity { peer: config.node_id.clone() });
    }
    Ok(())
}

/// Checks that a status reported in a handshake comes from the expected node.
pub fn check_status_sender(status: &NetworkStatus, expected: &str) -> (r: Result<(), MiniChainError>)
    ensures
        r is Ok <==> status.node_id@ == expected@,
        r matches Err(e) ==> e@ == (ErrorSpec::InvalidPeerIdentity { peer: status.node_id@ }),
{
    if !same_text(status.node_id.as_str(), expected) {
        return Err(MiniChainError::InvalidPeerIdentity { peer: status.node_id.clone() });
    }
    Ok(())
}

/// Checks that a heartbeat was answered with the nonce it carried.
pub fn check_pong(response: &MessagePayload, nonce: u128) -> (r: Result<(), MiniChainError>)
    ensures
        r is Ok <==> (*response matches MessagePayload::Pong { nonce: n } && n == nonce),
        r matches Err(e) ==> e == MiniChainError::InvalidMessage,
{
    match response {
        MessagePayload::Pong { nonce: n } => if *n == nonce {
            Ok(())
        } else {
            Err(MiniChainError::InvalidMessage)
        },
        _ => Err(MiniChainError::InvalidMessage),
    }
}

/// The status a request was answered with; anything else is refused.
pub fn expect_status(response: MessagePayload) -> (r: Result<NetworkStatus, MiniChainError>)
    ensures
        response matches MessagePayload::Status(s) ==> r == Ok::<NetworkStatus, MiniChainError>(s),
        !(response is Status) ==> r == Err::<NetworkStatus, MiniChainError>(
            MiniChainError::InvalidMessage,
        ),
{
    match response {
        MessagePayload::Status(status) => Ok(status),
        _ => Err(MiniChainError::InvalidMessage),
    }
}

/// Where a received block stands against the local chain.
#[derive(Clone, Copy, Debug, PartialEq, Eq, Structural)]
pub enum BlockArrival {
    /// At or below the local height: it must match the stored block.
    Known,
    /// The next block: it is committed.
    Next,
    /// Beyond the next block: the node must sync first.
    Ahead,
}

/// Where a block at `index` stands against local height `local_height`.
pub fn classify_block(index: u64, local_height: u64) -> (a: BlockArrival)
    ensures
        a == BlockArrival::Known <==> index <= local_height,
        a == BlockArrival::Next <==> index == local_height + 1,
        a == BlockArrival::Ahead <==> index > local_height + 1,
{
    if index <= local_height {
        BlockArrival::Known
    } else if index - 1 == local_height {
        BlockArrival::Next
    } else {
        BlockArrival::Ahead
    }
}

/// Checks that a block received for a known height is the stored one.
pub fn check_known_block(stored_hash: &str, received_hash: &str, height: u64) -> (r: Result<
    (),
    MiniChainError,
>)
    ensures
        r is Ok <==> stored_hash@ == received_hash@,
        r matches Err(e) ==> e == (MiniChainError::DivergenceDetected { height }),
{
    if !same_text(stored_hash, received_hash) {
        return Err(MiniChainError::DivergenceDetected { height });
    }
    Ok(())
}

/// The first step of syncing from a peer.
#[derive(Debug)]
pub enum SyncStart {
    /// Nothing to fetch: the peer is at the same block, or behind.
    UpToDate,
    /// Same height, different newest block.
    Diverged { height: u64 },
    /// The peer is ahead: fetch its blocks.
    Fetch(SyncSession),
}

/// Fetching a peer's blocks in batches: the next height wanted and the
/// peer's height.
#[derive(Debug)]
pub struct SyncSession {
    next: u128,
    target: u64,
}

impl SyncSession {
    /// The next height wanted.
    pub closed spec fn next(&self) -> int {
        self.next as int
    }

    /// The peer's height.
    pub closed spec fn target(&self) -> int {
        self.target as int
    }

    /// Well-formedness: the next height is at most one past the peer's.
    pub closed spec fn valid(&self) -> bool {
        self.next <= self.target + 1
    }
}

/// Decides how to sync with a peer, given the local and the peer's status.
pub fn start_sync(local: &NetworkStatus, remote: &NetworkStatus) -> (s: SyncStart)
    ensures
        remote.height == local.height && remote.latest_hash@ != local.latest_hash@ ==> s
            == (SyncStart::Diverged { height: local.height }),
        remote.height == local.height && remote.latest_hash@ == local.latest_hash@ ==> s
            is UpToDate,
        remote.height < local.height ==> s is UpToDate,
        remote.height > local.height ==> (s matches SyncStart::Fetch(session) && session.valid()
            && session.next() == local.height + 1 && session.target() == remote.height),
{
    if remote.height == local.height {
        if !same_text(remote.latest_hash.as_str(), local.latest_hash.as_str()) {
            return SyncStart::Diverged { height: local.height };
        }
        return SyncStart::UpToDate;
    }
    if remote.height < local.height {
        return SyncStart::UpToDate;
    }
    SyncStart::Fetch(SyncSession { next: local.height as u128 + 1, target: remote.height })
}

/// The height ranges a sync session requests to fetch heights `next` to
/// `target`: consecutive batches of at most `MAX_SYNC_BLOCKS` heights.
pub open spec fn sync_ranges(next: int, target: int) -> Seq<(int, int)>
    decreases target - next + 1,
{
    if next > target {
        seq![]
    } else {
        let to = if next + MAX_SYNC_BLOCKS - 1 <= target {
            next + MAX_SYNC_BLOCKS - 1
        } else {
            target
        };
        seq![(next, to)] + sync_ranges(to + 1, target)
    }
}

/// A sync session fetches exactly the heights from its next one to the
/// peer's, in increasing order: its requests are consecutive ranges that
/// start at the next height, end at the peer's height, and span at most
/// `MAX_SYNC_BLOCKS` heights each; once the first range is fetched, the
/// rest of the requests are those of a session starting after it.
pub proof fn lemma_sync_ranges_cover(next: int, target: int)
    requires
        next <= target + 1,
    ensures
        ({
            let rs = sync_ranges(next, target);
            &&& rs.len() == 0 <==> next > target
            &&& forall|k: int|
                0 <= k < rs.len() ==> (#[trigger] rs[k]).0 <= rs[k].1 && rs[k].1 - rs[k].0 + 1
                    <= MAX_SYNC_BLOCKS
            &&& forall|k: int| 0 <= k < rs.len() - 1 ==> (#[trigger] rs[k + 1]).0 == rs[k].1 + 1
            &&& rs.len() > 0 ==> rs[0].0 == next && rs.last().1 == target
            &&& rs.len() > 0 ==> rs.drop_first() == sync_ranges(rs[0].1 + 1, target)
        }),
    decreases target - next + 1,
{
    let rs = sync_ranges(next, target);
    if next <= target {
        let to = if next + MAX_SYNC_BLOCKS - 1 <= target {
            next + MAX_SYNC_BLOCKS - 1
        } else {
            target
        };
        let rest = sync_ranges(to + 1, target);
        lemma_sync_ranges_cover(to + 1, target);
        assert(rs == seq![(next, to)] + rest);
        assert(rs.drop_first() =~= rest);
        assert forall|k: int| 0 <= k < rs.len() implies (#[trigger] rs[k]).0 <= rs[k].1 && rs[k].1
            - rs[k].0 + 1 <= MAX_SYNC_BLOCKS by {
            if k > 0 {
                assert(rs[k] == rest[k - 1]);
            }
        }
        assert forall|k: int| 0 <= k < rs.len() - 1 implies (#[trigger] rs[k + 1]).0 == rs[k].1 + 1 by {
            assert(rs[k + 1] == rest[k]);
            if k > 0 {
                assert(rs[k] == rest[k - 1]);
            }
        }
        if rest.len() > 0 {
            assert(rs.last() == rest.last());
        }
    }
}

impl SyncSession {
    /// The heights to request next: up to `MAX_SYNC_BLOCKS` from the next
    /// wanted, never past the peer's height; none once everything is fetched.
    pub fn next_range(&self) -> (r: Option<(u64, u64)>)
        requires
            self.valid(),
        ensures
            self.next() > self.target() ==> r is None,
            r matches Some((from, to)) ==> sync_ranges(self.next(), self.target())[0] == (
                from as int,
                to as int,
            ),
            self.next() <= self.target() ==> (r matches Some((from, to)) && from == self.next() && to
                == (if self.next() + MAX_SYNC_BLOCKS - 1 <= self.target() {
                self.next() + MAX_SYNC_BLOCKS - 1
            } else {
                self.target()
            })),
    {
        if self.next > self.target as u128 {
            return None;
        }
        let from = self.next as u64;
        let to = if self.target - from >= MAX_SYNC_BLOCKS - 1 {
            from + (MAX_SYNC_BLOCKS - 1)
        } else {
            self.target
        };
        Some((from, to))
    }

    /// Checks that a batch answering the request for `from..=to` holds one
    /// block per height.
    pub fn check_batch(&self, from: u64, to: u64, count: usize) -> (r: Result<(), MiniChainError>)
        requires
            from <= to,
        ensures
            r is Ok <==> count == to - from + 1,
            r matches Err(e) ==> e == MiniChainError::SyncFailed,
    {
        if count as u128 != (to - from) as u128 + 1 {
            return Err(MiniChainError::SyncFailed);
        }
        Ok(())
    }

    /// Accepts the next fetched block, which must be at the next height.
    pub fn accept_block(&mut self, index: u64) -> (r: Result<(), MiniChainError>)
        requires
            old(self).valid(),
            old(self).next() <= old(self).target(),
        ensures
            final(self).valid(),
            final(self).target() == old(self).target(),
            r is Ok <==> index == old(self).next(),
            r is Ok ==> final(self).next() == old(self).next() + 1,
            r is Err ==> final(self).next() == old(self).next(),
            r matches Err(e) ==> e == MiniChainError::SyncFailed,
    {
        if index as u128 != self.next {
            return Err(MiniChainError::SyncFailed);
        }
        self.next = self.next + 1;
        Ok(())
    }

    /// Checks, once fetching is done, that the local chain now ends where the peer's does.
    pub fn finish(&self, current: &NetworkStatus, remote: &NetworkStatus) -> (r: Result<
        (),
        MiniChainError,
    >)
        ensures
            r is Ok <==> current.height == remote.height && current.latest_hash@
                == remote.latest_hash@,
            r matches Err(e) ==> e == (MiniChainError::DivergenceDetected { height: current.height }),
    {
        if current.height != remote.height || !same_text(
            current.latest_hash.as_str(),
            remote.latest_hash.as_str(),
        ) {
            return Err(MiniChainError::DivergenceDetected { height: current.height });
        }
        Ok(())
    }
}

proof fn lemma_accepted_heights(nexts: Seq<int>, heights: Seq<int>, n: int)
    requires
        nexts.len() == heights.len() + 1,
        forall|j: int|
            0 <= j < heights.len() ==> #[trigger] heights[j] == nexts[j] && nexts[j + 1] == nexts[j]
                + 1,
        0 <= n <= heights.len(),
    ensures
        nexts[n] == nexts[0] + n,
        forall|j: int| 0 <= j < n ==> #[trigger] heights[j] == nexts[0] + j,
    decreases n,
{
    if n > 0 {
        lemma_accepted_heights(nexts, heights, n - 1);
        assert(heights[n - 1] == nexts[n - 1]);
    }
}

/// A sync session that runs to its end fetches exactly the heights the node
/// is missing, in increasing order. Take the session's next wanted height
/// before each accepted block (`nexts[j]`, and `nexts[j + 1]` after it) and the
/// heights of the blocks accepted (`heights[j]`), each related as
/// `accept_block` states of a block it accepts. When the session is left with
/// no range to request (its next height is past the peer's), the accepted
/// heights are the session's first height, the one after it, and so on up to
/// the peer's height.
pub proof fn lemma_sync_fetches_missing_heights(nexts: Seq<int>, heights: Seq<int>, target: int)
    requires
        nexts.len() == heights.len() + 1,
        nexts[0] <= target + 1,
        forall|j: int|
            0 <= j < heights.len() ==> #[trigger] heights[j] == nexts[j] && nexts[j + 1] == nexts[j]
                + 1,
        target < nexts.last() <= target + 1,
    ensures
        heights.len() == target - nexts[0] + 1,
        forall|j: int| 0 <= j < heights.len() ==> #[trigger] heights[j] == nexts[0] + j,
{
    lemma_accepted_heights(nexts, heights, heights.len() as int);
    assert(nexts.last() == nexts[heights.len() as int]);
}

/// Whether every status reports the height and newest hash of the first.
pub open spec fn statuses_agree(statuses: Seq<NetworkStatus>) -> bool {
    statuses.len() > 0 && forall|i: int|
        0 <= i < statuses.len() ==> (#[trigger] statuses[i]).height == statuses[0].height
            && statuses[i].latest_hash@ == statuses[0].latest_hash@
}

/// Checks that nodes agree on the chain: there is at least one status and
/// all report the same height and newest hash.
pub fn ensure_consistent(statuses: &[NetworkStatus]) -> (r: Result<(), MiniChainError>)
    ensures
        r is Ok <==> statuses_agree(statuses@),
        r matches Err(e) ==> e == MiniChainError::SyncFailed,
{
    if statuses.len() == 0 {
        return Err(MiniChainError::SyncFailed);
    }
    let mut i: usize = 0;
    while i < statuses.len()
        invariant
            statuses@.len() > 0,
            i <= statuses@.len(),
            forall|k: int|
                0 <= k < i ==> (#[trigger] statuses@[k]).height == statuses@[0].height
                    && statuses@[k].latest_hash@ == statuses@[0].latest_hash@,
        decreases statuses@.len() - i,
    {
        if statuses[i].height != statuses[0].height || !same_text(
            statuses[i].latest_hash.as_str(),
            statuses[0].latest_hash.as_str(),
        ) {
            return Err(MiniChainError::SyncFailed);
        }
        i = i + 1;
    }
    Ok(())
}

} // verus!
