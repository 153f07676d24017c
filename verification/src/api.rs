//! The HTTP API's own rules: how errors are answered, who may call what, how
//! often, and how lists are paged and checked.
use vstd::prelude::*;

use crate::crypto::{decode_hex, sha256, sha256_digest};
use crate::error::{ErrorSpec, MiniChainError, error_message};
use crate::network::{ApiRole, ApiTokenConfig, Peer, PeerState, SyncState, token_digest};
use crate::text::{hex_decode, in_key_order, same_text, sort_by_key, texts, utf8};
use crate::keyed::{keyed_map, lemma_keyed_index, lemma_keyed_push, lemma_keyed_update, unique_keys};
use crate::chain::Blockchain;
use crate::storage::StoredTransaction;
use crate::transaction::{MAX_RECORD_ID_BYTES, Operation};
use crate::validator::Validator;
use subtle::ConstantTimeEq;

verus! {

/// The status code and error code that answer an error of the library.
pub open spec fn error_status(e: ErrorSpec) -> (u16, Seq<char>) {
    match e {
        ErrorSpec::BlockNotFound { .. }
        | ErrorSpec::BlockHashNotFound { .. }
        | ErrorSpec::TransactionNotFound { .. }
        | ErrorSpec::RecordNotFound { .. }
        | ErrorSpec::UnknownValidator { .. } => (404, "NOT_FOUND"@),
        ErrorSpec::SnapshotInvalid { .. } => (422, "SNAPSHOT_INVALID"@),
        ErrorSpec::DuplicateTransaction { .. }
        | ErrorSpec::DuplicateMempoolTransaction { .. }
        | ErrorSpec::RestoreWouldOverwrite
        | ErrorSpec::ConflictingProposal { .. } => (409, "CONFLICT"@),
        ErrorSpec::TransactionPayloadTooLarge { .. }
        | ErrorSpec::TransactionMetadataTooLarge
        | ErrorSpec::MessageTooLarge { .. } => (413, "VALIDATION_ERROR"@),
        ErrorSpec::InvalidBlockHash { .. }
        | ErrorSpec::InvalidBlockIndex { .. }
        | ErrorSpec::InvalidPreviousHash { .. }
        | ErrorSpec::UnsupportedBlockVersion { .. }
        | ErrorSpec::EmptyChain
        | ErrorSpec::InvalidGenesis
        | ErrorSpec::InvalidTransactionHash { .. }
        | ErrorSpec::MissingTransactionSignature { .. }
        | ErrorSpec::InvalidSignature
        | ErrorSpec::InvalidPublicKey
        | ErrorSpec::InvalidHex
        | ErrorSpec::InvalidMerkleRoot { .. }
        | ErrorSpec::EmptyMerkleTree
        | ErrorSpec::TransactionNotInMerkleTree
        | ErrorSpec::BlockTimestampBeforeParent { .. }
        | ErrorSpec::ExpiredTransaction { .. }
        | ErrorSpec::EmptyBlock { .. }
        | ErrorSpec::InvalidTransactionField { .. } => (422, "VALIDATION_ERROR"@),
        ErrorSpec::StorageCorruption { .. }
        | ErrorSpec::MetadataMismatch
        | ErrorSpec::IndexCorrupted { .. } => (500, "CHAIN_INVALID"@),
        ErrorSpec::PeerUnavailable { .. } | ErrorSpec::NetworkTimeout => (
            503,
            "SERVICE_UNAVAILABLE"@,
        ),
        ErrorSpec::SyncFailed | ErrorSpec::DivergenceDetected { .. } => (409, "CHAIN_INVALID"@),
        _ => (500, "INTERNAL_ERROR"@),
    }
}

/// The message that answers an error: its own message, except that internal
/// failures are not described.
pub open spec fn error_answer(e: ErrorSpec) -> Seq<char> {
    if error_status(e).0 == 500 {
        "The node could not complete the request"@
    } else {
        error_message(e)
    }
}

/// An error answered by the API: an HTTP status, a stable code and a message.
#[derive(Debug)]
pub struct ApiError {
    pub status: u16,
    pub code: &'static str,
    pub message: String,
}

/// The body of an error answer.
#[derive(Clone, Debug)]
pub struct ErrorBody {
    pub code: &'static str,
    pub message: String,
}

/// The envelope of an error answer.
#[derive(Clone, Debug)]
pub struct ErrorEnvelope {
    pub error: ErrorBody,
}

impl ApiError {
    /// An error with the given status, code and message.
    pub fn new(status: u16, code: &'static str, message: &str) -> (e: Self)
        ensures
            e.status == status,
            e.code@ == code@,
            e.message@ == message@,
    {
        ApiError { status, code, message: message.to_owned() }
    }

    /// A request that fails validation.
    pub fn validation(message: &str) -> (e: Self)
        ensures
            e.status == 400,
            e.code@ == "VALIDATION_ERROR"@,
            e.message@ == message@,
    {
        Self::new(400, "VALIDATION_ERROR", message)
    }

    /// A request without a valid bearer token.
    pub fn unauthorized() -> (e: Self)
        ensures
            e.status == 401,
            e.code@ == "UNAUTHORIZED"@,
            e.message@ == "A valid bearer token is required"@,
    {
        Self::new(401, "UNAUTHORIZED", "A valid bearer token is required")
    }

    /// A request the caller's role does not allow.
    pub fn forbidden() -> (e: Self)
        ensures
            e.status == 403,
            e.code@ == "FORBIDDEN"@,
            e.message@ == "The authenticated role cannot perform this operation"@,
    {
        Self::new(403, "FORBIDDEN", "The authenticated role cannot perform this operation")
    }

    /// The answer to an error of the library.
    pub fn from_error(error: MiniChainError) -> (e: Self)
        ensures
            e.status == error_status(error@).0,
            e.code@ == error_status(error@).1,
            e.message@ == error_answer(error@),
    {
        let (status, code): (u16, &'static str) = match &error {
            MiniChainError::BlockNotFound { .. }
            | MiniChainError::BlockHashNotFound { .. }
            | MiniChainError::TransactionNotFound { .. }
            | MiniChainError::RecordNotFound { .. }
            | MiniChainError::UnknownValidator { .. } => (404, "NOT_FOUND"),
            MiniChainError::SnapshotInvalid { .. } => (422, "SNAPSHOT_INVALID"),
            MiniChainError::DuplicateTransaction { .. }
            | MiniChainError::DuplicateMempoolTransaction { .. }
            | MiniChainError::RestoreWouldOverwrite
            | MiniChainError::ConflictingProposal { .. } => (409, "CONFLICT"),
            MiniChainError::TransactionPayloadTooLarge { .. }
            | MiniChainError::TransactionMetadataTooLarge
            | MiniChainError::MessageTooLarge { .. } => (413, "VALIDATION_ERROR"),
            MiniChainError::InvalidBlockHash { .. }
            | MiniChainError::InvalidBlockIndex { .. }
            | MiniChainError::InvalidPreviousHash { .. }
            | MiniChainError::UnsupportedBlockVersion { .. }
            | MiniChainError::EmptyChain
            | MiniChainError::InvalidGenesis
            | MiniChainError::InvalidTransactionHash { .. }
            | MiniChainError::MissingTransactionSignature { .. }
            | MiniChainError::InvalidSignature
            | MiniChainError::InvalidPublicKey
            | MiniChainError::InvalidHex
            | MiniChainError::InvalidMerkleRoot { .. }
            | MiniChainError::EmptyMerkleTree
            | MiniChainError::TransactionNotInMerkleTree
            | MiniChainError::BlockTimestampBeforeParent { .. }
            | MiniChainError::ExpiredTransaction { .. }
            | MiniChainError::EmptyBlock { .. }
            | MiniChainError::InvalidTransactionField { .. } => (422, "VALIDATION_ERROR"),
            MiniChainError::StorageCorruption { .. }
            | MiniChainError::MetadataMismatch
            | MiniChainError::IndexCorrupted { .. } => (500, "CHAIN_INVALID"),
            MiniChainError::PeerUnavailable { .. } | MiniChainError::NetworkTimeout => (
                503,
                "SERVICE_UNAVAILABLE",
            ),
            MiniChainError::SyncFailed | MiniChainError::DivergenceDetected { .. } => (
                409,
                "CHAIN_INVALID",
            ),
            _ => (500, "INTERNAL_ERROR"),
        };
        if status == 500 {
            Self::new(status, code, "The node could not complete the request")
        } else {
            let message = error.message();
            ApiError { status, code, message }
        }
    }

    /// The body that answers this error.
    pub fn body(&self) -> (envelope: ErrorEnvelope)
        ensures
            envelope.error.code@ == self.code@,
            envelope.error.message@ == self.message@,
    {
        ErrorEnvelope { error: ErrorBody { code: self.code, message: self.message.clone() } }
    }
}

/// The rank of a role: each role may do what the roles below it may.
pub open spec fn role_rank(role: ApiRole) -> u8 {
    match role {
        ApiRole::Viewer => 1,
        ApiRole::Operator => 2,
        ApiRole::Admin => 3,
    }
}

/// The rank of a role.
pub fn role_level(role: ApiRole) -> (level: u8)
    ensures
        level == role_rank(role),
{
    match role {
        ApiRole::Viewer => 1,
        ApiRole::Operator => 2,
        ApiRole::Admin => 3,
    }
}

/// Who made a request, and with which role.
#[derive(Clone, Debug)]
pub struct AuthContext {
    pub identity: String,
    pub role: ApiRole,
}

impl AuthContext {
    /// Allows the request if the caller's role is at least `minimum`.
    pub fn require(&self, minimum: ApiRole) -> (r: Result<(), ApiError>)
        ensures
            r is Ok <==> role_rank(self.role) >= role_rank(minimum),
            r matches Err(e) ==> e.status == 403 && e.code@ == "FORBIDDEN"@,
    {
        if role_level(self.role) < role_level(minimum) {
            return Err(ApiError::forbidden());
        }
        Ok(())
    }
}

/// A higher role may do everything a lower role may: whatever `require`
/// allows for a role, it allows for every role ranked at least as high.
pub proof fn lemma_roles_are_ordered(low: ApiRole, high: ApiRole, minimum: ApiRole)
    requires
        role_rank(low) <= role_rank(high),
        role_rank(low) >= role_rank(minimum),
    ensures
        role_rank(high) >= role_rank(minimum),
{
}

/// Whether two 32-byte digests are equal (`subtle::ConstantTimeEq::ct_eq`
/// on the two arrays as slices, read as a `bool`). The comparison takes the
/// same time whatever the bytes; it answers whether the slices are equal.
#[verifier::external_body]
fn digests_equal(a: &[u8; 32], b: &[u8; 32]) -> (r: bool)
    ensures
        r == (a@ == b@),
{
    bool::from(a.as_slice().ct_eq(b.as_slice()))
}

struct TokenRecord {
    identity: String,
    role: ApiRole,
    digest: [u8; 32],
}

/// The tokens a node accepts, each with its holder and role.
pub struct AuthService {
    tokens: Vec<TokenRecord>,
}

/// The value of an accepted token: holder, role and digest.
pub struct TokenView {
    pub identity: Seq<char>,
    pub role: ApiRole,
    pub digest: Seq<u8>,
}

/// The index of the first token of `tokens` with `digest`, if any.
pub open spec fn first_token(tokens: Seq<TokenView>, digest: Seq<u8>) -> Option<int>
    decreases tokens.len(),
{
    if tokens.len() == 0 {
        None
    } else {
        match first_token(tokens.drop_last(), digest) {
            Some(i) => Some(i),
            None => if tokens.last().digest == digest {
                Some(tokens.len() - 1)
            } else {
                None
            },
        }
    }
}

impl AuthService {
    /// The accepted tokens, in order.
    pub closed spec fn tokens(&self) -> Seq<TokenView> {
        Seq::new(
            self.tokens@.len(),
            |i: int|
                TokenView {
                    identity: self.tokens@[i].identity@,
                    role: self.tokens@[i].role,
                    digest: self.tokens@[i].digest@,
                },
        )
    }

    /// The service for configured tokens; each digest must be 32 bytes of
    /// hexadecimal text.
    pub fn new(tokens: &[ApiTokenConfig]) -> (r: Result<Self, ApiError>)
        ensures
            r is Ok <==> forall|i: int|
                0 <= i < tokens@.len() ==> token_digest((#[trigger] tokens@[i]).token_sha256@) is Some,
            r matches Ok(service) ==> service.tokens().len() == tokens@.len() && forall|i: int|
                0 <= i < tokens@.len() ==> (#[trigger] service.tokens()[i]).identity
                    == tokens@[i].identity@ && service.tokens()[i].role == tokens@[i].role && Some(
                    service.tokens()[i].digest,
                ) == token_digest(tokens@[i].token_sha256@),
            r matches Err(e) ==> e.status == 400 && e.message@ == "API token digest must be SHA-256"@,
    {
        let mut records: Vec<TokenRecord> = Vec::new();
        let mut i: usize = 0;
        while i < tokens.len()
            invariant
                i <= tokens@.len(),
                records@.len() == i,
                forall|k: int|
                    0 <= k < i ==> token_digest((#[trigger] tokens@[k]).token_sha256@) is Some,
                forall|k: int|
                    0 <= k < i ==> (#[trigger] records@[k]).identity@ == tokens@[k].identity@
                        && records@[k].role == tokens@[k].role && Some(records@[k].digest@)
                        == token_digest(tokens@[k].token_sha256@),
            decreases tokens@.len() - i,
        {
            let token = &tokens[i];
            let bytes = match decode_hex(token.token_sha256.as_str()) {
                Ok(bytes) => bytes,
                Err(_) => {
                    return Err(ApiError::validation("API token digest must be SHA-256"));
                },
            };
            if bytes.len() != 32 {
                return Err(ApiError::validation("API token digest must be SHA-256"));
            }
            let digest = crate::crypto::to_array_32(bytes.as_slice());
            records.push(TokenRecord { identity: token.identity.clone(), role: token.role, digest });
            i = i + 1;
        }
        let service = AuthService { tokens: records };
        assert forall|k: int| 0 <= k < tokens@.len() implies (#[trigger] service.tokens()[k]).identity
            == tokens@[k].identity@ && service.tokens()[k].role == tokens@[k].role && Some(
            service.tokens()[k].digest,
        ) == token_digest(tokens@[k].token_sha256@) by {
            assert(records@[k].identity@ == tokens@[k].identity@);
        }
        Ok(service)
    }

    /// The caller that holds `token`: the first accepted token whose digest
    /// is the token's SHA-256 digest.
    pub fn authenticate_token(&self, token: &str) -> (r: Result<AuthContext, ApiError>)
        ensures
            token@.len() == 0 ==> r is Err,
            token@.len() > 0 ==> match first_token(self.tokens(), sha256_digest(utf8(token@))) {
                Some(i) => r matches Ok(c) && c.identity@ == self.tokens()[i].identity && c.role
                    == self.tokens()[i].role,
                None => r is Err,
            },
            r matches Err(e) ==> e.status == 401 && e.code@ == "UNAUTHORIZED"@,
    {
        proof {
            crate::text::lemma_text_empty_iff(token@);
        }
        if token.as_bytes().len() == 0 {
            return Err(ApiError::unauthorized());
        }
        let candidate = sha256(token.as_bytes());
        let ghost all = self.tokens();
        let mut i: usize = 0;
        while i < self.tokens.len()
            invariant
                all == self.tokens(),
                token@.len() > 0,
                i <= self.tokens@.len(),
                candidate@ == sha256_digest(utf8(token@)),
                first_token(all.subrange(0, i as int), candidate@) is None,
            decreases self.tokens@.len() - i,
        {
            let record = &self.tokens[i];
            proof {
                assert(all.subrange(0, i + 1).drop_last() =~= all.subrange(0, i as int));
            }
            if digests_equal(&record.digest, &candidate) {
                proof {
                    lemma_first_token_prefix(all, i + 1, candidate@, i as int);
                }
                return Ok(AuthContext { identity: record.identity.clone(), role: record.role });
            }
            i = i + 1;
        }
        proof {
            assert(all.subrange(0, all.len() as int) =~= all);
        }
        Err(ApiError::unauthorized())
    }
}

impl AuthService {
    /// The caller named by an `Authorization` header value: it must be
    /// present and carry a bearer token that authenticates.
    pub fn authenticate(&self, header: Option<&str>) -> (r: Result<AuthContext, ApiError>)
        ensures
            header is None ==> r is Err,
            header matches Some(h) && !(exists|t: Seq<char>| h@ == "Bearer "@ + t && t.len() > 0)
                ==> r is Err,
            header matches Some(h) ==> forall|t: Seq<char>|
                h@ == "Bearer "@ + t && t.len() > 0 ==> match first_token(
                    self.tokens(),
                    sha256_digest(utf8(t)),
                ) {
                    Some(i) => r matches Ok(c) && c.identity@ == self.tokens()[i].identity && c.role
                        == self.tokens()[i].role,
                    None => r is Err,
                },
            r matches Err(e) ==> e.status == 401 && e.code@ == "UNAUTHORIZED"@,
    {
        let header = match header {
            Some(h) => h,
            None => {
                return Err(ApiError::unauthorized());
            },
        };
        let token = match bearer_token(header) {
            Ok(t) => t,
            Err(e) => {
                return Err(e);
            },
        };
        proof {
            reveal_strlit("Bearer ");
            assert forall|t: Seq<char>| header@ == "Bearer "@ + t && t.len() > 0 implies t
                == token@ by {
                assert(t =~= header@.subrange(7, header@.len() as int));
                assert(token@ =~= header@.subrange(7, header@.len() as int));
            }
        }
        self.authenticate_token(token)
    }
}

proof fn lemma_first_token_prefix(tokens: Seq<TokenView>, n: int, digest: Seq<u8>, j: int)
    requires
        0 < n <= tokens.len(),
        first_token(tokens.subrange(0, n), digest) == Some(j),
    ensures
        first_token(tokens, digest) == Some(j),
    decreases tokens.len() - n,
{
    if n < tokens.len() {
        assert(tokens.subrange(0, n + 1).drop_last() =~= tokens.subrange(0, n));
        lemma_first_token_prefix(tokens, n + 1, digest, j);
    } else {
        assert(tokens.subrange(0, n) =~= tokens);
    }
}

/// The token of an `Authorization` header value: what follows `Bearer `,
/// if anything does.
pub fn bearer_token(header: &str) -> (r: Result<&str, ApiError>)
    ensures
        r matches Ok(t) ==> header@ == "Bearer "@ + t@ && t@.len() > 0,
        r is Err <==> !(exists|t: Seq<char>| header@ == "Bearer "@ + t && t.len() > 0),
        r matches Err(e) ==> e.status == 401 && e.code@ == "UNAUTHORIZED"@,
{
    proof {
        reveal_strlit("Bearer ");
    }
    let prefix = "Bearer ";
    let n = header.unicode_len();
    if n <= 7 {
        proof {
            if exists|t: Seq<char>| header@ == "Bearer "@ + t && t.len() > 0 {
                let t = choose|t: Seq<char>| header@ == "Bearer "@ + t && t.len() > 0;
                assert(header@.len() == 7 + t.len());
            }
        }
        return Err(ApiError::unauthorized());
    }
    let head = header.substring_char(0, 7);
    if !same_text(head, prefix) {
        proof {
            if exists|t: Seq<char>| header@ == "Bearer "@ + t && t.len() > 0 {
                let t = choose|t: Seq<char>| header@ == "Bearer "@ + t && t.len() > 0;
                assert(header@.subrange(0, 7) =~= "Bearer "@);
            }
        }
        return Err(ApiError::unauthorized());
    }
    let token = header.substring_char(7, n);
    assert(header@ =~= "Bearer "@ + token@);
    Ok(token)
}

/// The kind of request a rate limit counts.
#[derive(Clone, Copy, Debug, PartialEq, Eq, Structural, Hash)]
pub enum RateClass {
    Read,
    Write,
    Admin,
}

/// Whether `needle` occurs in `haystack` at byte `i`.
pub open spec fn occurs_at(haystack: Seq<u8>, needle: Seq<u8>, i: int) -> bool {
    0 <= i <= haystack.len() - needle.len() && haystack.subrange(i, i + needle.len()) == needle
}

/// Whether `needle` occurs in `haystack`, as bytes.
pub open spec fn occurs_in(haystack: Seq<u8>, needle: Seq<u8>) -> bool {
    exists|i: int| #[trigger] occurs_at(haystack, needle, i)
}

/// Whether `needle` occurs in `haystack`.
pub fn contains_text(haystack: &str, needle: &str) -> (r: bool)
    ensures
        r == occurs_in(utf8(haystack@), utf8(needle@)),
{
    let h = haystack.as_bytes();
    let n = needle.as_bytes();
    if n.len() > h.len() {
        return false;
    }
    let mut i: usize = 0;
    while i <= h.len() - n.len()
        invariant
            n@.len() <= h@.len(),
            h@ == utf8(haystack@),
            n@ == utf8(needle@),
            i <= h@.len() - n@.len() + 1,
            forall|k: int| 0 <= k < i ==> !#[trigger] occurs_at(h@, n@, k),
        decreases h@.len() - n@.len() + 1 - i,
    {
        let mut j: usize = 0;
        let mut same = true;
        while j < n.len()
            invariant
                i + n@.len() <= h@.len(),
                h@.len() == h.len(),
                j <= n@.len(),
                same == forall|m: int| 0 <= m < j ==> h@[i + m] == n@[m],
            decreases n@.len() - j,
        {
            if h[i + j] != n[j] {
                same = false;
            }
            j = j + 1;
        }
        if same {
            assert(h@.subrange(i as int, i + n@.len()) =~= n@);
            assert(occurs_at(h@, n@, i as int));
            return true;
        }
        proof {
            if h@.subrange(i as int, i + n@.len()) == n@ {
                assert forall|m: int| 0 <= m < n@.len() implies h@[i + m] == n@[m] by {
                    assert(h@.subrange(i as int, i + n@.len())[m] == h@[i + m]);
                }
            }
        }
        i = i + 1;
    }
    proof {
        if occurs_in(h@, n@) {
            let k = choose|k: int| #[trigger] occurs_at(h@, n@, k);
        }
    }
    false
}

/// The rate class of a request: snapshots are administration, other reads
/// are reads, and everything else is a write.
pub fn rate_class(is_get: bool, path: &str) -> (class: RateClass)
    ensures
        occurs_in(utf8(path@), utf8("/snapshots"@)) ==> class == RateClass::Admin,
        !occurs_in(utf8(path@), utf8("/snapshots"@)) && is_get ==> class == RateClass::Read,
        !occurs_in(utf8(path@), utf8("/snapshots"@)) && !is_get ==> class == RateClass::Write,
{
    if contains_text(path, "/snapshots") {
        RateClass::Admin
    } else if is_get {
        RateClass::Read
    } else {
        RateClass::Write
    }
}

/// A counting window for one caller and class: when it started, in
/// nanoseconds of a monotonic clock, and how many requests it has allowed.
#[derive(Debug)]
pub struct Bucket {
    pub identity: String,
    pub class: RateClass,
    pub started: u128,
    pub count: u32,
}

/// The value of a window.
pub struct BucketView {
    pub identity: Seq<char>,
    pub class: RateClass,
    pub started: u128,
    pub count: u32,
}

impl View for Bucket {
    type V = BucketView;

    open spec fn view(&self) -> BucketView {
        BucketView {
            identity: self.identity@,
            class: self.class,
            started: self.started,
            count: self.count,
        }
    }
}

/// The key of a window: its caller and class.
pub open spec fn bucket_key() -> spec_fn(BucketView) -> (Seq<char>, RateClass) {
    |b: BucketView| (b.identity, b.class)
}

/// The values of a sequence of windows.
pub open spec fn buckets_view(buckets: Seq<Bucket>) -> Seq<BucketView> {
    Seq::new(buckets.len(), |i: int| buckets[i]@)
}

/// The window that a request by `identity` of `class` at `now` counts in:
/// the current one, or a new one if there is none or it has run its length.
pub open spec fn current_window(
    windows: Map<(Seq<char>, RateClass), BucketView>,
    identity: Seq<char>,
    class: RateClass,
    window: u128,
    now: u128,
) -> BucketView {
    let key = (identity, class);
    if windows.contains_key(key) && !(now >= windows[key].started && now - windows[key].started
        >= window) {
        windows[key]
    } else {
        BucketView { identity, class, started: now, count: 0 }
    }
}

/// Limits on requests per caller and class within a window.
#[derive(Debug)]
pub struct RateLimiter {
    window_nanos: u128,
    read_limit: u32,
    write_limit: u32,
    admin_limit: u32,
    buckets: Vec<Bucket>,
}

impl RateLimiter {
    /// The length of a window, in nanoseconds.
    pub closed spec fn window(&self) -> u128 {
        self.window_nanos
    }

    /// The limit for a class.
    pub closed spec fn limit(&self, class: RateClass) -> u32 {
        match class {
            RateClass::Read => self.read_limit,
            RateClass::Write => self.write_limit,
            RateClass::Admin => self.admin_limit,
        }
    }

    /// The window of each caller and class that has made requests.
    pub closed spec fn windows(&self) -> Map<(Seq<char>, RateClass), BucketView> {
        keyed_map(buckets_view(self.buckets@), bucket_key())
    }

    /// Well-formedness: one window per caller and class.
    pub closed spec fn valid(&self) -> bool {
        unique_keys(buckets_view(self.buckets@), bucket_key())
    }

    /// Limits from an API configuration, with no windows yet.
    pub fn new(config: &crate::network::ApiConfig) -> (r: Self)
        ensures
            r.valid(),
            r.window() == config.rate_window_ms as u128 * 1_000_000,
            r.limit(RateClass::Read) == config.read_requests_per_window,
            r.limit(RateClass::Write) == config.write_requests_per_window,
            r.limit(RateClass::Admin) == config.admin_requests_per_window,
            r.windows() == Map::<(Seq<char>, RateClass), BucketView>::empty(),
    {
        let r = RateLimiter {
            window_nanos: config.rate_window_ms as u128 * 1_000_000,
            read_limit: config.read_requests_per_window,
            write_limit: config.write_requests_per_window,
            admin_limit: config.admin_requests_per_window,
            buckets: Vec::new(),
        };
        assert(r.windows() =~= Map::<(Seq<char>, RateClass), BucketView>::empty());
        r
    }

    fn limit_of(&self, class: RateClass) -> (n: u32)
        ensures
            n == self.limit(class),
    {
        match class {
            RateClass::Read => self.read_limit,
            RateClass::Write => self.write_limit,
            RateClass::Admin => self.admin_limit,
        }
    }

    fn position(&self, identity: &str, class: RateClass) -> (r: Option<usize>)
        requires
            self.valid(),
        ensures
            r is None <==> !self.windows().contains_key((identity@, class)),
            r matches Some(i) ==> i < self.buckets@.len() && self.windows()[(identity@, class)]
                == self.buckets@[i as int]@,
    {
        let ghost all = buckets_view(self.buckets@);
        let mut i: usize = 0;
        while i < self.buckets.len()
            invariant
                all == buckets_view(self.buckets@),
                unique_keys(all, bucket_key()),
                i <= self.buckets@.len(),
                forall|k: int|
                    0 <= k < i ==> bucket_key()(#[trigger] all[k]) != (identity@, class),
            decreases self.buckets@.len() - i,
        {
            if same_text(self.buckets[i].identity.as_str(), identity) && self.buckets[i].class
                == class {
                proof {
                    lemma_keyed_index(all, bucket_key());
                    assert(all[i as int] == self.buckets@[i as int]@);
                }
                return Some(i);
            }
            assert(all[i as int] == self.buckets@[i as int]@);
            i = i + 1;
        }
        proof {
            if self.windows().contains_key((identity@, class)) {
                let k = choose|k: int|
                    0 <= k < all.len() && bucket_key()(#[trigger] all[k]) == (identity@, class);
            }
        }
        None
    }

    /// Counts a request by `identity` of `class` at `now` (nanoseconds of a
    /// monotonic clock): a window that has run its length starts again, and
    /// a request when the window's count has reached the class's limit is
    /// refused.
    pub fn check(&mut self, identity: &str, class: RateClass, now: u128) -> (r: Result<(), ApiError>)
        requires
            old(self).valid(),
        ensures
            final(self).valid(),
            final(self).window() == old(self).window(),
            forall|c: RateClass| #[trigger] final(self).limit(c) == old(self).limit(c),
            ({
                let w = current_window(old(self).windows(), identity@, class, old(self).window(), now);
                &&& (r is Ok <==> w.count < old(self).limit(class))
                &&& (r is Ok ==> final(self).windows() == old(self).windows().insert(
                    (identity@, class),
                    (BucketView { count: (w.count + 1) as u32, ..w }),
                ))
                &&& (r is Err ==> final(self).windows() == old(self).windows().insert(
                    (identity@, class),
                    w,
                ))
            }),
            final(self).windows() == windows_after(
                old(self).windows(),
                identity@,
                class,
                old(self).window(),
                old(self).limit(class),
                now,
            ),
            r matches Err(e) ==> e.status == 429 && e.code@ == "RATE_LIMITED"@,
    {
        let limit = self.limit_of(class);
        let position = self.position(identity, class);
        let mut bucket = match position {
            Some(j) => Bucket {
                identity: self.buckets[j].identity.clone(),
                class: self.buckets[j].class,
                started: self.buckets[j].started,
                count: self.buckets[j].count,
            },
            None => Bucket { identity: identity.to_owned(), class, started: now, count: 0 },
        };
        if position.is_some() && now >= bucket.started && now - bucket.started >= self.window_nanos {
            bucket.started = now;
            bucket.count = 0;
        }
        let allowed = bucket.count < limit;
        if allowed {
            bucket.count = bucket.count + 1;
        }
        let ghost before = buckets_view(self.buckets@);
        let ghost v = bucket@;
        match position {
            Some(j) => {
                self.buckets.set(j, bucket);
                proof {
                    assert(buckets_view(self.buckets@) =~= before.update(j as int, v));
                    lemma_keyed_update(before, bucket_key(), j as int, v);
                }
            },
            None => {
                self.buckets.push(bucket);
                proof {
                    assert(buckets_view(self.buckets@) =~= before.push(v));
                    lemma_keyed_push(before, bucket_key(), v);
                }
            },
        }
        if allowed {
            Ok(())
        } else {
            Err(ApiError::new(429, "RATE_LIMITED", "The request rate limit has been exceeded"))
        }
    }
}

/// Admits a request given the outcome of authenticating it: the request is
/// counted against the rate limit of its class, charged to the caller's
/// identity, or to `unauthenticated` when authentication failed. A request
/// over the limit is answered with the rate-limit error; one within it, with
/// the outcome of authentication.
pub fn admit_request(
    limiter: &mut RateLimiter,
    authenticated: Result<AuthContext, ApiError>,
    class: RateClass,
    now: u128,
) -> (r: Result<AuthContext, ApiError>)
    requires
        old(limiter).valid(),
    ensures
        final(limiter).valid(),
        final(limiter).window() == old(limiter).window(),
        forall|c: RateClass| #[trigger] final(limiter).limit(c) == old(limiter).limit(c),
        ({
            let charged = match authenticated {
                Ok(c) => c.identity@,
                Err(_) => "unauthenticated"@,
            };
            let w = current_window(old(limiter).windows(), charged, class, old(limiter).window(), now);
            &&& final(limiter).windows() == windows_after(
                old(limiter).windows(),
                charged,
                class,
                old(limiter).window(),
                old(limiter).limit(class),
                now,
            )
            &&& (w.count < old(limiter).limit(class) ==> r == authenticated)
            &&& (w.count >= old(limiter).limit(class) ==> (r matches Err(e) && e.status == 429
                && e.code@ == "RATE_LIMITED"@))
        }),
{
    let checked = match &authenticated {
        Ok(context) => limiter.check(context.identity.as_str(), class, now),
        Err(_) => limiter.check("unauthenticated", class, now),
    };
    match checked {
        Ok(()) => authenticated,
        Err(e) => Err(e),
    }
}

/// No caller is allowed more requests of a class within one window than the
/// class's limit: every window's count stays at or below its limit.
pub proof fn lemma_window_count_bounded(
    windows: Map<(Seq<char>, RateClass), BucketView>,
    identity: Seq<char>,
    class: RateClass,
    window: u128,
    now: u128,
    limit: u32,
)
    requires
        windows.contains_key((identity, class)) ==> windows[(identity, class)].count <= limit,
    ensures
        ({
            let w = current_window(windows, identity, class, window, now);
            w.count <= limit && (w.count < limit ==> w.count + 1 <= limit)
        }),
{
}

/// The windows after a request by `identity` of `class` at `now`, with
/// window length `window` and class limit `limit`: the request is counted in
/// its current window if the count is below the limit.
pub open spec fn windows_after(
    windows: Map<(Seq<char>, RateClass), BucketView>,
    identity: Seq<char>,
    class: RateClass,
    window: u128,
    limit: u32,
    now: u128,
) -> Map<(Seq<char>, RateClass), BucketView> {
    let w = current_window(windows, identity, class, window, now);
    if w.count < limit {
        windows.insert((identity, class), BucketView { count: (w.count + 1) as u32, ..w })
    } else {
        windows.insert((identity, class), w)
    }
}

/// The windows after each of a run of requests by `identity` of `class`
/// made at `times`, with window length `window` and class limit `limit`:
/// the first `n` calls of `check` counted, when the run starts in a fresh
/// window and stays within its length.
proof fn lemma_run_in_one_window(
    windows: Seq<Map<(Seq<char>, RateClass), BucketView>>,
    allowed: Seq<bool>,
    identity: Seq<char>,
    class: RateClass,
    window: u128,
    limit: u32,
    times: Seq<u128>,
    n: int,
)
    requires
        1 <= n <= times.len(),
        windows.len() == times.len() + 1,
        allowed.len() == times.len(),
        forall|j: int|
            0 <= j < times.len() ==> windows[j + 1] == windows_after(
                windows[j],
                identity,
                class,
                window,
                limit,
                #[trigger] times[j],
            ) && allowed[j] == (current_window(windows[j], identity, class, window, times[j]).count
                < limit),
        windows[0].contains_key((identity, class)) ==> times[0] >= windows[0][(
            identity,
            class,
        )].started && times[0] - windows[0][(identity, class)].started >= window,
        forall|j: int|
            0 <= j < times.len() ==> times[0] <= #[trigger] times[j] && times[j] - times[0] < window,
    ensures
        windows[n].contains_key((identity, class)),
        windows[n][(identity, class)] == (BucketView {
            identity,
            class,
            started: times[0],
            count: (if n < limit {
                n
            } else {
                limit as int
            }) as u32,
        }),
        forall|j: int| 0 <= j < n ==> (#[trigger] allowed[j] <==> j < limit),
        forall|key: (Seq<char>, RateClass)|
            key != (identity, class) && #[trigger] windows[0].contains_key(key) ==> windows[n].contains_key(
                key,
            ) && windows[n][key] == windows[0][key],
    decreases n,
{
    assert(times[0] == times[0]);
    if n > 1 {
        lemma_run_in_one_window(windows, allowed, identity, class, window, limit, times, n - 1);
        let j = n - 1;
        assert(times[j] == times[j]);
        assert(times[0] <= times[j] && times[j] - times[0] < window);
    }
}

/// Within one window, a caller's requests of a class are allowed up to the
/// class's limit and refused after it. Take a run of `check` calls by
/// `identity` of `class` at `times`, with `windows[j]` the limiter's windows
/// before call `j` (and `windows[j + 1]` after it) and `allowed[j]` whether
/// call `j` returned `Ok`, each related as `check` states. When the first call
/// finds no open window (none yet, or the last one has run its length) and
/// every call comes within the window's length of the first, exactly the first
/// `limit` calls are allowed; each later one is refused, with the error 429
/// `RATE_LIMITED` that `check` refuses with. The windows of other callers and
/// classes stay as they were.
pub proof fn lemma_requests_allowed_up_to_limit(
    windows: Seq<Map<(Seq<char>, RateClass), BucketView>>,
    allowed: Seq<bool>,
    identity: Seq<char>,
    class: RateClass,
    window: u128,
    limit: u32,
    times: Seq<u128>,
)
    requires
        windows.len() == times.len() + 1,
        allowed.len() == times.len(),
        forall|j: int|
            0 <= j < times.len() ==> windows[j + 1] == windows_after(
                windows[j],
                identity,
                class,
                window,
                limit,
                #[trigger] times[j],
            ) && allowed[j] == (current_window(windows[j], identity, class, window, times[j]).count
                < limit),
        times.len() > 0 ==> (windows[0].contains_key((identity, class)) ==> times[0] >= windows[0][(
            identity,
            class,
        )].started && times[0] - windows[0][(identity, class)].started >= window),
        forall|j: int|
            0 <= j < times.len() ==> times[0] <= #[trigger] times[j] && times[j] - times[0] < window,
    ensures
        forall|j: int| 0 <= j < times.len() ==> (#[trigger] allowed[j] <==> j < limit),
        forall|key: (Seq<char>, RateClass)|
            key != (identity, class) && #[trigger] windows[0].contains_key(key) ==> windows[times.len() as int].contains_key(
                key,
            ) && windows[times.len() as int][key] == windows[0][key],
{
    if times.len() > 0 {
        lemma_run_in_one_window(
            windows,
            allowed,
            identity,
            class,
            window,
            limit,
            times,
            times.len() as int,
        );
    }
}

/// The page size when none is asked for.
pub const DEFAULT_LIMIT: u64 = 20;

/// The largest page size.
pub const MAX_LIMIT: u64 = 100;

/// The page and page size of a request: page 1 and `DEFAULT_LIMIT` unless
/// given; the page must be positive and the size between 1 and `MAX_LIMIT`.
pub fn pagination_values(page: Option<u64>, limit: Option<u64>) -> (r: Result<(u64, u64), ApiError>)
    ensures
        ({
            let p = match page {
                Some(v) => v,
                None => 1,
            };
            let l = match limit {
                Some(v) => v,
                None => DEFAULT_LIMIT,
            };
            &&& (r is Ok <==> p > 0 && 0 < l <= MAX_LIMIT)
            &&& (r matches Ok(v) ==> v == (p, l))
        }),
        r matches Err(e) ==> e.status == 400 && e.message@
            == "page must be positive and limit must be between 1 and 100"@,
{
    let page = match page {
        Some(v) => v,
        None => 1,
    };
    let limit = match limit {
        Some(v) => v,
        None => DEFAULT_LIMIT,
    };
    if page == 0 || limit == 0 || limit > MAX_LIMIT {
        return Err(ApiError::validation("page must be positive and limit must be between 1 and 100"));
    }
    Ok((page, limit))
}

/// One page of a list, with the page asked for and the list's length.
#[derive(Clone, Debug)]
pub struct Page<T> {
    pub items: Vec<T>,
    pub page: u64,
    pub limit: u64,
    pub total: u64,
}

/// The position of the first item of page `page` of size `limit`, saturating.
pub open spec fn page_offset(page: u64, limit: u64) -> int {
    if (page - 1) * limit > u64::MAX {
        u64::MAX as int
    } else {
        (page - 1) * limit
    }
}

/// The position of the first item of page `page` of size `limit`, saturating.
pub fn page_start(page: u64, limit: u64) -> (offset: u64)
    requires
        page > 0,
    ensures
        offset == page_offset(page, limit),
{
    let a = (page - 1) as u128;
    let b = limit as u128;
    assert(a * b <= 0xffff_ffff_ffff_ffff * 0xffff_ffff_ffff_ffff) by (nonlinear_arith)
        requires
            a <= 0xffff_ffff_ffff_ffff,
            b <= 0xffff_ffff_ffff_ffff,
    ;
    let product = a * b;
    if product > u64::MAX as u128 {
        u64::MAX
    } else {
        product as u64
    }
}

/// Page `page` of size `limit` of `items`: the items from the page's offset,
/// at most `limit` of them.
pub fn page_items<T>(items: Vec<T>, page: u64, limit: u64) -> (p: Page<T>)
    requires
        page > 0,
        limit <= usize::MAX,
        items@.len() <= u64::MAX,
    ensures
        ({
            let start = if page_offset(page, limit) < items@.len() {
                page_offset(page, limit)
            } else {
                items@.len() as int
            };
            let end = if start + limit < items@.len() {
                start + limit
            } else {
                items@.len() as int
            };
            p.items@ == items@.subrange(start, end)
        }),
        p.page == page,
        p.limit == limit,
        p.total == items@.len(),
{
    let total = items.len() as u64;
    let offset = page_start(page, limit);
    let n = items.len();
    let mut out: Vec<T> = Vec::new();
    let start: usize = if (offset as u128) < (n as u128) {
        offset as usize
    } else {
        n
    };
    let end: usize = if (start as u128) + (limit as u128) < (n as u128) {
        start + limit as usize
    } else {
        n
    };
    let mut rest = items;
    let mut i: usize = 0;
    let ghost all = rest@;
    while rest.len() > 0
        invariant
            all.len() == n,
            rest@ == all.subrange(i as int, n as int),
            i <= n,
            start <= end <= n,
            out@ == all.subrange(start as int, if (i as int) < (start as int) {
                start as int
            } else if (i as int) < (end as int) {
                i as int
            } else {
                end as int
            }),
        decreases rest@.len(),
    {
        let item = rest.remove(0);
        if i >= start && i < end {
            out.push(item);
        }
        i = i + 1;
        assert(out@ =~= all.subrange(start as int, if (i as int) < (start as int) {
            start as int
        } else if (i as int) < (end as int) {
            i as int
        } else {
            end as int
        }));
    }
    Page { items: out, page, limit, total }
}

/// The heights of the blocks to list: from `from`, or else from the page's
/// offset, at most `limit` of them and none past the last of `total` blocks.
pub fn block_range(from: Option<u64>, page: u64, limit: u64, total: u64) -> (r: Option<(u64, u64)>)
    requires
        page > 0,
        limit > 0,
    ensures
        ({
            let offset = match from {
                Some(v) => v as int,
                None => page_offset(page, limit),
            };
            &&& (r is None <==> offset >= total)
            &&& (r matches Some(range) ==> range.0 == offset && range.1 == (if offset + limit - 1
                < total - 1 {
                offset + limit - 1
            } else {
                total - 1
            }))
        }),
{
    let offset = match from {
        Some(v) => v,
        None => page_start(page, limit),
    };
    if offset >= total {
        return None;
    }
    let last = if total - 1 - offset > limit - 1 {
        offset + (limit - 1)
    } else {
        total - 1
    };
    Some((offset, last))
}

/// Checks that a block hash is 64 hexadecimal characters.
pub fn validate_hash(value: &str) -> (r: Result<(), ApiError>)
    ensures
        r is Ok <==> utf8(value@).len() == 64 && hex_decode(utf8(value@)) is Some,
        r matches Err(e) ==> e.status == 400 && e.message@
            == "Block hash must be 64 hexadecimal characters"@,
{
    if value.as_bytes().len() != 64 || decode_hex(value).is_err() {
        return Err(ApiError::validation("Block hash must be 64 hexadecimal characters"));
    }
    Ok(())
}

/// Checks that a record ID is present and at most `MAX_RECORD_ID_BYTES` bytes.
pub fn validate_record_id(value: &str) -> (r: Result<(), ApiError>)
    ensures
        r is Ok <==> 0 < utf8(value@).len() <= MAX_RECORD_ID_BYTES,
        r matches Err(e) ==> e.status == 400 && e.message@ == "Record ID is empty or too large"@,
{
    let n = value.as_bytes().len();
    if n == 0 || n > MAX_RECORD_ID_BYTES {
        return Err(ApiError::validation("Record ID is empty or too large"));
    }
    Ok(())
}

/// How the node stands against its peers: syncing if a peer is syncing,
/// diverged if a peer at the same height reports another newest hash,
/// behind if a peer is higher, offline if every peer is disconnected or
/// failed, and synced otherwise.
pub open spec fn sync_state_of(height: u64, hash: Seq<char>, peers: Seq<Peer>) -> SyncState {
    if exists|i: int| 0 <= i < peers.len() && (#[trigger] peers[i]).state == PeerState::Syncing {
        SyncState::Syncing
    } else if exists|i: int|
        0 <= i < peers.len() && (#[trigger] peers[i]).height == height && peers[i].latest_hash@.len() > 0
            && peers[i].latest_hash@ != hash {
        SyncState::Diverged
    } else if exists|i: int| 0 <= i < peers.len() && (#[trigger] peers[i]).height > height {
        SyncState::Behind
    } else if peers.len() > 0 && forall|i: int|
        0 <= i < peers.len() ==> ((#[trigger] peers[i]).state == PeerState::Disconnected
            || peers[i].state == PeerState::Failed) {
        SyncState::Offline
    } else {
        SyncState::Synced
    }
}

/// How the node at `height` with newest block `hash` stands against `peers`.
pub fn sync_state(height: u64, hash: &str, peers: &[Peer]) -> (s: SyncState)
    ensures
        s == sync_state_of(height, hash@, peers@),
{
    let mut syncing = false;
    let mut diverged = false;
    let mut behind = false;
    let mut all_down = true;
    let mut i: usize = 0;
    while i < peers.len()
        invariant
            i <= peers@.len(),
            syncing == exists|k: int| 0 <= k < i && (#[trigger] peers@[k]).state == PeerState::Syncing,
            diverged == exists|k: int|
                0 <= k < i && (#[trigger] peers@[k]).height == height && peers@[k].latest_hash@.len() > 0
                    && peers@[k].latest_hash@ != hash@,
            behind == exists|k: int| 0 <= k < i && (#[trigger] peers@[k]).height > height,
            all_down == forall|k: int|
                0 <= k < i ==> ((#[trigger] peers@[k]).state == PeerState::Disconnected
                    || peers@[k].state == PeerState::Failed),
        decreases peers@.len() - i,
    {
        let peer = &peers[i];
        proof {
            crate::text::lemma_text_empty_iff(peer.latest_hash@);
        }
        if peer.state == PeerState::Syncing {
            syncing = true;
        }
        if peer.height == height && peer.latest_hash.as_str().as_bytes().len() > 0 && !same_text(
            peer.latest_hash.as_str(),
            hash,
        ) {
            diverged = true;
        }
        if peer.height > height {
            behind = true;
        }
        if !(peer.state == PeerState::Disconnected || peer.state == PeerState::Failed) {
            all_down = false;
        }
        i = i + 1;
    }
    if syncing {
        SyncState::Syncing
    } else if diverged {
        SyncState::Diverged
    } else if behind {
        SyncState::Behind
    } else if peers.len() > 0 && all_down {
        SyncState::Offline
    } else {
        SyncState::Synced
    }
}

/// The block an error of the library names, if it names one.
pub open spec fn failed_block(e: ErrorSpec) -> Option<u64> {
    match e {
        ErrorSpec::InvalidBlockHash { index, .. }
        | ErrorSpec::InvalidBlockIndex { index, .. }
        | ErrorSpec::InvalidPreviousHash { index }
        | ErrorSpec::UnsupportedBlockVersion { index, .. }
        | ErrorSpec::InvalidMerkleRoot { index }
        | ErrorSpec::BlockTimestampBeforeParent { index }
        | ErrorSpec::EmptyBlock { index } => Some(index),
        _ => None,
    }
}

/// The block an error names, if it names one.
pub fn failure_block(error: &MiniChainError) -> (r: Option<u64>)
    ensures
        r == failed_block(error@),
{
    match error {
        MiniChainError::InvalidBlockHash { index, .. }
        | MiniChainError::InvalidBlockIndex { index, .. }
        | MiniChainError::InvalidPreviousHash { index }
        | MiniChainError::UnsupportedBlockVersion { index, .. }
        | MiniChainError::InvalidMerkleRoot { index }
        | MiniChainError::BlockTimestampBeforeParent { index }
        | MiniChainError::EmptyBlock { index } => Some(*index),
        _ => None,
    }
}

/// Whether a peer's height or newest hash differs from `height` and `hash`.
pub open spec fn differs_from(height: u64, hash: Seq<char>) -> spec_fn(Peer) -> bool {
    |p: Peer| p.height != height || p.latest_hash@ != hash
}

/// The node ID of a peer.
pub open spec fn peer_id_of() -> spec_fn(Peer) -> Seq<char> {
    |p: Peer| p.id@
}

/// The IDs of the peers whose height or newest hash differs from the node's, in order.
pub fn inconsistent_peers(height: u64, hash: &str, peers: &[Peer]) -> (ids: Vec<String>)
    ensures
        texts(ids@) == peers@.filter(differs_from(height, hash@)).map_values(peer_id_of()),
{
    let ghost keep = differs_from(height, hash@);
    let mut ids: Vec<String> = Vec::new();
    let mut i: usize = 0;
    while i < peers.len()
        invariant
            i <= peers@.len(),
            keep == differs_from(height, hash@),
            texts(ids@) == peers@.subrange(0, i as int).filter(keep).map_values(peer_id_of()),
        decreases peers@.len() - i,
    {
        let peer = &peers[i];
        let ghost before = ids@;
        let ghost prefix = peers@.subrange(0, i as int);
        proof {
            assert(peers@.subrange(0, i + 1) =~= prefix.push(*peer));
            prefix.lemma_filter_push(*peer, keep);
        }
        if peer.height != height || !same_text(peer.latest_hash.as_str(), hash) {
            ids.push(peer.id.clone());
            proof {
                assert(texts(ids@) =~= texts(before).push(peer.id@));
                assert(prefix.filter(keep).push(*peer).map_values(peer_id_of()) =~= prefix.filter(
                    keep,
                ).map_values(peer_id_of()).push(peer.id@));
            }
        }
        i = i + 1;
    }
    assert(peers@.subrange(0, peers@.len() as int) =~= peers@);
    ids
}

/// The number of peers that are ready.
pub fn healthy_peer_count(peers: &[Peer]) -> (n: usize)
    ensures
        n == peers@.filter(|p: Peer| p.state == PeerState::Ready).len(),
{
    let ghost keep = |p: Peer| p.state == PeerState::Ready;
    let mut n: usize = 0;
    let mut i: usize = 0;
    while i < peers.len()
        invariant
            i <= peers@.len(),
            keep == (|p: Peer| p.state == PeerState::Ready),
            n == peers@.subrange(0, i as int).filter(keep).len(),
            n <= i,
        decreases peers@.len() - i,
    {
        proof {
            assert(peers@.subrange(0, i + 1) =~= peers@.subrange(0, i as int).push(peers@[i as int]));
            peers@.subrange(0, i as int).lemma_filter_push(peers@[i as int], keep);
        }
        if peers[i].state == PeerState::Ready {
            n = n + 1;
        }
        i = i + 1;
    }
    assert(peers@.subrange(0, peers@.len() as int) =~= peers@);
    n
}

/// Who a token belongs to, as the API reports it.
#[derive(Clone, Debug)]
pub struct AuthIdentityResponse {
    pub identity: String,
    pub role: ApiRole,
}

/// The node's health.
#[derive(Clone, Debug)]
pub struct HealthResponse {
    pub status: &'static str,
    pub node_id: String,
    pub height: u64,
    pub sync: SyncState,
    pub peers: usize,
}

/// Whether the node serves requests.
#[derive(Clone, Debug)]
pub struct ReadyResponse {
    pub ready: bool,
}

/// The page asked for.
#[derive(Clone, Debug)]
pub struct PaginationQuery {
    pub page: Option<u64>,
    pub limit: Option<u64>,
}

/// The page of blocks asked for, optionally from a height.
#[derive(Clone, Debug)]
pub struct BlockListQuery {
    pub page: Option<u64>,
    pub limit: Option<u64>,
    pub from: Option<u64>,
}

/// The page of transactions asked for, optionally of one operation.
#[derive(Clone, Debug)]
pub struct TransactionListQuery {
    pub page: Option<u64>,
    pub limit: Option<u64>,
    pub operation: Option<crate::transaction::Operation>,
}

/// Whether a block carries a validator signature (it is not checked).
#[derive(Clone, Copy, Debug, PartialEq, Eq, Structural)]
pub enum SignatureStatus {
    Missing,
    PresentUnverified,
}

/// The page of validators asked for, optionally only active or inactive ones.
#[derive(Clone, Debug)]
pub struct ValidatorQuery {
    pub active: Option<bool>,
    pub page: Option<u64>,
    pub limit: Option<u64>,
}

/// The node's view of the network.
#[derive(Clone, Debug)]
pub struct NetworkStatusResponse {
    pub node_id: String,
    pub height: u64,
    pub latest_hash: String,
    pub sync_state: SyncState,
    pub peer_count: usize,
    pub healthy_peers: usize,
    pub protocol_version: u16,
    pub mempool_size: usize,
}

/// Whether the node's peers agree with its chain.
#[derive(Clone, Debug)]
pub struct ConsistencyResponse {
    pub consistent: bool,
    pub checked_peers: usize,
    pub local_height: u64,
    pub local_hash: String,
    pub inconsistent_peers: Vec<String>,
}

/// The result of acting on a peer.
#[derive(Clone, Debug)]
pub struct NetworkActionResponse {
    pub peer_id: String,
    pub height: u64,
    pub latest_hash: String,
    pub latency_ms: Option<u64>,
}

/// The result of validating the chain or a block.
#[derive(Clone, Debug)]
pub struct ChainValidationResponse {
    pub valid: bool,
    pub checked_height: u64,
    pub failure_block: Option<u64>,
    pub failure_reason: Option<String>,
}

impl ChainValidationResponse {
    /// The answer for a chain that was read from storage: the report of its
    /// check, over its height.
    pub fn of_chain(chain: &Blockchain) -> (r: Self)
        requires
            chain.valid(),
        ensures
            r.valid,
            r.checked_height == chain.chain().len() - 1,
            r.failure_block is None,
            r.failure_reason is None,
    {
        let report = chain.validate();
        let (failure_block, failure_reason) = if report.issues.len() > 0 {
            (Some(report.issues[0].block_index), Some(report.issues[0].reason.clone()))
        } else {
            (None, None)
        };
        ChainValidationResponse {
            valid: report.valid,
            checked_height: chain.height(),
            failure_block,
            failure_reason,
        }
    }

    /// The answer for a chain that could not be read: invalid at the height
    /// the stored metadata gives, with the block the error names and its message.
    pub fn of_failure(error: &MiniChainError, stored_height: u64) -> (r: Self)
        ensures
            !r.valid,
            r.checked_height == stored_height,
            r.failure_block == failed_block(error@),
            r.failure_reason matches Some(m) && m@ == error_message(error@),
    {
        ChainValidationResponse {
            valid: false,
            checked_height: stored_height,
            failure_block: failure_block(error),
            failure_reason: Some(error.message()),
        }
    }

    /// The answer for the block at `height` checked on its own, given the
    /// outcome of its check.
    pub fn of_block(height: u64, checked: &Result<(), MiniChainError>) -> (r: Self)
        ensures
            r.valid <==> checked is Ok,
            r.checked_height == height,
            checked is Ok ==> r.failure_block is None && r.failure_reason is None,
            checked matches Err(e) ==> r.failure_block == Some(height) && (r.failure_reason matches Some(
                m,
            ) && m@ == error_message(e@)),
    {
        match checked {
            Ok(()) => ChainValidationResponse {
                valid: true,
                checked_height: height,
                failure_block: None,
                failure_reason: None,
            },
            Err(error) => ChainValidationResponse {
                valid: false,
                checked_height: height,
                failure_block: Some(height),
                failure_reason: Some(error.message()),
            },
        }
    }
}

/// Whether a validator passes the `active` filter; every validator does
/// when none is given.
pub open spec fn passes_active(active: Option<bool>) -> spec_fn(Validator) -> bool {
    |v: Validator|
        match active {
            Some(a) => v.active == a,
            None => true,
        }
}

/// The validators that pass the `active` filter, in order of their IDs.
pub fn validators_in_order(items: Vec<Validator>, active: Option<bool>) -> (listed: Vec<Validator>)
    ensures
        in_key_order(listed@),
        listed@.to_multiset() == items@.filter(passes_active(active)).to_multiset(),
{
    let ghost keep = passes_active(active);
    let ghost all = items@;
    let mut rest = items;
    let mut kept: Vec<Validator> = Vec::new();
    let ghost mut i: int = 0;
    proof {
        reveal(Seq::filter);
        assert(all.subrange(0, 0) =~= Seq::<Validator>::empty());
        assert(all.subrange(0, all.len() as int) =~= all);
    }
    while rest.len() > 0
        invariant
            keep == passes_active(active),
            0 <= i <= all.len(),
            rest@ == all.subrange(i, all.len() as int),
            kept@ == all.subrange(0, i).filter(keep),
        decreases rest@.len(),
    {
        let ghost before = kept@;
        let item = rest.remove(0);
        proof {
            assert(item == all[i]);
            assert(all.subrange(0, i + 1) =~= all.subrange(0, i).push(item));
            all.subrange(0, i).lemma_filter_push(item, keep);
            assert(rest@ =~= all.subrange(i + 1, all.len() as int));
        }
        let pass = match active {
            Some(a) => item.active == a,
            None => true,
        };
        if pass {
            kept.push(item);
        }
        proof {
            i = i + 1;
        }
    }
    proof {
        assert(all.subrange(0, all.len() as int) =~= all);
    }
    sort_by_key(kept)
}

/// Whether a stored transaction passes the operation filter; every one does
/// when none is given.
pub open spec fn has_operation(operation: Option<Operation>) -> spec_fn(StoredTransaction) -> bool {
    |s: StoredTransaction|
        match operation {
            Some(o) => s.transaction.operation == o,
            None => true,
        }
}

/// The stored transactions that pass the operation filter, in their order.
pub fn with_operation(items: Vec<StoredTransaction>, operation: Option<Operation>) -> (kept: Vec<
    StoredTransaction,
>)
    ensures
        kept@ == items@.filter(has_operation(operation)),
{
    let ghost keep = has_operation(operation);
    let ghost all = items@;
    let mut rest = items;
    let mut kept: Vec<StoredTransaction> = Vec::new();
    let ghost mut i: int = 0;
    proof {
        reveal(Seq::filter);
        assert(all.subrange(0, 0) =~= Seq::<StoredTransaction>::empty());
        assert(all.subrange(0, all.len() as int) =~= all);
    }
    while rest.len() > 0
        invariant
            keep == has_operation(operation),
            0 <= i <= all.len(),
            rest@ == all.subrange(i, all.len() as int),
            kept@ == all.subrange(0, i).filter(keep),
        decreases rest@.len(),
    {
        let item = rest.remove(0);
        proof {
            assert(item == all[i]);
            assert(all.subrange(0, i + 1) =~= all.subrange(0, i).push(item));
            all.subrange(0, i).lemma_filter_push(item, keep);
            assert(rest@ =~= all.subrange(i + 1, all.len() as int));
        }
        let pass = match operation {
            Some(o) => item.transaction.operation == o,
            None => true,
        };
        if pass {
            kept.push(item);
        }
        proof {
            i = i + 1;
        }
    }
    proof {
        assert(all.subrange(0, all.len() as int) =~= all);
    }
    kept
}

} // verus!
