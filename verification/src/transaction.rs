//! Signed transactions: one requested change to a record.
use vstd::prelude::*;

use crate::crypto::{
    ValidatorIdentity, ed25519_public_key_of, ed25519_signature_of, ed25519_strict_accepts,
    public_key_valid, sha256, sha256_digest, signature_check, verify_signature,
};
use crate::error::{ErrorSpec, MiniChainError, outcome};
use crate::json::{
    JsonSpec, JsonValue, append_bytes, append_json, append_string, bytes_field, entries_are_canonical,
    entries_canonical, entries_size_limited, entries_view, json_bytes, json_canonical, json_entries_bytes,
    json_equal, json_is_canonical, json_size_limited, json_size_within, metadata_size_within, text_field,
};
use crate::text::{be_bytes, encode_hex, hex_text, push_be, push_i64_be, twos_complement_64, utf8};

verus! {

/// The longest record ID, in bytes.
pub const MAX_RECORD_ID_BYTES: usize = 256;

/// The longest actor ID, in bytes.
pub const MAX_ACTOR_ID_BYTES: usize = 128;

/// The largest payload, by JSON size.
pub const MAX_PAYLOAD_BYTES: usize = 65536;

/// The most metadata entries.
pub const MAX_METADATA_ENTRIES: usize = 64;

/// The largest metadata, by JSON size.
pub const MAX_METADATA_BYTES: usize = 16384;

/// A UTC instant: seconds since the Unix epoch and the nanoseconds within that second.
#[derive(Clone, Copy, Debug, PartialEq, Eq, Structural)]
pub struct Timestamp {
    pub seconds: i64,
    pub nanos: u32,
}

/// Whether instant `a` is strictly earlier than instant `b`.
pub open spec fn earlier(a: Timestamp, b: Timestamp) -> bool {
    a.seconds < b.seconds || (a.seconds == b.seconds && a.nanos < b.nanos)
}

/// Instants are ordered by their seconds, and within a second by their
/// nanoseconds: of two different instants exactly one is earlier, no instant
/// is earlier than itself, and the order is transitive.
pub proof fn lemma_earlier_orders_instants(a: Timestamp, b: Timestamp, c: Timestamp)
    ensures
        a.seconds < b.seconds ==> earlier(a, b),
        a.seconds > b.seconds ==> !earlier(a, b),
        a.seconds == b.seconds ==> (earlier(a, b) <==> a.nanos < b.nanos),
        !earlier(a, a),
        a != b ==> (earlier(a, b) != earlier(b, a)),
        earlier(a, b) && earlier(b, c) ==> earlier(a, c),
{
}

impl Timestamp {
    /// Whether this instant is strictly earlier than `other`.
    pub fn is_before(&self, other: &Timestamp) -> (r: bool)
        ensures
            r == earlier(*self, *other),
            r <==> (self.seconds < other.seconds || (self.seconds == other.seconds && self.nanos
                < other.nanos)),
    {
        self.seconds < other.seconds || (self.seconds == other.seconds && self.nanos < other.nanos)
    }
}

/// A fresh random identifier (`uuid::Uuid::new_v4`, as its 128-bit value).
/// Nothing is stated of it.
#[verifier::external_body]
pub(crate) fn random_id() -> u128 {
    uuid::Uuid::new_v4().as_u128()
}

/// The earliest second a UTC date-time can hold: the start of year -262143.
pub const MIN_TIME_SECONDS: i64 = -8_334_601_315_200;

/// The last second a UTC date-time can hold: the end of year 262142.
pub const MAX_TIME_SECONDS: i64 = 8_210_266_876_799;

/// The current time of the system clock (`chrono::Utc::now`, as seconds and
/// nanoseconds). `Utc::now` returns only for a clock at or after the Unix
/// epoch, within the range of a date-time, and outside a leap second; which
/// instant it returns is not stated.
#[verifier::external_body]
pub(crate) fn current_time() -> (now: Timestamp)
    ensures
        0 <= now.seconds <= MAX_TIME_SECONDS,
        now.nanos < 1_000_000_000,
{
    let now = chrono::Utc::now();
    Timestamp { seconds: now.timestamp(), nanos: now.timestamp_subsec_nanos() }
}

/// The encoding of an instant: seconds as eight two's-complement bytes, then
/// nanoseconds as four bytes, both big-endian.
pub open spec fn timestamp_bytes(t: Timestamp) -> Seq<u8> {
    be_bytes(twos_complement_64(t.seconds as int), 8) + be_bytes(t.nanos as nat, 4)
}

/// Appends the encoding of an instant.
pub fn append_timestamp(target: &mut Vec<u8>, t: Timestamp)
    ensures
        final(target)@ == old(target)@ + timestamp_bytes(t),
{
    push_i64_be(target, t.seconds);
    push_be(target, t.nanos as u128, 4);
    assert(final(target)@ =~= old(target)@ + timestamp_bytes(t));
}

/// What a transaction does to its record.
#[derive(Clone, Copy, Debug, PartialEq, Eq, Structural)]
pub enum Operation {
    CreateRecord,
    UpdateRecord,
    RevokeRecord,
    VerifyRecord,
    AuditEvent,
}

/// The byte that stands for an operation in signed bytes.
pub open spec fn operation_code(op: Operation) -> u8 {
    match op {
        Operation::CreateRecord => 1,
        Operation::UpdateRecord => 2,
        Operation::RevokeRecord => 3,
        Operation::VerifyRecord => 4,
        Operation::AuditEvent => 5,
    }
}

impl Operation {
    /// The byte that stands for this operation in signed bytes.
    pub fn code(self) -> (c: u8)
        ensures
            c == operation_code(self),
    {
        match self {
            Operation::CreateRecord => 1,
            Operation::UpdateRecord => 2,
            Operation::RevokeRecord => 3,
            Operation::VerifyRecord => 4,
            Operation::AuditEvent => 5,
        }
    }
}

/// A signed request to change a record.
#[derive(Debug)]
pub struct Transaction {
    pub id: u128,
    pub timestamp: Timestamp,
    pub operation: Operation,
    pub record_id: String,
    pub actor_id: String,
    pub payload: JsonValue,
    pub metadata: Vec<(String, JsonValue)>,
    pub signer_public_key: Vec<u8>,
    pub signature: Vec<u8>,
    pub hash: String,
}

/// The value of a transaction.
pub struct TransactionView {
    pub id: u128,
    pub timestamp: Timestamp,
    pub operation: Operation,
    pub record_id: Seq<char>,
    pub actor_id: Seq<char>,
    pub payload: JsonSpec,
    pub metadata: Seq<(Seq<char>, JsonSpec)>,
    pub signer_public_key: Seq<u8>,
    pub signature: Seq<u8>,
    pub hash: Seq<char>,
}

impl View for Transaction {
    type V = TransactionView;

    open spec fn view(&self) -> TransactionView {
        TransactionView {
            id: self.id,
            timestamp: self.timestamp,
            operation: self.operation,
            record_id: self.record_id@,
            actor_id: self.actor_id@,
            payload: self.payload@,
            metadata: entries_view(self.metadata@),
            signer_public_key: self.signer_public_key@,
            signature: self.signature@,
            hash: self.hash@,
        }
    }
}

/// The bytes that a transaction's signature covers.
pub open spec fn signing_bytes(t: TransactionView) -> Seq<u8> {
    seq![1u8] + be_bytes(t.id as nat, 16) + timestamp_bytes(t.timestamp) + seq![
        operation_code(t.operation),
    ] + text_field(t.record_id) + text_field(t.actor_id) + json_bytes(t.payload) + be_bytes(
        t.metadata.len(),
        8,
    ) + json_entries_bytes(t.metadata) + bytes_field(t.signer_public_key)
}

/// The bytes that a transaction's hash covers: the signed bytes and the signature.
pub open spec fn canonical_bytes(t: TransactionView) -> Seq<u8> {
    signing_bytes(t) + bytes_field(t.signature)
}

/// The hash a transaction should carry: SHA-256 of its canonical bytes, as text.
pub open spec fn transaction_hash(t: TransactionView) -> Seq<char> {
    hex_text(sha256_digest(canonical_bytes(t)))
}

/// Whether a text field is non-empty and at most `limit` bytes long.
pub open spec fn text_within(text: Seq<char>, limit: nat) -> bool {
    utf8(text).len() > 0 && utf8(text).len() <= limit
}

/// The outcome of validating a transaction.
pub open spec fn transaction_check(t: TransactionView) -> Result<(), ErrorSpec> {
    if !text_within(t.record_id, MAX_RECORD_ID_BYTES as nat) {
        Err(ErrorSpec::InvalidTransactionField { field: "record_id"@ })
    } else if !text_within(t.actor_id, MAX_ACTOR_ID_BYTES as nat) {
        Err(ErrorSpec::InvalidTransactionField { field: "actor_id"@ })
    } else if json_size_limited(t.payload, MAX_PAYLOAD_BYTES as nat) is None {
        Err(ErrorSpec::TransactionPayloadTooLarge { limit: MAX_PAYLOAD_BYTES })
    } else if t.metadata.len() > MAX_METADATA_ENTRIES || entries_size_limited(
        t.metadata,
        MAX_METADATA_BYTES as nat,
    ) is None {
        Err(ErrorSpec::TransactionMetadataTooLarge)
    } else if !json_canonical(t.payload) {
        Err(ErrorSpec::InvalidTransactionField { field: "payload"@ })
    } else if !entries_canonical(t.metadata) {
        Err(ErrorSpec::InvalidTransactionField { field: "metadata"@ })
    } else if t.hash != transaction_hash(t) {
        Err(ErrorSpec::InvalidTransactionHash { id: t.id })
    } else if t.signature.len() == 0 {
        Err(ErrorSpec::MissingTransactionSignature { id: t.id })
    } else {
        signature_check(t.signer_public_key, signing_bytes(t), t.signature)
    }
}

/// A transaction signed by an identity validates when its fields are within
/// their limits, its JSON objects hold their keys in strictly increasing order
/// and strict verification accepts the signature its signer made:
/// the hash it carries and the key it names are the ones the check recomputes.
pub proof fn lemma_signed_transaction_validates(t: TransactionView, secret: Seq<u8>)
    requires
        text_within(t.record_id, MAX_RECORD_ID_BYTES as nat),
        text_within(t.actor_id, MAX_ACTOR_ID_BYTES as nat),
        json_size_limited(t.payload, MAX_PAYLOAD_BYTES as nat) is Some,
        t.metadata.len() <= MAX_METADATA_ENTRIES,
        entries_size_limited(t.metadata, MAX_METADATA_BYTES as nat) is Some,
        json_canonical(t.payload),
        entries_canonical(t.metadata),
        t.signer_public_key == ed25519_public_key_of(secret),
        public_key_valid(t.signer_public_key),
        t.signature == ed25519_signature_of(secret, signing_bytes(t)),
        t.signature.len() == 64,
        t.hash == transaction_hash(t),
        ed25519_strict_accepts(t.signer_public_key, signing_bytes(t), t.signature),
    ensures
        transaction_check(t) is Ok,
{
}

/// Copies object entries.
pub fn copy_entries(entries: &Vec<(String, JsonValue)>) -> (r: Vec<(String, JsonValue)>)
    ensures
        entries_view(r@) == entries_view(entries@),
{
    let mut out: Vec<(String, JsonValue)> = Vec::new();
    let mut i: usize = 0;
    while i < entries.len()
        invariant
            i <= entries@.len(),
            out@.len() == i,
            forall|k: int|
                0 <= k < i ==> (#[trigger] out@[k]).0@ == entries@[k].0@ && out@[k].1@
                    == entries@[k].1@,
        decreases entries@.len() - i,
    {
        let entry = &entries[i];
        out.push((entry.0.clone(), entry.1.deep_copy()));
        i = i + 1;
    }
    assert(entries_view(out@) =~= entries_view(entries@));
    out
}

/// Copies bytes.
pub fn copy_bytes(bytes: &[u8]) -> (r: Vec<u8>)
    ensures
        r@ == bytes@,
{
    let mut out: Vec<u8> = Vec::new();
    crate::text::push_bytes(&mut out, bytes);
    assert(out@ =~= bytes@);
    out
}

impl Clone for Transaction {
    fn clone(&self) -> (r: Self)
        ensures
            r@ == self@,
    {
        Transaction {
            id: self.id,
            timestamp: self.timestamp,
            operation: self.operation,
            record_id: self.record_id.clone(),
            actor_id: self.actor_id.clone(),
            payload: self.payload.deep_copy(),
            metadata: copy_entries(&self.metadata),
            signer_public_key: copy_bytes(self.signer_public_key.as_slice()),
            signature: copy_bytes(self.signature.as_slice()),
            hash: self.hash.clone(),
        }
    }
}

impl Transaction {
    /// A transaction with a fresh ID and the current time, signed by `identity`.
    pub fn new(
        operation: Operation,
        record_id: &str,
        payload: JsonValue,
        metadata: Vec<(String, JsonValue)>,
        identity: &ValidatorIdentity,
    ) -> (t: Self)
        ensures
            t@.operation == operation,
            t@.record_id == record_id@,
            t@.actor_id == identity.id(),
            t@.payload == payload@,
            t@.metadata == entries_view(metadata@),
            t@.signer_public_key == ed25519_public_key_of(identity.secret_key()),
            t@.signature == ed25519_signature_of(identity.secret_key(), signing_bytes(t@)),
            t@.hash == transaction_hash(t@),
            public_key_valid(t@.signer_public_key),
            t@.signature.len() == 64,
    {
        Self::with_identity(
            random_id(),
            current_time(),
            operation,
            record_id,
            payload,
            metadata,
            identity,
        )
    }

    /// The transaction with the given ID and time, signed by `identity`.
    pub fn with_identity(
        id: u128,
        timestamp: Timestamp,
        operation: Operation,
        record_id: &str,
        payload: JsonValue,
        metadata: Vec<(String, JsonValue)>,
        identity: &ValidatorIdentity,
    ) -> (t: Self)
        ensures
            t@.id == id,
            t@.timestamp == timestamp,
            t@.operation == operation,
            t@.record_id == record_id@,
            t@.actor_id == identity.id(),
            t@.payload == payload@,
            t@.metadata == entries_view(metadata@),
            t@.signer_public_key == ed25519_public_key_of(identity.secret_key()),
            t@.signature == ed25519_signature_of(identity.secret_key(), signing_bytes(t@)),
            t@.hash == transaction_hash(t@),
            public_key_valid(t@.signer_public_key),
            t@.signature.len() == 64,
    {
        let public_key = identity.public_key();
        let mut transaction = Transaction {
            id,
            timestamp,
            operation,
            record_id: record_id.to_owned(),
            actor_id: identity.validator_id().to_owned(),
            payload,
            metadata,
            signer_public_key: copy_bytes(public_key.as_slice()),
            signature: Vec::new(),
            hash: String::new(),
        };
        let bytes = transaction.signing_bytes();
        let signature = identity.sign(bytes.as_slice());
        transaction.signature = copy_bytes(signature.as_slice());
        transaction.hash = transaction.calculate_hash();
        transaction
    }

    /// SHA-256 of the canonical bytes, as lowercase hexadecimal text.
    pub fn calculate_hash(&self) -> (h: String)
        ensures
            h@ == transaction_hash(self@),
    {
        let bytes = self.canonical_bytes();
        encode_hex(sha256(bytes.as_slice()).as_slice())
    }

    /// Checks the fields, the size limits, the hash and the signature.
    pub fn validate(&self) -> (r: Result<(), MiniChainError>)
        ensures
            outcome(r) == transaction_check(self@),
    {
        validate_text(self.record_id.as_str(), MAX_RECORD_ID_BYTES, "record_id")?;
        validate_text(self.actor_id.as_str(), MAX_ACTOR_ID_BYTES, "actor_id")?;
        if json_size_within(&self.payload, MAX_PAYLOAD_BYTES).is_none() {
            return Err(MiniChainError::TransactionPayloadTooLarge { limit: MAX_PAYLOAD_BYTES });
        }
        if self.metadata.len() > MAX_METADATA_ENTRIES || metadata_size_within(
            &self.metadata,
            MAX_METADATA_BYTES,
        ).is_none() {
            return Err(MiniChainError::TransactionMetadataTooLarge);
        }
        if !json_is_canonical(&self.payload) {
            return Err(MiniChainError::InvalidTransactionField { field: "payload" });
        }
        if !entries_are_canonical(&self.metadata) {
            return Err(MiniChainError::InvalidTransactionField { field: "metadata" });
        }
        let calculated = self.calculate_hash();
        if self.hash != calculated {
            return Err(MiniChainError::InvalidTransactionHash { id: self.id });
        }
        if self.signature.len() == 0 {
            return Err(MiniChainError::MissingTransactionSignature { id: self.id });
        }
        let bytes = self.signing_bytes();
        verify_signature(self.signer_public_key.as_slice(), bytes.as_slice(), self.signature.as_slice())
    }

    /// The bytes that the signature covers.
    pub fn signing_bytes(&self) -> (bytes: Vec<u8>)
        ensures
            bytes@ == signing_bytes(self@),
    {
        let mut bytes: Vec<u8> = Vec::new();
        bytes.push(1u8);
        push_be(&mut bytes, self.id, 16);
        append_timestamp(&mut bytes, self.timestamp);
        bytes.push(self.operation.code());
        append_string(&mut bytes, self.record_id.as_str());
        append_string(&mut bytes, self.actor_id.as_str());
        append_json(&mut bytes, &self.payload);
        push_be(&mut bytes, self.metadata.len() as u128, 8);
        let ghost head = bytes@;
        let ghost all = entries_view(self.metadata@);
        let mut i: usize = 0;
        while i < self.metadata.len()
            invariant
                i <= self.metadata@.len(),
                all == entries_view(self.metadata@),
                bytes@ == head + json_entries_bytes(all.subrange(0, i as int)),
            decreases self.metadata@.len() - i,
        {
            let entry = &self.metadata[i];
            append_string(&mut bytes, entry.0.as_str());
            append_json(&mut bytes, &entry.1);
            proof {
                let next = all.subrange(0, i + 1);
                assert(next.drop_last() =~= all.subrange(0, i as int));
                assert(next.last() == (entry.0@, entry.1@));
            }
            i = i + 1;
        }
        assert(all.subrange(0, self.metadata@.len() as int) =~= all);
        append_bytes(&mut bytes, self.signer_public_key.as_slice());
        assert(bytes@ =~= signing_bytes(self@));
        bytes
    }

    /// The bytes that the hash covers.
    pub fn canonical_bytes(&self) -> (bytes: Vec<u8>)
        ensures
            bytes@ == canonical_bytes(self@),
    {
        let mut bytes = self.signing_bytes();
        append_bytes(&mut bytes, self.signature.as_slice());
        bytes
    }
}

/// Checks that a text field is non-empty and at most `limit` bytes long.
pub fn validate_text(value: &str, limit: usize, field: &'static str) -> (r: Result<
    (),
    MiniChainError,
>)
    ensures
        r is Ok <==> text_within(value@, limit as nat),
        r matches Err(e) ==> (e == MiniChainError::InvalidTransactionField { field }),
{
    let length = value.as_bytes().len();
    if length == 0 || length > limit {
        return Err(MiniChainError::InvalidTransactionField { field });
    }
    Ok(())
}

/// Whether two byte strings are equal.
pub fn same_bytes(a: &[u8], b: &[u8]) -> (r: bool)
    ensures
        r == (a@ == b@),
{
    if a.len() != b.len() {
        return false;
    }
    let mut i: usize = 0;
    while i < a.len()
        invariant
            a@.len() == b@.len(),
            i <= a@.len(),
            forall|k: int| 0 <= k < i ==> a@[k] == b@[k],
        decreases a@.len() - i,
    {
        if a[i] != b[i] {
            return false;
        }
        i = i + 1;
    }
    assert(a@ =~= b@);
    true
}

/// Whether two lists of metadata entries are equal.
pub fn same_entries(a: &Vec<(String, JsonValue)>, b: &Vec<(String, JsonValue)>) -> (r: bool)
    ensures
        r == (entries_view(a@) == entries_view(b@)),
{
    if a.len() != b.len() {
        assert(entries_view(a@).len() != entries_view(b@).len());
        return false;
    }
    let mut i: usize = 0;
    while i < a.len()
        invariant
            a@.len() == b@.len(),
            i <= a@.len(),
            forall|k: int| 0 <= k < i ==> entries_view(a@)[k] == entries_view(b@)[k],
        decreases a@.len() - i,
    {
        if !(crate::text::same_text(a[i].0.as_str(), b[i].0.as_str()) && json_equal(&a[i].1, &b[i].1)) {
            assert(entries_view(a@)[i as int] != entries_view(b@)[i as int]);
            return false;
        }
        i = i + 1;
    }
    assert(entries_view(a@) =~= entries_view(b@));
    true
}

impl Transaction {
    /// Whether two transactions are equal.
    pub fn same_as(&self, other: &Transaction) -> (r: bool)
        ensures
            r == (self@ == other@),
    {
        self.id == other.id && self.timestamp == other.timestamp && self.operation == other.operation
            && crate::text::same_text(self.record_id.as_str(), other.record_id.as_str())
            && crate::text::same_text(self.actor_id.as_str(), other.actor_id.as_str())
            && json_equal(&self.payload, &other.payload) && same_entries(
            &self.metadata,
            &other.metadata,
        ) && same_bytes(self.signer_public_key.as_slice(), other.signer_public_key.as_slice())
            && same_bytes(self.signature.as_slice(), other.signature.as_slice())
            && crate::text::same_text(self.hash.as_str(), other.hash.as_str())
    }
}

} // verus!
