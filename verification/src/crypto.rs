//! Hashing, hexadecimal digests and Ed25519 identities.
use ed25519_dalek::Signer;
use sha2::Digest;
use vstd::prelude::*;

use crate::error::{ErrorSpec, MiniChainError, outcome};
use crate::text::{decode_hex_bytes, hex_decode, utf8};

verus! {

/// The SHA-256 digest of a byte string.
pub uninterp spec fn sha256_digest(data: Seq<u8>) -> Seq<u8>;

/// Whether 32 bytes are the compressed encoding of a point on the Ed25519 curve.
pub uninterp spec fn ed25519_point_valid(public_key: Seq<u8>) -> bool;

/// The Ed25519 public key that belongs to a 32-byte secret key.
pub uninterp spec fn ed25519_public_key_of(secret: Seq<u8>) -> Seq<u8>;

/// The Ed25519 signature of a message under a 32-byte secret key.
pub uninterp spec fn ed25519_signature_of(secret: Seq<u8>, message: Seq<u8>) -> Seq<u8>;

/// Whether strict Ed25519 verification accepts a signature of a message under a public key.
pub uninterp spec fn ed25519_strict_accepts(
    public_key: Seq<u8>,
    message: Seq<u8>,
    signature: Seq<u8>,
) -> bool;

/// SHA-256 of `data`, through `sha2::Sha256::digest`. The contract names the
/// digest and says no more of it.
#[verifier::external_body]
pub(crate) fn sha256(data: &[u8]) -> (digest: [u8; 32])
    ensures
        digest@ == sha256_digest(data@),
{
    sha2::Sha256::digest(data).into()
}

/// Whether `ed25519_dalek::VerifyingKey::from_bytes` accepts the 32 bytes,
/// i.e. whether they decompress to a curve point. The contract names the answer.
#[verifier::external_body]
fn ed25519_point_decodes(public_key: &[u8; 32]) -> (valid: bool)
    ensures
        valid == ed25519_point_valid(public_key@),
{
    ed25519_dalek::VerifyingKey::from_bytes(public_key).is_ok()
}

/// `ed25519_dalek::VerifyingKey::verify_strict` on a key and a 64-byte
/// signature given as bytes (the key is decoded with `VerifyingKey::from_bytes`,
/// which the `requires` says succeeds; the signature with the infallible
/// `Signature::from_bytes`). The contract names the verdict.
#[verifier::external_body]
fn ed25519_verify_strict(public_key: &[u8; 32], message: &[u8], signature: &[u8; 64]) -> (accepted:
    bool)
    requires
        ed25519_point_valid(public_key@),
    ensures
        accepted == ed25519_strict_accepts(public_key@, message@, signature@),
{
    match ed25519_dalek::VerifyingKey::from_bytes(public_key) {
        Ok(key) => key.verify_strict(message, &ed25519_dalek::Signature::from_bytes(signature)).is_ok(),
        Err(_) => false,
    }
}

/// The public key of a secret key: `SigningKey::from_bytes(secret).verifying_key().to_bytes()`.
/// The contract names the key, and says that it is a valid key: the bytes
/// are the compressed form of the curve point that the verifying key holds,
/// so `VerifyingKey::from_bytes` decompresses them.
#[verifier::external_body]
fn ed25519_public_key(secret: &[u8; 32]) -> (public_key: [u8; 32])
    ensures
        public_key@ == ed25519_public_key_of(secret@),
        ed25519_point_valid(public_key@),
{
    ed25519_dalek::SigningKey::from_bytes(secret).verifying_key().to_bytes()
}

/// `Signer::sign` of `ed25519_dalek::SigningKey` (deterministic RFC 8032
/// signing), as bytes. The contract names the signature.
#[verifier::external_body]
fn ed25519_sign(secret: &[u8; 32], message: &[u8]) -> (signature: [u8; 64])
    ensures
        signature@ == ed25519_signature_of(secret@, message@),
{
    ed25519_dalek::SigningKey::from_bytes(secret).sign(message).to_bytes()
}

/// The secret of `ed25519_dalek::SigningKey::generate` drawn from the
/// operating system's random source. Nothing is stated of it.
#[verifier::external_body]
fn ed25519_random_secret() -> (secret: [u8; 32]) {
    ed25519_dalek::SigningKey::generate(&mut rand_core::OsRng).to_bytes()
}

/// Decodes hexadecimal text (digits of either case, two per byte).
pub fn decode_hex(text: &str) -> (r: Result<Vec<u8>, MiniChainError>)
    ensures
        match r {
            Ok(bytes) => hex_decode(utf8(text@)) == Some(bytes@),
            Err(e) => hex_decode(utf8(text@)) is None && e == MiniChainError::InvalidHex,
        },
{
    match decode_hex_bytes(text.as_bytes()) {
        Some(bytes) => Ok(bytes),
        None => Err(MiniChainError::InvalidHex),
    }
}

/// Copies a slice of exactly 32 bytes into an array.
pub fn to_array_32(bytes: &[u8]) -> (out: [u8; 32])
    requires
        bytes@.len() == 32,
    ensures
        out@ == bytes@,
{
    let mut out = [0u8; 32];
    let mut i: usize = 0;
    while i < 32
        invariant
            bytes@.len() == 32,
            i <= 32,
            forall|k: int| 0 <= k < i ==> out@[k] == bytes@[k],
        decreases 32 - i,
    {
        out[i] = bytes[i];
        i = i + 1;
    }
    assert(out@ =~= bytes@);
    out
}

fn to_array_64(bytes: &[u8]) -> (out: [u8; 64])
    requires
        bytes@.len() == 64,
    ensures
        out@ == bytes@,
{
    let mut out = [0u8; 64];
    let mut i: usize = 0;
    while i < 64
        invariant
            bytes@.len() == 64,
            i <= 64,
            forall|k: int| 0 <= k < i ==> out@[k] == bytes@[k],
        decreases 64 - i,
    {
        out[i] = bytes[i];
        i = i + 1;
    }
    assert(out@ =~= bytes@);
    out
}

/// Whether bytes are a usable Ed25519 public key: 32 bytes that decode to a curve point.
pub open spec fn public_key_valid(public_key: Seq<u8>) -> bool {
    public_key.len() == 32 && ed25519_point_valid(public_key)
}

/// The outcome of checking a signature: the key must be valid, the signature
/// 64 bytes long, and strict verification must accept it.
pub open spec fn signature_check(public_key: Seq<u8>, message: Seq<u8>, signature: Seq<u8>) -> Result<
    (),
    ErrorSpec,
> {
    if !public_key_valid(public_key) {
        Err(ErrorSpec::InvalidPublicKey)
    } else if signature.len() != 64 || !ed25519_strict_accepts(public_key, message, signature) {
        Err(ErrorSpec::InvalidSignature)
    } else {
        Ok(())
    }
}

/// Checks that a public key is a valid Ed25519 key.
pub fn verify_public_key(public_key: &[u8]) -> (r: Result<(), MiniChainError>)
    ensures
        r is Ok <==> public_key_valid(public_key@),
        r matches Err(e) ==> e == MiniChainError::InvalidPublicKey,
{
    if public_key.len() != 32 {
        return Err(MiniChainError::InvalidPublicKey);
    }
    let key = to_array_32(public_key);
    if ed25519_point_decodes(&key) {
        Ok(())
    } else {
        Err(MiniChainError::InvalidPublicKey)
    }
}

/// Strictly verifies an Ed25519 signature of `message`.
pub fn verify_signature(public_key: &[u8], message: &[u8], signature: &[u8]) -> (r: Result<
    (),
    MiniChainError,
>)
    ensures
        outcome(r) == signature_check(public_key@, message@, signature@),
{
    verify_public_key(public_key)?;
    let key = to_array_32(public_key);
    if signature.len() != 64 {
        return Err(MiniChainError::InvalidSignature);
    }
    let sig = to_array_64(signature);
    if ed25519_verify_strict(&key, message, &sig) {
        Ok(())
    } else {
        Err(MiniChainError::InvalidSignature)
    }
}

/// A named Ed25519 identity that signs on behalf of a validator or node.
pub struct ValidatorIdentity {
    validator_id: String,
    secret: [u8; 32],
}

impl ValidatorIdentity {
    /// The validator ID of this identity.
    pub closed spec fn id(&self) -> Seq<char> {
        self.validator_id@
    }

    /// The secret key of this identity.
    pub closed spec fn secret_key(&self) -> Seq<u8> {
        self.secret@
    }

    /// A new identity with a fresh random key.
    pub fn generate(validator_id: &str) -> (identity: Self)
        ensures
            identity.id() == validator_id@,
            identity.secret_key().len() == 32,
    {
        ValidatorIdentity { validator_id: validator_id.to_owned(), secret: ed25519_random_secret() }
    }

    /// The identity with the given 32-byte secret key.
    pub fn from_secret_bytes(validator_id: &str, secret: [u8; 32]) -> (identity: Self)
        ensures
            identity.id() == validator_id@,
            identity.secret_key() == secret@,
    {
        ValidatorIdentity { validator_id: validator_id.to_owned(), secret }
    }

    /// The identity whose secret key was stored as `bytes`, which must be
    /// exactly 32 bytes long.
    pub fn from_stored_secret(validator_id: &str, bytes: &[u8]) -> (r: Result<Self, MiniChainError>)
        ensures
            r is Ok <==> bytes@.len() == 32,
            r matches Ok(identity) ==> identity.id() == validator_id@ && identity.secret_key()
                == bytes@,
            r matches Err(e) ==> e == MiniChainError::IdentityKeyUnavailable,
    {
        if bytes.len() != 32 {
            return Err(MiniChainError::IdentityKeyUnavailable);
        }
        Ok(Self::from_secret_bytes(validator_id, to_array_32(bytes)))
    }

    /// The 32 secret bytes, for persisting the key.
    pub fn secret_bytes(&self) -> (secret: [u8; 32])
        ensures
            secret@ == self.secret_key(),
    {
        self.secret
    }

    /// The validator ID of this identity.
    pub fn validator_id(&self) -> (id: &str)
        ensures
            id@ == self.id(),
    {
        self.validator_id.as_str()
    }

    /// The Ed25519 public key of this identity.
    pub fn public_key(&self) -> (key: [u8; 32])
        ensures
            key@ == ed25519_public_key_of(self.secret_key()),
            public_key_valid(key@),
    {
        ed25519_public_key(&self.secret)
    }

    /// Signs `message` with this identity's key.
    pub fn sign(&self, message: &[u8]) -> (signature: [u8; 64])
        ensures
            signature@ == ed25519_signature_of(self.secret_key(), message@),
    {
        ed25519_sign(&self.secret, message)
    }
}

} // verus!
