//! The calls this library makes into outside cryptographic and encoding crates:
//! Ed25519 signature verification (`ed25519-dalek`), SHA-256 (`sha2`) and hex
//! encoding (`hex`). Every item here is trusted: its contract is believed, not proved.

use vstd::prelude::*;
use sha2::Digest;
use ed25519_dalek::Verifier;

verus! {

#[verifier::external_type_specification]
#[verifier::external_body]
pub struct ExVerifyingKey(ed25519_dalek::VerifyingKey);

#[verifier::external_type_specification]
#[verifier::external_body]
pub struct ExSignature(ed25519_dalek::Signature);

/// Whether 32 bytes are the compressed encoding of a point on the Ed25519 curve,
/// as `ed25519_dalek::VerifyingKey::from_bytes` decides it.
pub uninterp spec fn ed25519_point_decodes(bytes: Seq<u8>) -> bool;

/// Whether `signature` is a valid Ed25519 signature of `message` under the public key
/// `public_key`, as `ed25519_dalek`'s `Verifier::verify` decides it.
pub uninterp spec fn ed25519_signature_verifies(
    public_key: Seq<u8>,
    message: Seq<u8>,
    signature: Seq<u8>,
) -> bool;

/// The SHA-256 digest of `data`, as `sha2::Sha256` computes it.
pub uninterp spec fn sha256(data: Seq<u8>) -> Seq<u8>;

/// A decoded Ed25519 public key together with the 32 bytes it was decoded from.
/// Only [`decode_verifying_key`] builds one.
pub struct Ed25519PublicKey {
    key: ed25519_dalek::VerifyingKey,
    bytes: [u8; 32],
}

impl Ed25519PublicKey {
    /// The encoded bytes the key was decoded from.
    pub closed spec fn encoded(&self) -> Seq<u8> {
        self.bytes@
    }
}

/// An Ed25519 signature together with the 64 bytes it was read from.
/// Only [`signature_from_bytes`] builds one.
pub struct Ed25519Signature {
    sig: ed25519_dalek::Signature,
    bytes: [u8; 64],
}

impl Ed25519Signature {
    /// The 64 bytes the signature was read from.
    pub closed spec fn encoded(&self) -> Seq<u8> {
        self.bytes@
    }
}

/// Calls `ed25519_dalek::VerifyingKey::from_bytes`. Trusted claim: it succeeds exactly
/// when the bytes decode to a curve point (a property of the bytes alone), and the key
/// returned is the one those bytes encode.
#[verifier::external_body]
pub fn decode_verifying_key(bytes: &[u8; 32]) -> (key: Option<Ed25519PublicKey>)
    ensures
        key is Some <==> ed25519_point_decodes(bytes@),
        key matches Some(k) ==> k.encoded() == bytes@,
{
    match ed25519_dalek::VerifyingKey::from_bytes(bytes) {
        Ok(key) => Some(Ed25519PublicKey { key, bytes: *bytes }),
        Err(_) => None,
    }
}

/// Calls `ed25519_dalek::Signature::from_bytes`, which cannot fail. Trusted claim: the
/// signature returned is the one the 64 bytes encode.
#[verifier::external_body]
pub fn signature_from_bytes(bytes: &[u8; 64]) -> (sig: Ed25519Signature)
    ensures
        sig.encoded() == bytes@,
{
    Ed25519Signature { sig: ed25519_dalek::Signature::from_bytes(bytes), bytes: *bytes }
}

/// Calls `Verifier::verify` on an `ed25519_dalek::VerifyingKey`. Trusted claim: the
/// answer is a function of the key's bytes, the message and the signature's bytes alone.
#[verifier::external_body]
pub fn verify_signature(key: &Ed25519PublicKey, message: &[u8], sig: &Ed25519Signature) -> (ok: bool)
    ensures
        ok == ed25519_signature_verifies(key.encoded(), message@, sig.encoded()),
{
    key.key.verify(message, &sig.sig).is_ok()
}

/// Calls `sha2::Sha256::digest`. Trusted claim: the result is the SHA-256 digest of the
/// input, a function of the input alone, and is 32 bytes long (the output size of SHA-256).
#[verifier::external_body]
pub fn sha256_digest(data: &[u8]) -> (digest: Vec<u8>)
    ensures
        digest@ == sha256(data@),
        digest@.len() == 32,
{
    sha2::Sha256::digest(data).to_vec()
}

/// The lower-case hex digit for a value below 16.
pub open spec fn hex_digit(v: int) -> char {
    if v < 10 {
        (('0' as int) + v) as char
    } else {
        (('a' as int) + v - 10) as char
    }
}

/// `data` written as lower-case hex, two digits per byte, high nibble first.
pub open spec fn lower_hex(data: Seq<u8>) -> Seq<char> {
    Seq::new(
        2 * data.len(),
        |i: int|
            if i % 2 == 0 {
                hex_digit(data[i / 2] as int / 16)
            } else {
                hex_digit(data[i / 2] as int % 16)
            },
    )
}

/// Calls `hex::encode`. Trusted claim, as its documentation states: every byte becomes
/// two lower-case hex digits, high nibble first.
#[verifier::external_body]
pub fn hex_encode(data: &[u8]) -> (s: String)
    ensures
        s@ == lower_hex(data@),
{
    hex::encode(data)
}

} // verus!
