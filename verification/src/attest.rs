//! The decisions of the attestation command: where the payload hash comes from, whether
//! a literal hash is well formed, and the hex SHA-256 digest of a payload.

use vstd::prelude::*;
use vstd::utf8::encode_utf8;

use crate::crypto::{hex_encode, lower_hex, sha256, sha256_digest};
use crate::text::{chars_of, char_is_ascii_hexdigit, is_ascii_hexdigit};

verus! {

broadcast use vstd::string::group_string_axioms;

/// Why an attestation request cannot be served.
#[derive(Clone, Copy, Debug, PartialEq, Eq, Structural)]
pub enum AttestError {
    /// Both a payload hash and a payload file were supplied.
    BothSources,
    /// Neither a payload hash nor a payload file was supplied.
    NoSource,
    /// The literal payload hash is not 64 hex characters.
    InvalidPayloadHash,
}

impl AttestError {
    /// The message shown to the user for this error.
    pub fn message(&self) -> (m: String)
        ensures
            m@ == match *self {
                AttestError::BothSources => "Only one of --payload-hash or --payload-file may be supplied"@,
                AttestError::NoSource => "Either --payload-hash or --payload-file must be provided"@,
                AttestError::InvalidPayloadHash => "payload hash must be 64 hex characters or '-'"@,
            },
    {
        match self {
            AttestError::BothSources => "Only one of --payload-hash or --payload-file may be supplied".to_owned(),
            AttestError::NoSource => "Either --payload-hash or --payload-file must be provided".to_owned(),
            AttestError::InvalidPayloadHash => "payload hash must be 64 hex characters or '-'".to_owned(),
        }
    }
}

/// Where the payload hash of an attestation comes from.
#[derive(Clone, Debug, PartialEq, Eq)]
pub enum PayloadSource {
    /// Hash the contents of this file.
    File(String),
    /// Hash what is read from standard input.
    Stdin,
    /// Use this hash as given.
    Literal(String),
}

/// A payload hash given literally: 64 bytes, all ASCII hex digits.
pub open spec fn valid_hex_hash(h: Seq<char>) -> bool {
    &&& encode_utf8(h).len() == 64
    &&& forall|i: int| 0 <= i < h.len() ==> is_ascii_hexdigit(#[trigger] h[i])
}

/// Checks that a payload hash is 64 hex characters.
pub fn validate_hex_hash(hash: &str) -> (r: Result<(), AttestError>)
    ensures
        r is Ok <==> valid_hex_hash(hash@),
        r matches Err(e) ==> e == AttestError::InvalidPayloadHash,
{
    if hash.as_bytes().len() != 64 {
        return Err(AttestError::InvalidPayloadHash);
    }
    let cs = chars_of(hash);
    let n = cs.len();
    let mut i: usize = 0;
    while i < n
        invariant
            n == cs@.len(),
            cs@ == hash@,
            encode_utf8(hash@).len() == 64,
            i <= n,
            forall|k: int| 0 <= k < i ==> is_ascii_hexdigit(#[trigger] cs@[k]),
        decreases n - i,
    {
        if !char_is_ascii_hexdigit(cs[i]) {
            assert(!is_ascii_hexdigit(hash@[i as int]));
            return Err(AttestError::InvalidPayloadHash);
        }
        i = i + 1;
    }
    Ok(())
}

/// The SHA-256 digest of `bytes` as 64 lower-case hex characters.
pub fn sha256_hex(bytes: &[u8]) -> (s: String)
    ensures
        s@ == lower_hex(sha256(bytes@)),
        s@.len() == 64,
{
    let digest = sha256_digest(bytes);
    hex_encode(digest.as_slice())
}

/// Decides where the payload hash comes from: a file, standard input (`-`), or a
/// literal hash, which must be 64 hex characters. Exactly one of the two options must
/// be given.
pub fn resolve_payload_source(payload_hash: Option<&str>, payload_file: Option<&str>) -> (r: Result<
    PayloadSource,
    AttestError,
>)
    ensures
        match (payload_hash, payload_file) {
            (Some(_), Some(_)) => r == Err::<PayloadSource, AttestError>(AttestError::BothSources),
            (None, None) => r == Err::<PayloadSource, AttestError>(AttestError::NoSource),
            (None, Some(f)) => r matches Ok(PayloadSource::File(p)) && p@ == f@,
            (Some(h), None) => if h@ == seq!['-'] {
                r matches Ok(PayloadSource::Stdin)
            } else if valid_hex_hash(h@) {
                r matches Ok(PayloadSource::Literal(l)) && l@ == h@
            } else {
                r == Err::<PayloadSource, AttestError>(AttestError::InvalidPayloadHash)
            },
        },
{
    match (payload_hash, payload_file) {
        (Some(_), Some(_)) => Err(AttestError::BothSources),
        (None, Some(f)) => Ok(PayloadSource::File(f.to_owned())),
        (Some(h), None) => {
            let cs = chars_of(h);
            if cs.len() == 1 && cs[0] == '-' {
                assert(h@ =~= seq!['-']);
                Ok(PayloadSource::Stdin)
            } else {
                assert(h@ != seq!['-']);
                match validate_hex_hash(h) {
                    Ok(()) => Ok(PayloadSource::Literal(h.to_owned())),
                    Err(e) => Err(e),
                }
            }
        },
        (None, None) => Err(AttestError::NoSource),
    }
}

} // verus!
