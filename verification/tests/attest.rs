use anchorkit::{resolve_payload_source, sha256_hex, validate_hex_hash, AttestError, PayloadSource};

const HASH: &str = "ba7816bf8f01cfea414140de5dae2223b00361a396177a9cb410ff61f20015ad";

#[test]
fn sha256_hex_known_vectors() {
    assert_eq!(sha256_hex(b"abc"), HASH);
    assert_eq!(
        sha256_hex(b""),
        "e3b0c44298fc1c149afbf4c8996fb92427ae41e4649b934ca495991b7852b855"
    );
}

#[test]
fn hex_hash_validation() {
    assert!(validate_hex_hash(HASH).is_ok());
    assert!(validate_hex_hash(&HASH.to_uppercase()).is_ok());
    assert_eq!(validate_hex_hash(&HASH[1..]), Err(AttestError::InvalidPayloadHash));
    assert_eq!(validate_hex_hash(&HASH.replacen('b', "g", 1)), Err(AttestError::InvalidPayloadHash));
    // 64 bytes but not 64 hex characters.
    let wide = format!("é{}", &HASH[2..]);
    assert_eq!(wide.len(), 64);
    assert!(validate_hex_hash(&wide).is_err());
}

#[test]
fn payload_source_decisions() {
    assert_eq!(resolve_payload_source(Some(HASH), Some("f")), Err(AttestError::BothSources));
    assert_eq!(resolve_payload_source(None, None), Err(AttestError::NoSource));
    assert_eq!(resolve_payload_source(None, Some("in.bin")), Ok(PayloadSource::File("in.bin".to_string())));
    assert_eq!(resolve_payload_source(Some("-"), None), Ok(PayloadSource::Stdin));
    assert_eq!(resolve_payload_source(Some(HASH), None), Ok(PayloadSource::Literal(HASH.to_string())));
    assert_eq!(resolve_payload_source(Some("xyz"), None), Err(AttestError::InvalidPayloadHash));
}

#[test]
fn attest_error_messages() {
    assert_eq!(AttestError::BothSources.message(), "Only one of --payload-hash or --payload-file may be supplied");
    assert_eq!(AttestError::NoSource.message(), "Either --payload-hash or --payload-file must be provided");
    assert_eq!(AttestError::InvalidPayloadHash.message(), "payload hash must be 64 hex characters or '-'");
}
