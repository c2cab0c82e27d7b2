use anchorkit::{base64url_decode, parse_json_exp, parse_json_sub, verify_sep10_claims, verify_sep10_jwt};
use base64::{engine::general_purpose::URL_SAFE_NO_PAD, Engine as _};
use ed25519_dalek::{Signer, SigningKey};
use rand::rngs::OsRng;

const SUB: &str = "GAAZI4TCR3TY5OJHCTJC2A4QSY6CJWJH5IAJTGKIN2ER7LBNVKOCCWNA";

fn build_jwt(signing_key: &SigningKey, sub: &str, exp: u64) -> String {
    let header = r#"{"alg":"EdDSA","typ":"JWT"}"#;
    let payload = format!(r#"{{"sub":"{}","exp":{}}}"#, sub, exp);
    let header_b64 = URL_SAFE_NO_PAD.encode(header);
    let payload_b64 = URL_SAFE_NO_PAD.encode(payload);
    let signing_input = format!("{}.{}", header_b64, payload_b64);
    let sig = signing_key.sign(signing_input.as_bytes());
    let sig_b64 = URL_SAFE_NO_PAD.encode(sig.to_bytes());
    format!("{}.{}", signing_input, sig_b64)
}

fn keys_of(signing_key: &SigningKey) -> Vec<Vec<u8>> {
    vec![signing_key.verifying_key().as_bytes().to_vec()]
}

#[test]
fn base64url_roundtrip_simple() {
    // "Hello" = SGVsbG8 (unpadded), SGVsbG8= (1-pad), SGVsbG8== (over-padded)
    let expected = b"Hello";
    assert_eq!(base64url_decode(b"SGVsbG8").unwrap(), expected);   // unpadded
    assert_eq!(base64url_decode(b"SGVsbG8=").unwrap(), expected);  // standard padded
    assert_eq!(base64url_decode(b"SGVsbG8==").unwrap(), expected); // over-padded
    assert_eq!(base64url_decode(b"SGVsbG8===").unwrap(), expected); // extra over-padded

    // "Man" = TWFu (no padding needed), TWFu= (spurious pad)
    assert_eq!(base64url_decode(b"TWFu").unwrap(), b"Man");
    assert_eq!(base64url_decode(b"TWFu=").unwrap(), b"Man");

    // Invalid character should still error
    assert!(base64url_decode(b"SGVs!G8").is_err());
}

#[test]
fn verify_accepts_valid_token() {
    let now = 1_000;
    let signing_key = SigningKey::generate(&mut OsRng);
    let keys = keys_of(&signing_key);
    let jwt = build_jwt(&signing_key, SUB, 2_000);
    assert!(verify_sep10_jwt(jwt.as_bytes(), &keys, Some(SUB.as_bytes()), 0, now).is_ok());
    assert!(verify_sep10_jwt(jwt.as_bytes(), &keys, None, 0, now).is_ok());
}

#[test]
fn verify_rejects_expired_token() {
    let now = 5_000;
    let signing_key = SigningKey::generate(&mut OsRng);
    let keys = keys_of(&signing_key);
    let jwt = build_jwt(&signing_key, SUB, 1_000);
    assert!(verify_sep10_jwt(jwt.as_bytes(), &keys, Some(SUB.as_bytes()), 0, now).is_err());
}

#[test]
fn parse_json_sub_malformed_inputs_return_none() {
    let cases: &[&[u8]] = &[
        b"",                                          // empty
        b"{}",                                        // no sub key
        b"{\"sub\":42}",                              // sub not a string
        b"{\"sub\":\"unterminated",                   // truncated / no closing quote
        b"{\"sub\":\"\\",                             // backslash at end (malformed escape)
    ];

    for payload in cases {
        assert!(
            parse_json_sub(payload).is_err(),
            "expected Err for: {:?}",
            payload
        );
    }
}

#[test]
fn verify_accepts_token_within_clock_skew_window() {
    // Ledger is 30 s ahead of the token's exp — within a 60 s skew tolerance.
    let now = 1_030;
    let signing_key = SigningKey::generate(&mut OsRng);
    let keys = keys_of(&signing_key);
    // Token expired at t=1_000, ledger is at t=1_030 (30 s lag).
    let jwt = build_jwt(&signing_key, SUB, 1_000);

    // Without skew: rejected.
    assert!(verify_sep10_jwt(jwt.as_bytes(), &keys, None, 0, now).is_err());
    // With 60 s skew: accepted (exp + 60 = 1_060 > 1_030).
    assert!(verify_sep10_jwt(jwt.as_bytes(), &keys, None, 60, now).is_ok());
    // With skew exactly equal to lag (30 s): exp + 30 = 1_030, not strictly greater — rejected.
    assert!(verify_sep10_jwt(jwt.as_bytes(), &keys, None, 30, now).is_err());
}

// ── further cases ────────────────────────────────────────────────────────────

#[test]
fn verify_rejects_signature_by_another_key() {
    let signing_key = SigningKey::generate(&mut OsRng);
    let other_key = SigningKey::generate(&mut OsRng);
    let jwt = build_jwt(&signing_key, SUB, 2_000);
    assert!(verify_sep10_jwt(jwt.as_bytes(), &keys_of(&other_key), None, 0, 1_000).is_err());
    // Any one matching key is enough (key rotation).
    let mut keys = keys_of(&other_key);
    keys.push(vec![1, 2, 3]);
    keys.push(signing_key.verifying_key().as_bytes().to_vec());
    assert!(verify_sep10_jwt(jwt.as_bytes(), &keys, None, 0, 1_000).is_ok());
}

#[test]
fn verify_rejects_tampered_payload() {
    let signing_key = SigningKey::generate(&mut OsRng);
    let jwt = build_jwt(&signing_key, SUB, 2_000);
    let parts: Vec<&str> = jwt.split('.').collect();
    let forged_payload = URL_SAFE_NO_PAD.encode(format!(r#"{{"sub":"{}","exp":{}}}"#, SUB, 9_999));
    let forged = format!("{}.{}.{}", parts[0], forged_payload, parts[2]);
    assert!(verify_sep10_jwt(forged.as_bytes(), &keys_of(&signing_key), None, 0, 1_000).is_err());
}

#[test]
fn verify_rejects_wrong_subject_and_no_keys() {
    let signing_key = SigningKey::generate(&mut OsRng);
    let jwt = build_jwt(&signing_key, SUB, 2_000);
    assert!(verify_sep10_jwt(jwt.as_bytes(), &keys_of(&signing_key), Some(&b"GOTHER"[..]), 0, 1_000).is_err());
    assert!(verify_sep10_jwt(jwt.as_bytes(), &Vec::new(), None, 0, 1_000).is_err());
}

#[test]
fn verify_rejects_malformed_tokens() {
    let signing_key = SigningKey::generate(&mut OsRng);
    let keys = keys_of(&signing_key);
    let jwt = build_jwt(&signing_key, SUB, 2_000);
    assert!(verify_sep10_jwt(b"", &keys, None, 0, 1_000).is_err());
    assert!(verify_sep10_jwt(format!("{}.x", jwt).as_bytes(), &keys, None, 0, 1_000).is_err());
    assert!(verify_sep10_jwt(b"a..b", &keys, None, 0, 1_000).is_err());
    assert!(verify_sep10_jwt(b".a.b", &keys, None, 0, 1_000).is_err());
    assert!(verify_sep10_jwt(b"a.b.", &keys, None, 0, 1_000).is_err());
    let long = vec![b'a'; 2049];
    assert!(verify_sep10_jwt(&long, &keys, None, 0, 1_000).is_err());
    // A header that does not name EdDSA.
    let parts: Vec<&str> = jwt.split('.').collect();
    let other_header = URL_SAFE_NO_PAD.encode(r#"{"alg":"HS256"}"#);
    let input = format!("{}.{}", other_header, parts[1]);
    let sig = URL_SAFE_NO_PAD.encode(signing_key.sign(input.as_bytes()).to_bytes());
    assert!(verify_sep10_jwt(format!("{}.{}", input, sig).as_bytes(), &keys, None, 0, 1_000).is_err());
}

#[test]
fn claims_checked_on_given_payload() {
    let payload = URL_SAFE_NO_PAD.encode(r#"{"exp": 1000, "sub":"abc"}"#);
    assert!(verify_sep10_claims(payload.as_bytes(), Some(&b"abc"[..]), 0, 999).is_ok());
    assert!(verify_sep10_claims(payload.as_bytes(), Some(&b"abc"[..]), 0, 1000).is_err());
    assert!(verify_sep10_claims(payload.as_bytes(), Some(&b"abd"[..]), 0, 999).is_err());
    assert!(verify_sep10_claims(payload.as_bytes(), None, u64::MAX, u64::MAX - 1).is_ok());
    assert!(verify_sep10_claims(b"!!", None, 0, 0).is_err());
}

#[test]
fn exp_claim_parsing() {
    assert_eq!(parse_json_exp(br#"{"exp":   42}"#), Ok(42));
    assert_eq!(parse_json_exp(br#"{"exp":18446744073709551615}"#), Ok(u64::MAX));
    assert!(parse_json_exp(br#"{"exp":18446744073709551616}"#).is_err());
    assert!(parse_json_exp(br#"{"exp":"42"}"#).is_err());
    assert!(parse_json_exp(br#"{"exp" : 42}"#).is_err());
    assert_eq!(parse_json_exp(br#"{"exp":7,"exp":9}"#), Ok(7));
}

#[test]
fn sub_claim_keeps_escapes() {
    assert_eq!(parse_json_sub(br#"{"sub": "ab\"c"}"#).unwrap(), br#"ab\"c"#.to_vec());
    assert_eq!(parse_json_sub(br#"{"sub":""}"#).unwrap(), Vec::<u8>::new());
}

#[test]
fn base64url_decodes_urlsafe_alphabet() {
    assert_eq!(base64url_decode(b"-_-_").unwrap(), vec![0xfb, 0xff, 0xbf]);
    assert_eq!(base64url_decode(b"").unwrap(), Vec::<u8>::new());
    assert_eq!(base64url_decode(b"====").unwrap(), Vec::<u8>::new());
    assert_eq!(base64url_decode(b"QQ").unwrap(), b"A".to_vec());
    assert!(base64url_decode(b"QQ=A").is_err());
    assert!(base64url_decode(b"+/").is_err());
}

#[test]
fn base64url_decode_undoes_urlsafe_encoding() {
    let mut data: Vec<u8> = Vec::new();
    for len in 0..70usize {
        let encoded = URL_SAFE_NO_PAD.encode(&data);
        assert_eq!(base64url_decode(encoded.as_bytes()).unwrap(), data);
        let padded = format!("{}==", encoded);
        assert_eq!(base64url_decode(padded.as_bytes()).unwrap(), data);
        data.push((len as u8).wrapping_mul(37).wrapping_add(251));
    }
}

#[test]
fn expiry_window_saturates_at_max_skew() {
    let signing_key = SigningKey::generate(&mut OsRng);
    let keys = keys_of(&signing_key);
    let jwt = build_jwt(&signing_key, SUB, 1_000);
    // exp + skew saturates at u64::MAX, which is later than any earlier time.
    assert!(verify_sep10_jwt(jwt.as_bytes(), &keys, None, u64::MAX, u64::MAX - 1).is_ok());
    assert!(verify_sep10_jwt(jwt.as_bytes(), &keys, None, u64::MAX, u64::MAX).is_err());
    // Without skew the window closes at exp itself.
    assert!(verify_sep10_jwt(jwt.as_bytes(), &keys, None, 0, 999).is_ok());
    assert!(verify_sep10_jwt(jwt.as_bytes(), &keys, None, 0, 1_000).is_err());
}
