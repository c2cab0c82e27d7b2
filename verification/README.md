# anchorkit

Validation and normalisation logic for Stellar anchor integrations, written in Verus:
every function in `src/` carries a `requires`/`ensures` contract that Verus proves.

- `src/domain_validator.rs` — anchor domain URLs: HTTPS only, a public DNS host name
  (no loopback, IPv4 or Punycode labels), an optional port in 1..=65535, no control or
  unsafe characters, 10 to 2048 bytes.
- `src/sep10_jwt.rs` — SEP-10 JWT verification: base64url decoding, the `exp` and `sub`
  claims, and an Ed25519 signature by one of the issuer's keys.
- `src/sep6.rs` — normalisation of SEP-6 deposit, withdrawal and transaction responses,
  and cursor-based listing.
- `src/rate_limiter.rs` — per-attestor submission limits per window of ledgers, with
  global and per-attestor configuration.
- `src/attest.rs` — the decisions of the attestation command and the hex SHA-256 of a
  payload.
- `src/services.rs` — service capability codes.
- `src/crypto.rs` — the trusted boundary to `ed25519-dalek`, `sha2` and `hex`: the only
  items whose contracts are assumed rather than proved.
- `src/text.rs`, `src/errors.rs` — helpers and the error type.

`app/` holds what Verus does not see: the command-line program (`clap`, files, standard
input) and the Soroban contract layer (storage keys, events, and the rate limiter's
storage and ledger access). `tests/` exercises the library with the real outside crates.
