//! AnchorKit: validation and normalisation logic for Stellar anchor integrations,
//! with contracts proved by Verus.

mod attest;
mod crypto;
mod domain_validator;
mod errors;
mod rate_limiter;
mod sep10_jwt;
mod sep6;
mod services;
mod text;

pub use attest::{
    resolve_payload_source, sha256_hex, validate_hex_hash, AttestError, PayloadSource,
};
pub use domain_validator::validate_anchor_domain;
pub use errors::{AnchorKitError, Error, ErrorCode};
pub use rate_limiter::{RateLimitConfig, RateLimitState, RateLimiter};
pub use sep10_jwt::{
    base64url_decode, parse_json_exp, parse_json_sub, verify_sep10_claims, verify_sep10_jwt,
    MAX_JWT_LEN, MAX_VERIFYING_KEYS,
};
pub use sep6::{
    fetch_transaction_status, initiate_deposit, initiate_withdrawal, list_transactions,
    DepositResponse, RawDepositResponse, RawTransactionListRequest, RawTransactionResponse,
    RawWithdrawalResponse, TransactionKind, TransactionStatus, TransactionStatusResponse,
    WithdrawalResponse,
};
pub use services::{
    ServiceType, SERVICE_DEPOSITS, SERVICE_KYC, SERVICE_QUOTES, SERVICE_WITHDRAWALS,
};
