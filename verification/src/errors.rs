//! Error codes and the error value returned by the validators.

use vstd::prelude::*;

verus! {

/// Machine-readable error categories.
#[derive(Clone, Copy, Debug, PartialEq, Eq, Structural)]
pub enum ErrorCode {
    /// An endpoint URL or anchor domain is malformed or not allowed.
    InvalidEndpointFormat,
    /// A transaction response lacks the fields that identify the transaction.
    InvalidTransactionIntent,
    /// Generic schema or input validation failure.
    ValidationError,
    /// Request rate limit exceeded.
    RateLimitExceeded,
}

/// An error with its code, a short message and an optional piece of context
/// (such as the offending value).
#[derive(Clone, Debug, PartialEq, Eq)]
pub struct AnchorKitError {
    pub code: ErrorCode,
    pub message: String,
    pub context: Option<String>,
}

/// Alias kept for callers that name the error type `Error`.
pub type Error = AnchorKitError;

impl AnchorKitError {
    /// The error carries exactly this code and message and no context.
    pub open spec fn is_plain(&self, code: ErrorCode, message: Seq<char>) -> bool {
        &&& self.code == code
        &&& self.message@ == message
        &&& self.context is None
    }

    /// The error carries exactly this code, message and context.
    pub open spec fn has_context(&self, code: ErrorCode, message: Seq<char>, context: Seq<char>) -> bool {
        &&& self.code == code
        &&& self.message@ == message
        &&& self.context matches Some(c) && c@ == context
    }

    pub open spec fn spec_is_invalid_endpoint_format(&self) -> bool {
        self.is_plain(ErrorCode::InvalidEndpointFormat, "invalid endpoint format"@)
    }

    pub open spec fn spec_is_invalid_transaction_intent(&self) -> bool {
        self.is_plain(ErrorCode::InvalidTransactionIntent, "invalid transaction intent"@)
    }

    pub open spec fn spec_is_rate_limit_exceeded(&self) -> bool {
        self.is_plain(ErrorCode::RateLimitExceeded, "rate limit exceeded"@)
    }

    /// Builds an error with a code and a message and no context.
    pub fn new(code: ErrorCode, message: &str) -> (e: Self)
        ensures
            e.is_plain(code, message@),
    {
        AnchorKitError { code, message: message.to_owned(), context: None }
    }

    /// Builds an error with a code, a message and a context value.
    pub fn with_context(code: ErrorCode, message: &str, context: &str) -> (e: Self)
        ensures
            e.has_context(code, message@, context@),
    {
        AnchorKitError { code, message: message.to_owned(), context: Some(context.to_owned()) }
    }

    /// The error for a malformed or disallowed endpoint URL.
    pub fn invalid_endpoint_format() -> (e: Self)
        ensures
            e.spec_is_invalid_endpoint_format(),
    {
        Self::new(ErrorCode::InvalidEndpointFormat, "invalid endpoint format")
    }

    /// The error for a transaction response that lacks its identifying fields.
    pub fn invalid_transaction_intent() -> (e: Self)
        ensures
            e.spec_is_invalid_transaction_intent(),
    {
        Self::new(ErrorCode::InvalidTransactionIntent, "invalid transaction intent")
    }

    /// The error for a request refused by the rate limiter.
    pub fn rate_limit_exceeded() -> (e: Self)
        ensures
            e.spec_is_rate_limit_exceeded(),
    {
        Self::new(ErrorCode::RateLimitExceeded, "rate limit exceeded")
    }
}

} // verus!
