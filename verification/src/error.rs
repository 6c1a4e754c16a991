//! The closed error taxonomy shared by every fallible step of the pipeline.

use vstd::prelude::*;

verus! {

/// Kind of a failure. Only a closed set of kinds exists; transport and
/// decoding failures map onto `RequestError` and `ParsingError`, and
/// application-level failures reported by the exchange that this library
/// does not further classify map onto `Unknown`.
#[derive(Debug, Eq, PartialEq, Copy, Clone, Structural)]
pub enum ExchangeErrorType {
    Unknown,
    RequestError,
    RateLimit,
    OrderNotFound,
    OrderCompleted,
    InsufficientFunds,
    InvalidOrder,
    Authentication,
    ParsingError,
    ServiceUnavailable,
}

/// A typed failure: its kind is always set, the message is human-readable,
/// and a numeric code is attached only where one exists (the HTTP status of
/// a transport failure, or the exchange's own result code).
#[derive(Debug, Clone)]
pub struct ExchangeError {
    pub error_type: ExchangeErrorType,
    pub message: String,
    pub code: Option<i32>,
}

impl ExchangeError {
    pub fn new(error_type: ExchangeErrorType, message: String, code: Option<i32>) -> (r: Self)
        ensures
            r.error_type == error_type,
            r.message == message,
            r.code == code,
    {
        Self { error_type, message, code }
    }

    pub fn request_error(message: String, code: i32) -> (r: Self)
        ensures
            r.error_type == ExchangeErrorType::RequestError,
            r.message == message,
            r.code == Some(code),
    {
        ExchangeError::new(ExchangeErrorType::RequestError, message, Some(code))
    }

    pub fn parsing_error(message: String) -> (r: Self)
        ensures
            r.error_type == ExchangeErrorType::ParsingError,
            r.message == message,
            r.code == None::<i32>,
    {
        ExchangeError::new(ExchangeErrorType::ParsingError, message, None)
    }

    pub fn unknown_error(message: &str) -> (r: Self)
        ensures
            r.error_type == ExchangeErrorType::Unknown,
            r.message@ == message@,
            r.code == None::<i32>,
    {
        Self { error_type: ExchangeErrorType::Unknown, message: message.to_owned(), code: None }
    }
}

impl PartialEq for ExchangeError {
    fn eq(&self, other: &Self) -> (r: bool) {
        self.error_type == other.error_type && self.message == other.message && (match (
            self.code,
            other.code,
        ) {
            (Some(a), Some(b)) => a == b,
            (None, None) => true,
            _ => false,
        })
    }
}

impl vstd::std_specs::cmp::PartialEqSpecImpl for ExchangeError {
    open spec fn obeys_eq_spec() -> bool {
        true
    }

    open spec fn eq_spec(&self, other: &Self) -> bool {
        self.error_type == other.error_type && self.message@ == other.message@ && self.code
            == other.code
    }
}

impl Eq for ExchangeError {

}

} // verus!
