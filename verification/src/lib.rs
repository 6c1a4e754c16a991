//! Client library for an exchange's authenticated REST trading API.
//!
//! The core is the authenticated request pipeline: canonicalizing and
//! signing request parameters, assembling the HTTP request, and parsing
//! the exchange's response envelope into typed domain results or a typed
//! error.

pub mod client;
pub mod decimal;
pub mod domain;
pub mod encode;
pub mod error;
pub mod exchange;
pub mod jparse;
pub mod json;
pub mod response;
pub mod signer;
pub mod text;

pub use client::{BybitClient, HttpMethod, HttpRequest};
pub use decimal::Decimal;
pub use domain::{
    Credentials, ExchangeBalance, ExchangeBalancesAndPositions, Order, OrderCanceledId, OrderType,
    PlaceOrder, Side, TimeInForce,
};
pub use error::{ExchangeError, ExchangeErrorType};
pub use exchange::{exchange_from_string, ExchangeType};
