//! Tests of response parsing: the envelope, each endpoint's payload
//! reshaping, and every error kind the pipeline produces.

use exchange_client::decimal::Decimal;
use exchange_client::domain::{OrderType, Side};
use exchange_client::error::ExchangeErrorType;
use exchange_client::exchange::{exchange_from_string, ExchangeType};
use exchange_client::error::ExchangeError;
use exchange_client::response::{
    parse_balance_response, parse_cancel_order_response, parse_get_order_response,
    parse_place_order_response,
};

fn dec(negative: bool, mantissa: u128, scale: u32) -> Decimal {
    Decimal { negative, mantissa, scale }
}

/// A stub balance envelope yields the reshaped asset map and no
/// positions.
#[test]
fn balance_stub_reshapes_into_domain_type() {
    let body = "{\"ret_code\":0,\"result\":{\"BTC\":{\"wallet_balance\":\"1.5\"}}}";
    let r = parse_balance_response(200, body).expect("stub parses");
    assert_eq!(r.balances.len(), 1);
    assert_eq!(r.balances[0].0, "BTC");
    assert_eq!(r.balances[0].1.balance, dec(false, 15, 1));
    assert!(r.positions.is_none());
}

/// A numeric wallet balance is accepted too.
#[test]
fn balance_accepts_numeric_wallet_balance() {
    let body = "{\"ret_code\":0,\"result\":{\"ETH\":{\"wallet_balance\":2.25}}}";
    let r = parse_balance_response(200, body).expect("stub parses");
    assert_eq!(r.balances[0].1.balance, dec(false, 225, 2));
}

/// A malformed body yields `ParsingError` carrying the original raw
/// text, never a panic.
#[test]
fn malformed_body_yields_parsing_error_with_raw_text() {
    let body = "{\"result\":";
    let e = parse_balance_response(200, body).unwrap_err();
    assert_eq!(e.error_type, ExchangeErrorType::ParsingError);
    assert_eq!(e.code, None);
    assert!(e.message.contains(body));

    let e2 = parse_place_order_response(200, body).unwrap_err();
    assert_eq!(e2.error_type, ExchangeErrorType::ParsingError);
    assert!(e2.message.contains(body));
}

/// A non-2xx HTTP response yields `RequestError` with the status code
/// attached.
#[test]
fn non_2xx_yields_request_error_with_code() {
    let e = parse_balance_response(404, "").unwrap_err();
    assert_eq!(e.error_type, ExchangeErrorType::RequestError);
    assert_eq!(e.code, Some(404));

    let e2 = parse_get_order_response(503, "{}").unwrap_err();
    assert_eq!(e2.error_type, ExchangeErrorType::RequestError);
    assert_eq!(e2.code, Some(503));
}

/// A non-zero `ret_code` on HTTP 200 is an application-level failure
/// carrying the exchange's message and code.
#[test]
fn nonzero_ret_code_is_application_failure() {
    let body = "{\"ret_code\":10001,\"ret_msg\":\"params error\",\"result\":{}}";
    let e = parse_balance_response(200, body).unwrap_err();
    assert_eq!(e.error_type, ExchangeErrorType::Unknown);
    assert_eq!(e.message, "params error");
    assert_eq!(e.code, Some(10001));
}

/// A place-order response reshapes into the acknowledged order.
#[test]
fn place_order_response_decodes_order() {
    let body = "{\"ret_code\":0,\"ret_msg\":\"OK\",\"result\":{\"user_id\":7,\"order_id\":\"abc-1\",\"symbol\":\"BTCUSDT\",\"side\":\"Sell\",\"order_type\":\"Limit\",\"price\":22200,\"qty\":\"0.001\",\"order_status\":\"Created\"}}";
    let o = parse_place_order_response(200, body).expect("order decodes");
    assert_eq!(o.user_id, 7);
    assert_eq!(o.order_id, "abc-1");
    assert_eq!(o.symbol, "BTCUSDT");
    assert_eq!(o.side, Side::Sell);
    assert_eq!(o.order_type, OrderType::Limit);
    assert_eq!(o.price, 22200);
    assert_eq!(o.qty, dec(false, 1, 3));
    assert_eq!(o.order_status, "Created");
}

/// An order whose payload misses a field is a parsing failure that still
/// carries the body.
#[test]
fn order_with_missing_field_is_parsing_error() {
    let body = "{\"ret_code\":0,\"result\":{\"user_id\":7}}";
    let e = parse_place_order_response(200, body).unwrap_err();
    assert_eq!(e.error_type, ExchangeErrorType::ParsingError);
    assert!(e.message.contains(body));
}

/// An order-list response decodes each order of the single page.
#[test]
fn get_order_response_decodes_list() {
    let body = "{\"ret_code\":0,\"result\":[{\"user_id\":1,\"order_id\":\"a\",\"symbol\":\"BTCUSDT\",\"side\":\"Buy\",\"order_type\":\"Market\",\"price\":0,\"qty\":1.25,\"order_status\":\"Filled\"}]}";
    let os = parse_get_order_response(200, body).expect("list decodes");
    assert_eq!(os.len(), 1);
    assert_eq!(os[0].side, Side::Buy);
    assert_eq!(os[0].order_type, OrderType::Market);
    assert_eq!(os[0].qty, dec(false, 125, 2));
}

/// A cancel response yields the canceled order's id.
#[test]
fn cancel_order_response_decodes_id() {
    let body = "{\"ret_code\":0,\"result\":{\"order_id\":\"zzz-9\"}}";
    let c = parse_cancel_order_response(200, body).expect("cancel decodes");
    assert_eq!(c.order_id, "zzz-9");
}

/// The exchange selector parses its four accepted names and reports any
/// other back in the error message.
#[test]
fn exchange_selector_names() {
    assert!(matches!(exchange_from_string("bybit"), Ok(ExchangeType::Bybit)));
    assert!(matches!(exchange_from_string("FTX"), Ok(ExchangeType::Ftx)));
    assert!(matches!(exchange_from_string("Ftx"), Ok(ExchangeType::Ftx)));
    assert!(matches!(exchange_from_string("Binance"), Ok(ExchangeType::Binance)));
    let e = exchange_from_string("kraken").unwrap_err();
    assert_eq!(e, "kraken <- is not a exchange type");
}

/// The error constructors set kind, message and code as documented.
#[test]
fn error_constructors() {
    let e = ExchangeError::new(ExchangeErrorType::RateLimit, "slow down".to_string(), Some(42));
    assert_eq!(e.error_type, ExchangeErrorType::RateLimit);
    assert_eq!(e.message, "slow down");
    assert_eq!(e.code, Some(42));
    let r = ExchangeError::request_error("boom".to_string(), 500);
    assert_eq!(r.error_type, ExchangeErrorType::RequestError);
    assert_eq!(r.code, Some(500));
    let p = ExchangeError::parsing_error("bad".to_string());
    assert_eq!(p.error_type, ExchangeErrorType::ParsingError);
    assert_eq!(p.code, None);
    let u = ExchangeError::unknown_error("odd");
    assert_eq!(u.error_type, ExchangeErrorType::Unknown);
    assert_eq!(u.message, "odd");
    assert_eq!(u.code, None);
}
