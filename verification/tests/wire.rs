//! Tests of the wire format: decimal rendering and parsing, JSON
//! serialization and parsing, and the signed POST body of a placed order.

use exchange_client::client::BybitClient;
use exchange_client::decimal::{fmt_dec, parse_decimal, Decimal, MAX_MANTISSA};
use exchange_client::domain::{Credentials, OrderType, PlaceOrder, Side, TimeInForce};
use exchange_client::jparse::parse_json;
use exchange_client::json::{json_to_chars, Json};

fn chars(v: Vec<char>) -> String {
    v.into_iter().collect()
}

fn dec(negative: bool, mantissa: u128, scale: u32) -> Decimal {
    Decimal { negative, mantissa, scale }
}

fn hmac_hex(key: &[u8], msg: &[u8]) -> String {
    let mut mac = <hmac::Hmac<sha2::Sha256> as hmac::digest::KeyInit>::new_from_slice(key)
        .expect("HMAC accepts keys of any length");
    hmac::Mac::update(&mut mac, msg);
    let tag = hmac::Mac::finalize(mac).into_bytes();
    let mut out = String::new();
    for b in tag.iter() {
        out.push_str(&format!("{:02x}", b));
    }
    out
}

fn obj_field<'a>(j: &'a Json, key: &str) -> Option<&'a Json> {
    match j {
        Json::Obj(ms) => {
            for (k, v) in ms.iter() {
                if k == key {
                    return Some(v);
                }
            }
            None
        }
        _ => None,
    }
}

#[test]
fn decimal_formats_exactly() {
    assert_eq!(chars(fmt_dec(&dec(false, 1, 3))), "0.001");
    assert_eq!(chars(fmt_dec(&dec(true, 1250, 2))), "-12.50");
    assert_eq!(chars(fmt_dec(&dec(false, 22200, 0))), "22200");
    assert_eq!(chars(fmt_dec(&dec(false, 0, 2))), "0.00");
    assert_eq!(chars(fmt_dec(&dec(false, 15, 1))), "1.5");
}

#[test]
fn decimal_parses_exactly() {
    assert_eq!(parse_decimal("0.001"), Some(dec(false, 1, 3)));
    assert_eq!(parse_decimal("-12.50"), Some(dec(true, 1250, 2)));
    assert_eq!(parse_decimal("22200"), Some(dec(false, 22200, 0)));
    assert_eq!(parse_decimal("1.5"), Some(dec(false, 15, 1)));
    assert_eq!(parse_decimal(""), None);
    assert_eq!(parse_decimal("-"), None);
    assert_eq!(parse_decimal("1."), None);
    assert_eq!(parse_decimal(".5"), None);
    assert_eq!(parse_decimal("1.2.3"), None);
    assert_eq!(parse_decimal("12a"), None);
    assert_eq!(parse_decimal("79228162514264337593543950335"), Some(dec(false, MAX_MANTISSA, 0)));
    assert_eq!(parse_decimal("79228162514264337593543950336"), None);
}

#[test]
fn decimal_builder_enforces_range() {
    assert_eq!(Decimal::new(false, 1, 3), Some(dec(false, 1, 3)));
    assert_eq!(Decimal::new(false, MAX_MANTISSA + 1, 0), None);
    assert_eq!(Decimal::new(false, 1, 29), None);
}

#[test]
fn decimal_round_trips_without_drift() {
    let cases = vec![
        dec(false, 1, 3),
        dec(true, 1, 3),
        dec(false, 0, 0),
        dec(false, 9999999, 7),
        dec(false, MAX_MANTISSA, 28),
        dec(true, 12345678901234567890, 5),
    ];
    for d in cases {
        let text = chars(fmt_dec(&d));
        assert_eq!(parse_decimal(&text), Some(d), "round trip of {}", text);
    }
}

#[test]
fn json_parses_and_reserializes() {
    let parsed = parse_json("{\"a\":1,\"b\":[true,null,\"x\\ny\"],\"c\":\"1.5\"}").unwrap();
    let out = chars(json_to_chars(&parsed));
    assert_eq!(out, "{\"a\":1,\"b\":[true,null,\"x\\ny\"],\"c\":\"1.5\"}");
}

#[test]
fn json_accepts_whitespace_and_rejects_malformed() {
    assert!(parse_json(" { \"a\" : [ 1 , 2 ] } ").is_some());
    assert!(parse_json("{\"result\":").is_none());
    assert!(parse_json("").is_none());
    assert!(parse_json("{\"a\":1} trailing").is_none());
    assert!(parse_json("[1,]").is_none());
    assert!(parse_json("nul").is_none());
}

fn sample_order() -> PlaceOrder {
    PlaceOrder {
        side: Side::Sell,
        symbol: "BTCUSDT".to_string(),
        order_type: OrderType::Limit,
        qty: dec(false, 1, 3),
        price: Some(22200),
        time_in_force: TimeInForce::GoodTillCancel,
        reduce_only: false,
        close_on_trigger: false,
    }
}

fn sample_client() -> BybitClient {
    BybitClient::new(
        Credentials {
            secret_key: "mysecret".to_string(),
            api_key: "mykey".to_string(),
            exchange_account_id: "acct".to_string(),
        },
        200,
    )
}

/// A placed order's quantity survives the trip through the wire format
/// exactly: serialized as `0.001`, it parses back to the same
/// representation, not to a rounded neighbour.
#[test]
fn order_qty_round_trips_through_wire_format() {
    let client = sample_client();
    let req = client.place_order_request(&sample_order(), 1234567890123);
    let body = req.body.expect("a POST carries a body");
    let parsed = parse_json(&body).expect("the signed body is well-formed JSON");
    match obj_field(&parsed, "qty") {
        Some(Json::Num(d)) => assert_eq!(*d, dec(false, 1, 3)),
        other => panic!("qty missing or not a number: {:?}", other),
    }
    match obj_field(&parsed, "price") {
        Some(Json::Num(d)) => assert_eq!(*d, dec(false, 22200, 0)),
        other => panic!("price missing or not a number: {:?}", other),
    }
}

/// The signed POST body of a placed order carries `api_key`, `timestamp`
/// and a `sign` computed over the merged, canonicalized body.
#[test]
fn place_order_body_is_signed_over_merged_fields() {
    let client = sample_client();
    let req = client.place_order_request(&sample_order(), 1234567890123);
    assert_eq!(req.url, "https://api.bybit.com/private/linear/order/create");
    let body = req.body.expect("a POST carries a body");
    let parsed = parse_json(&body).expect("the signed body is well-formed JSON");
    match obj_field(&parsed, "api_key") {
        Some(Json::Str(s)) => assert_eq!(s, "mykey"),
        other => panic!("api_key missing: {:?}", other),
    }
    match obj_field(&parsed, "timestamp") {
        Some(Json::Str(s)) => assert_eq!(s, "1234567890123"),
        other => panic!("timestamp missing: {:?}", other),
    }
    let message = "api_key=mykey&close_on_trigger=false&order_type=Limit&price=22200&qty=0.001&reduce_only=false&side=Sell&symbol=BTCUSDT&time_in_force=GoodTillCancel&timestamp=1234567890123";
    let expected_sig = hmac_hex(b"mysecret", message.as_bytes());
    match obj_field(&parsed, "sign") {
        Some(Json::Str(s)) => assert_eq!(*s, expected_sig),
        other => panic!("sign missing: {:?}", other),
    }
}

/// The cancel body is signed the same way over its four fields.
#[test]
fn cancel_order_body_is_signed() {
    let client = sample_client();
    let req = client.cancel_order_request("BTCUSDT", "oid-1", 99);
    assert_eq!(req.url, "https://api.bybit.com/private/linear/order/cancel");
    let body = req.body.expect("a POST carries a body");
    let parsed = parse_json(&body).expect("the signed body is well-formed JSON");
    let message = "api_key=mykey&order_id=oid-1&symbol=BTCUSDT&timestamp=99";
    let expected_sig = hmac_hex(b"mysecret", message.as_bytes());
    match obj_field(&parsed, "sign") {
        Some(Json::Str(s)) => assert_eq!(*s, expected_sig),
        other => panic!("sign missing: {:?}", other),
    }
}

/// The balance request is an authenticated GET whose query is signed.
#[test]
fn get_balance_request_url() {
    let client = sample_client();
    let req = client.get_balance_request(Some("BTC"), 7);
    let message = "api_key=mykey&coin=BTC&timestamp=7";
    let expected_sig = hmac_hex(b"mysecret", message.as_bytes());
    assert_eq!(
        req.url,
        format!("https://api.bybit.com/v2/private/wallet/balance?{}&sign={}", message, expected_sig)
    );
    let req2 = client.get_balance_request(None, 7);
    let message2 = "api_key=mykey&timestamp=7";
    let expected_sig2 = hmac_hex(b"mysecret", message2.as_bytes());
    assert_eq!(
        req2.url,
        format!(
            "https://api.bybit.com/v2/private/wallet/balance?{}&sign={}",
            message2, expected_sig2
        )
    );
}

/// An unauthenticated GET carries the parameters as given, with no auth
/// fields and no signature; an unauthenticated POST serializes the body
/// members without signing them.
#[test]
fn unauthenticated_requests_carry_no_auth_fields() {
    let client = sample_client();
    let params = vec![("symbol".to_string(), "BTCUSDT".to_string())];
    let req = client.get_request("/v2/public/tickers", &params, false, 7);
    assert_eq!(req.url, "https://api.bybit.com/v2/public/tickers?symbol=BTCUSDT");
    let none: Vec<(String, String)> = Vec::new();
    let req2 = client.get_request("/v2/public/time", &none, false, 7);
    assert_eq!(req2.url, "https://api.bybit.com/v2/public/time");
    let members = vec![("symbol".to_string(), Json::Str("BTCUSDT".to_string()))];
    let req3 = client.post_request("/v2/public/echo", members, false);
    assert_eq!(req3.body.unwrap(), "{\"symbol\":\"BTCUSDT\"}");
}
