//! Tests of the Signer: determinism, canonical ordering, the golden
//! signature of a fixed input, and the HMAC wrapper against a published
//! test vector.

use exchange_client::signer::{sign, signed_get_query, sort_params};

fn chars(v: Vec<char>) -> String {
    v.into_iter().collect()
}

fn hmac_hex(key: &[u8], msg: &[u8]) -> String {
    let mut mac = <hmac::Hmac<sha2::Sha256> as hmac::digest::KeyInit>::new_from_slice(key)
        .expect("HMAC accepts keys of any length");
    hmac::Mac::update(&mut mac, msg);
    let tag = hmac::Mac::finalize(mac).into_bytes();
    let mut out = String::new();
    for b in tag.iter() {
        out.push_str(&format!("{:02x}", b));
    }
    out
}

/// The HMAC-SHA256 wrapper against the published test vector with a
/// 20-byte key of 0x0b and the data "Hi There".
#[test]
fn hmac_wrapper_matches_published_vector() {
    let key = "\u{b}\u{b}\u{b}\u{b}\u{b}\u{b}\u{b}\u{b}\u{b}\u{b}\u{b}\u{b}\u{b}\u{b}\u{b}\u{b}\u{b}\u{b}\u{b}\u{b}";
    assert_eq!(key.len(), 20);
    let sig = chars(sign(key, "Hi There"));
    assert_eq!(
        sig,
        "b0344c61d8db38535ca8afceaf0bf12b881dc200c9833da726e9376c2e32cff7"
    );
}

/// Re-running the Signer with the same parameters, secret and timestamp
/// yields identical signed query strings.
#[test]
fn signer_is_deterministic() {
    let params = vec![
        ("symbol".to_string(), "BTCUSDT".to_string()),
        ("coin".to_string(), "BTC".to_string()),
    ];
    let q1 = signed_get_query(&params, "key", "secret", 1700000000000);
    let q2 = signed_get_query(&params, "key", "secret", 1700000000000);
    assert_eq!(q1, q2);
}

/// Signed query parameters come out in byte-wise ascending key order,
/// whatever order they arrive in.
#[test]
fn signed_query_is_sorted_by_key() {
    let params = vec![
        ("symbol".to_string(), "BTC".to_string()),
        ("api_key".to_string(), "X".to_string()),
    ];
    let sorted = sort_params(&params);
    assert_eq!(sorted[0].0, "api_key");
    assert_eq!(sorted[1].0, "symbol");

    let shuffled = vec![
        ("symbol".to_string(), "BTC".to_string()),
        ("coin".to_string(), "ETH".to_string()),
    ];
    let q = signed_get_query(&shuffled, "K", "S", 5);
    assert!(q.starts_with("api_key=K&coin=ETH&symbol=BTC&timestamp=5"));

    let reordered = vec![
        ("coin".to_string(), "ETH".to_string()),
        ("symbol".to_string(), "BTC".to_string()),
    ];
    assert_eq!(q, signed_get_query(&reordered, "K", "S", 5));
}

/// The golden signed GET query of a fixed secret, fixed parameters and a
/// fixed timestamp: the canonical message is sorted and encoded, and the
/// appended signature is the HMAC of exactly that message, never of
/// itself.
#[test]
fn golden_signed_get_query() {
    let params = vec![("symbol".to_string(), "BTCUSDT".to_string())];
    let q = signed_get_query(&params, "mykey", "mysecret", 1234567890123);
    let message = "api_key=mykey&symbol=BTCUSDT&timestamp=1234567890123";
    let expected_sig = hmac_hex(b"mysecret", message.as_bytes());
    assert_eq!(q, format!("{}&sign={}", message, expected_sig));
}

/// Values are percent-encoded in the canonical query string.
#[test]
fn signed_query_percent_encodes() {
    let params = vec![("note".to_string(), "a b/c".to_string())];
    let q = signed_get_query(&params, "k", "s", 7);
    assert!(q.starts_with("api_key=k&note=a%20b%2Fc&timestamp=7"));
}
