//! Canonicalisation and signing against the hmac/sha2/hex crates.

use arbmon::auth::{BinanceAuth, ParamMap};
use arbmon::order::{create_limit_order, BinanceOrderSide};
use arbmon::text::u64_to_dec;
use hmac::{KeyInit, Mac};

fn hmac_hex(secret: &str, payload: &str) -> String {
    let mut mac =
        <hmac::Hmac<sha2::Sha256> as KeyInit>::new_from_slice(secret.as_bytes()).unwrap();
    mac.update(payload.as_bytes());
    hex::encode(mac.finalize().into_bytes())
}

fn lookup<'a>(params: &'a ParamMap, key: &str) -> Option<&'a str> {
    for (k, v) in params.entries.iter() {
        if k == key {
            return Some(v.as_str());
        }
    }
    None
}

#[test]
fn canonical_query_is_sorted_key_value_form() {
    let mut p = ParamMap::new();
    p.insert("symbol".to_string(), "LTCUSDT".to_string());
    p.insert("side".to_string(), "BUY".to_string());
    p.insert("type".to_string(), "LIMIT".to_string());
    p.insert("quantity".to_string(), "0.23".to_string());
    p.insert("price".to_string(), "9.7".to_string());
    p.insert("timeInForce".to_string(), "GTC".to_string());
    p.insert("apiKey".to_string(), "K".to_string());
    p.insert("recvWindow".to_string(), "5000".to_string());
    p.insert("timestamp".to_string(), "1700000000000".to_string());
    assert_eq!(
        p.canonical_query(),
        "apiKey=K&price=9.7&quantity=0.23&recvWindow=5000&side=BUY&symbol=LTCUSDT\
         &timeInForce=GTC&timestamp=1700000000000&type=LIMIT"
    );
}

#[test]
fn signing_matches_hmac_sha256_of_canonical_query() {
    let auth = BinanceAuth::new("K".to_string(), "S".to_string());
    let mut p = ParamMap::new();
    p.insert("symbol".to_string(), "LTCUSDT".to_string());
    p.insert("side".to_string(), "BUY".to_string());
    p.insert("type".to_string(), "LIMIT".to_string());
    p.insert("quantity".to_string(), "0.23".to_string());
    p.insert("price".to_string(), "9.7".to_string());
    p.insert("timeInForce".to_string(), "GTC".to_string());
    let signed = auth.augment_and_sign_params(p, 1_700_000_000_000);

    let query = "apiKey=K&price=9.7&quantity=0.23&recvWindow=5000&side=BUY&symbol=LTCUSDT\
                 &timeInForce=GTC&timestamp=1700000000000&type=LIMIT";
    let expected = hmac_hex("S", query);
    assert_eq!(lookup(&signed, "signature"), Some(expected.as_str()));
    assert_eq!(lookup(&signed, "apiKey"), Some("K"));
    assert_eq!(lookup(&signed, "recvWindow"), Some("5000"));
    assert_eq!(lookup(&signed, "timestamp"), Some("1700000000000"));
}

#[test]
fn signature_is_64_lowercase_hex_characters() {
    let auth = BinanceAuth::new("K".to_string(), "S".to_string());
    let sig = auth.sign_payload("apiKey=K&symbol=LTCUSDT");
    assert_eq!(sig.len(), 64);
    assert!(sig
        .chars()
        .all(|c| c.is_ascii_digit() || ('a'..='f').contains(&c)));
}

#[test]
fn signing_is_deterministic() {
    let make = || {
        let auth = BinanceAuth::new("K".to_string(), "S".to_string());
        let mut p = ParamMap::new();
        p.insert("symbol".to_string(), "LTCUSDT".to_string());
        p.insert("side".to_string(), "SELL".to_string());
        let signed = auth.augment_and_sign_params(p, 1_700_000_000_000);
        (
            signed.canonical_query(),
            lookup(&signed, "signature").unwrap().to_string(),
        )
    };
    let (q1, s1) = make();
    let (q2, s2) = make();
    assert_eq!(q1, q2);
    assert_eq!(s1, s2);
}

#[test]
fn insert_overwrites_existing_key() {
    let mut p = ParamMap::new();
    p.insert("symbol".to_string(), "AAA".to_string());
    p.insert("symbol".to_string(), "BBB".to_string());
    assert_eq!(p.entries.len(), 1);
    assert_eq!(p.canonical_query(), "symbol=BBB");
}

#[test]
fn limit_order_serialises_expected_params() {
    let order = create_limit_order(
        "LTCUSDT".to_string(),
        BinanceOrderSide::BUY,
        "0.23".to_string(),
        "9.7".to_string(),
    );
    let params = order.to_params();
    assert_eq!(
        params.canonical_query(),
        "newOrderRespType=RESULT&price=9.7&quantity=0.23&side=BUY&symbol=LTCUSDT\
         &timeInForce=GTC&type=LIMIT"
    );
}

#[test]
fn decimal_rendering_is_plain_base_ten() {
    assert_eq!(u64_to_dec(0), "0");
    assert_eq!(u64_to_dec(7), "7");
    assert_eq!(u64_to_dec(1_700_000_000_000), "1700000000000");
    assert_eq!(u64_to_dec(u64::MAX), "18446744073709551615");
}

#[test]
fn bybit_signature_matches_hmac_of_realtime_payload() {
    let auth = arbmon::bybit::BybitAuth::new("key".to_string(), "sec".to_string());
    let msg = auth.auth_msg(1_700_000_000_000);
    assert_eq!(msg.op, "auth");
    assert_eq!(msg.api_key, "key");
    assert_eq!(msg.expires, 1_700_000_001_000);
    let expected = hmac_hex("sec", "GET/realtime1700000001000");
    assert_eq!(msg.signature, expected);
}
