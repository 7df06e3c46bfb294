//! Price parsing, frame extraction, subscription frames, request
//! envelopes, and response interpretation.

use arbmon::alert_gate::AppAlert;
use arbmon::alert_gate::AlertGate;
use arbmon::auth::BinanceAuth;
use arbmon::frames::{
    binance_subscribe_msg, bybit_subscribe_msg, depth_stream_name, extract_top_of_book,
    process_bybit_frame, OrderBookData, OrderBookMsg,
};
use arbmon::orderbook::{MarketTracker, MarketType};
use arbmon::order::{check_for_opportunity, ExchangeId, PriceData, TradePlan};
use arbmon::notify::{format_percent_cp, format_price};
use arbmon::price::{parse_price, PRICE_SCALE};
use arbmon::trading::{
    build_signed_request, handle_order_response, is_matching_reply, order_ref_params,
    signed_request_with_fresh_id, BinanceOrderResponse, BinanceOrderResult, TradingError, WsError,
};
use hmac::{KeyInit, Mac};

#[test]
fn parse_price_exact_values() {
    assert_eq!(parse_price("9.7"), Some(97_000));
    assert_eq!(parse_price("100000"), Some(100_000 * PRICE_SCALE));
    assert_eq!(parse_price("0.0001"), Some(1));
    assert_eq!(parse_price("0.00009"), Some(0), "digits past the fourth truncate");
    assert_eq!(parse_price("42.123456"), Some(421_234));
    assert_eq!(parse_price("0"), Some(0));
}

#[test]
fn parse_price_rejects_malformed_strings() {
    assert_eq!(parse_price(""), None);
    assert_eq!(parse_price("."), None);
    assert_eq!(parse_price(".5"), None);
    assert_eq!(parse_price("5."), None);
    assert_eq!(parse_price("1.2.3"), None);
    assert_eq!(parse_price("1e3"), None);
    assert_eq!(parse_price("-1"), None);
    assert_eq!(parse_price(" 1"), None);
    assert_eq!(parse_price("99999999999999999999999"), None, "out of range");
}

fn level(p: &str) -> (String, String) {
    (p.to_string(), "1".to_string())
}

#[test]
fn extraction_takes_first_bid_and_ask() {
    let bids = vec![level("100.5"), level("100.4")];
    let asks = vec![level("100.6"), level("100.7")];
    assert_eq!(extract_top_of_book(&bids, &asks), Some((1_005_000, 1_006_000)));
}

#[test]
fn extraction_discards_zero_missing_or_malformed() {
    let good = vec![level("100.5")];
    assert_eq!(extract_top_of_book(&vec![], &good), None);
    assert_eq!(extract_top_of_book(&good, &vec![]), None);
    assert_eq!(extract_top_of_book(&vec![level("0")], &good), None);
    assert_eq!(extract_top_of_book(&vec![level("0.00000")], &good), None);
    assert_eq!(extract_top_of_book(&vec![level("abc")], &good), None);
}

#[test]
fn bybit_frame_reaches_the_gate() {
    let (tx, mut rx) = tokio::sync::mpsc::channel::<AppAlert>(100);
    let mut t = MarketTracker::new(500, AlertGate::new(500, 100, 120));
    let mk = |bid: &str, ask: &str| OrderBookMsg {
        topic: "orderbook.1.BTCUSDT".to_string(),
        msg_type: "delta".to_string(),
        data: OrderBookData {
            s: "BTCUSDT".to_string(),
            b: vec![level(bid)],
            a: vec![level(ask)],
            u: 1,
            seq: 1,
            market_type: MarketType::Spot,
        },
    };
    assert!(process_bybit_frame(&mut t, "binance", &mk("100000", "100010"), 1_000, &tx));
    assert!(process_bybit_frame(&mut t, "bybit", &mk("94000", "94010"), 1_001, &tx));
    let alert = rx.try_recv().expect("one alert end to end");
    assert_eq!(alert.diff_cp, 599);
    // a frame with a zero ask is discarded and changes nothing
    assert!(!process_bybit_frame(&mut t, "bybit", &mk("94000", "0"), 1_002, &tx));
}

#[test]
fn subscription_frames_are_rendered_exactly() {
    assert_eq!(depth_stream_name("BTCUSDT"), "btcusdt@depth");
    let streams = vec!["btcusdt@depth".to_string(), "ethusdt@depth".to_string()];
    assert_eq!(
        binance_subscribe_msg(&streams),
        r#"{"method":"SUBSCRIBE","params":["btcusdt@depth","ethusdt@depth"],"id":1}"#
    );
    assert_eq!(
        bybit_subscribe_msg("BTCUSDT"),
        r#"{"op":"subscribe","args":["orderbook.1.BTCUSDT"]}"#
    );
}

#[test]
fn signed_request_envelope_is_rendered_exactly() {
    let auth = BinanceAuth::new("K".to_string(), "S".to_string());
    let params = order_ref_params("LTCUSDT".to_string(), 42);
    let env = build_signed_request(&auth, "req-1", "order.cancel", params, 1_700_000_000_000);

    let query = "apiKey=K&orderId=42&recvWindow=5000&symbol=LTCUSDT&timestamp=1700000000000";
    let mut mac = <hmac::Hmac<sha2::Sha256> as KeyInit>::new_from_slice(b"S").unwrap();
    mac.update(query.as_bytes());
    let sig = hex::encode(mac.finalize().into_bytes());
    let expected = format!(
        "{{\"id\":\"req-1\",\"method\":\"order.cancel\",\"params\":{{\
         \"apiKey\":\"K\",\"orderId\":\"42\",\"recvWindow\":\"5000\",\"signature\":\"{}\",\
         \"symbol\":\"LTCUSDT\",\"timestamp\":\"1700000000000\"}}}}",
        sig
    );
    assert_eq!(env, expected);
    // the envelope is valid JSON with the fields in place
    let parsed: serde_json::Value = serde_json::from_str(&env).unwrap();
    assert_eq!(parsed["id"], "req-1");
    assert_eq!(parsed["method"], "order.cancel");
    assert_eq!(parsed["params"]["signature"], sig.as_str());
}

#[test]
fn request_ids_look_like_uuids() {
    let auth = BinanceAuth::new("K".to_string(), "S".to_string());
    let (id, env) = signed_request_with_fresh_id(
        &auth,
        "order.status",
        order_ref_params("LTCUSDT".to_string(), 7),
        1_700_000_000_000,
    );
    assert_eq!(id.len(), 36);
    assert!(id.chars().all(|c| c == '-' || c.is_ascii_digit() || ('a'..='f').contains(&c)));
    assert!(env.starts_with(&format!("{{\"id\":\"{}\"", id)));
    let (id2, _) = signed_request_with_fresh_id(
        &auth,
        "order.status",
        order_ref_params("LTCUSDT".to_string(), 7),
        1_700_000_000_000,
    );
    assert_ne!(id2, id, "two draws should differ");
}

#[test]
fn reply_correlation_matches_on_id() {
    let a = "abc".to_string();
    let b = "abc".to_string();
    let c = "abd".to_string();
    assert!(is_matching_reply(&a, &b));
    assert!(!is_matching_reply(&a, &c));
}

fn sample_result() -> BinanceOrderResult {
    BinanceOrderResult {
        order_id: 7,
        symbol: "LTCUSDT".to_string(),
        status: "NEW".to_string(),
        client_order_id: "x".to_string(),
        price: "9.7".to_string(),
        avg_price: None,
        orig_qty: "0.23".to_string(),
        executed_qty: "0".to_string(),
        cum_qty: None,
        cum_quote: None,
        time_in_force: "GTC".to_string(),
        order_type: "LIMIT".to_string(),
        reduce_only: false,
        close_position: false,
        side: "BUY".to_string(),
        position_side: "BOTH".to_string(),
        stop_price: "0".to_string(),
        working_type: "CONTRACT_PRICE".to_string(),
        price_protect: false,
        orig_type: "LIMIT".to_string(),
        price_match: "NONE".to_string(),
        self_trade_prevention_mode: "NONE".to_string(),
        good_till_date: 0,
        update_time: 0,
    }
}

#[test]
fn response_with_result_is_ok() {
    let resp = BinanceOrderResponse {
        id: "r".to_string(),
        status: 200,
        result: Some(sample_result()),
        error: None,
    };
    let out = handle_order_response(resp).unwrap();
    assert_eq!(out.order_id, 7);
}

#[test]
fn response_error_is_handed_through_verbatim() {
    let resp = BinanceOrderResponse {
        id: "r".to_string(),
        status: 400,
        result: None,
        error: Some(WsError { code: -2019, msg: "margin".to_string() }),
    };
    match handle_order_response(resp) {
        Err(TradingError::Api { code, msg }) => {
            assert_eq!(code, -2019);
            assert_eq!(msg, "margin");
        }
        other => panic!("unexpected outcome: {:?}", other),
    }
}

#[test]
fn missing_result_is_an_error_even_with_ok_status() {
    let resp = BinanceOrderResponse {
        id: "r".to_string(),
        status: 200,
        result: None,
        error: None,
    };
    match handle_order_response(resp) {
        Err(TradingError::MissingResult) => (),
        other => panic!("unexpected outcome: {:?}", other),
    }
}

#[test]
fn opportunity_scan_prefers_buying_on_the_updated_venue() {
    let a = PriceData {
        exchange: ExchangeId::Binance,
        symbol: "BTCUSDT".to_string(),
        bid: 99_000,
        ask: 100_000,
    };
    let state = vec![
        a.clone(),
        PriceData {
            exchange: ExchangeId::Bybit,
            symbol: "BTCUSDT".to_string(),
            bid: 101_000,
            ask: 102_000,
        },
    ];
    // gain = (101000 - 100000) / 100000 = 1%, threshold 0.5% (50 cp)
    let plan = check_for_opportunity(&a, &state, 50).unwrap();
    assert_eq!(
        plan,
        TradePlan {
            buy_exchange: ExchangeId::Binance,
            sell_exchange: ExchangeId::Bybit,
            buy_price: 100_000,
            sell_price: 101_000,
        }
    );
    // at a 2% threshold the same prices are no opportunity
    assert_eq!(check_for_opportunity(&a, &state, 200), None);
}

#[test]
fn prices_format_with_four_fractional_digits() {
    assert_eq!(format_price(97_000), "9.7000");
    assert_eq!(format_price(1), "0.0001");
    assert_eq!(format_price(1_000_000_000), "100000.0000");
    assert_eq!(format_price(421_234), "42.1234");
    assert_eq!(format_percent_cp(599), "5.99");
    assert_eq!(format_percent_cp(700), "7.00");
    assert_eq!(format_percent_cp(5), "0.05");
}

#[test]
fn alert_text_is_rendered_exactly() {
    let alert = AppAlert {
        symbol: "BTCUSDT".to_string(),
        exchange_a: "binance".to_string(),
        exchange_b: "bybit".to_string(),
        bid_a: 1_000_000_000,
        ask_a: 1_000_100_000,
        mid2_a: 2_000_100_000,
        bid_b: 940_000_000,
        ask_b: 940_100_000,
        mid2_b: 1_880_100_000,
        diff_cp: 599,
    };
    assert_eq!(
        arbmon::notify::alert_text(&alert),
        "Arbitrage alert | BTCUSDT | binance bid 100000.0000 ask 100010.0000 mid 100005.0000 \
         | bybit bid 94000.0000 ask 94010.0000 mid 94005.0000 | diff 5.99%"
    );
}
