//! End-to-end scenarios through the tracker, comparator and alert gate.

use arbmon::alert_gate::{pair_key, AlertGate, AppAlert};
use arbmon::orderbook::{Comparator, MarketSnapshot, MarketTracker, MarketType};
use arbmon::price::PRICE_SCALE;

fn fixed(units: u64) -> u64 {
    units * PRICE_SCALE
}

fn tracker(threshold_cp: u64, min_diff_cp: u64, delta_cp: u64, cooldown_secs: u64) -> MarketTracker {
    MarketTracker::new(threshold_cp, AlertGate::new(min_diff_cp, delta_cp, cooldown_secs))
}

#[test]
fn single_dislocation_single_alert() {
    let (tx, mut rx) = tokio::sync::mpsc::channel::<AppAlert>(100);
    let mut t = tracker(500, 500, 100, 120);
    let t0: u64 = 1_000_000;
    t.update(
        "binance",
        "BTCUSDT",
        fixed(100000),
        fixed(100010),
        MarketType::Spot,
        t0,
        &tx,
    );
    assert!(rx.try_recv().is_err(), "one venue alone must not alert");
    t.update(
        "bybit",
        "BTCUSDT",
        fixed(94000),
        fixed(94010),
        MarketType::Spot,
        t0 + 1,
        &tx,
    );
    let alert = rx.try_recv().expect("expected exactly one alert");
    assert_eq!(alert.symbol, "BTCUSDT");
    assert_eq!(alert.exchange_a, "binance");
    assert_eq!(alert.exchange_b, "bybit");
    // the payload carries both sides' prices untouched
    assert_eq!(alert.bid_a, fixed(100000));
    assert_eq!(alert.ask_a, fixed(100010));
    assert_eq!(alert.mid2_a, fixed(100000) + fixed(100010));
    assert_eq!(alert.bid_b, fixed(94000));
    assert_eq!(alert.ask_b, fixed(94010));
    assert_eq!(alert.mid2_b, fixed(94000) + fixed(94010));
    // |100005 - 94005| / 100005 * 100 = 5.9997%, i.e. 599 hundredths truncated
    assert_eq!(alert.diff_cp, 599);
    assert!(rx.try_recv().is_err(), "no second alert");
}

#[test]
fn duplicate_suppressed_by_delta() {
    let (tx, mut rx) = tokio::sync::mpsc::channel::<AppAlert>(100);
    let mut t = tracker(500, 500, 100, 120);
    let t0: u64 = 1_000_000;
    t.update("binance", "BTCUSDT", fixed(100000), fixed(100010), MarketType::Spot, t0, &tx);
    t.update("bybit", "BTCUSDT", fixed(94000), fixed(94010), MarketType::Spot, t0 + 1, &tx);
    assert_eq!(rx.try_recv().unwrap().diff_cp, 599);
    // well past the cooldown, but the jump is below the re-alert delta
    t.update(
        "bybit",
        "BTCUSDT",
        fixed(94010),
        fixed(94020),
        MarketType::Spot,
        t0 + 200_000,
        &tx,
    );
    assert!(rx.try_recv().is_err(), "delta gate must suppress the repeat");
}

#[test]
fn re_alert_after_delta() {
    let (tx, mut rx) = tokio::sync::mpsc::channel::<AppAlert>(100);
    let mut t = tracker(500, 500, 100, 120);
    let t0: u64 = 1_000_000;
    t.update("binance", "BTCUSDT", fixed(100000), fixed(100010), MarketType::Spot, t0, &tx);
    t.update("bybit", "BTCUSDT", fixed(94000), fixed(94010), MarketType::Spot, t0 + 1, &tx);
    assert_eq!(rx.try_recv().unwrap().diff_cp, 599);
    // diff grows to ~7.00%: 699 >= 599 + 100, and the cooldown has passed
    t.update(
        "bybit",
        "BTCUSDT",
        fixed(93000),
        fixed(93010),
        MarketType::Spot,
        t0 + 200_000,
        &tx,
    );
    let second = rx.try_recv().expect("expected a second alert");
    assert_eq!(second.diff_cp, 699);
}

#[test]
fn cooldown_suppresses_otherwise_eligible_alert() {
    let (tx, mut rx) = tokio::sync::mpsc::channel::<AppAlert>(100);
    let mut t = tracker(500, 500, 100, 120);
    let t0: u64 = 1_000_000;
    t.update("binance", "BTCUSDT", fixed(100000), fixed(100010), MarketType::Spot, t0, &tx);
    t.update("bybit", "BTCUSDT", fixed(94000), fixed(94010), MarketType::Spot, t0 + 1, &tx);
    assert_eq!(rx.try_recv().unwrap().diff_cp, 599);
    t.update("bybit", "BTCUSDT", fixed(93000), fixed(93010), MarketType::Spot, t0 + 200_000, &tx);
    assert_eq!(rx.try_recv().unwrap().diff_cp, 699);
    // within the 120 s cooldown of the second send: nothing may fire
    t.update(
        "binance",
        "BTCUSDT",
        fixed(101000),
        fixed(101010),
        MarketType::Spot,
        t0 + 260_000,
        &tx,
    );
    assert!(rx.try_recv().is_err(), "cooldown must suppress");
}

#[test]
fn threshold_gate_blocks_small_dislocation() {
    let (tx, mut rx) = tokio::sync::mpsc::channel::<AppAlert>(100);
    // threshold 10.00%
    let mut t = tracker(1000, 1000, 100, 120);
    let t0: u64 = 1_000_000;
    t.update("binance", "BTCUSDT", fixed(100000), fixed(100010), MarketType::Spot, t0, &tx);
    t.update("bybit", "BTCUSDT", fixed(94000), fixed(94010), MarketType::Spot, t0 + 1, &tx);
    assert!(rx.try_recv().is_err(), "5.99% is below a 10% threshold");
}

#[test]
fn invalid_snapshots_are_rejected_silently() {
    let (tx, mut rx) = tokio::sync::mpsc::channel::<AppAlert>(100);
    let mut t = tracker(500, 500, 100, 120);
    t.update("binance", "BTCUSDT", 0, fixed(100010), MarketType::Spot, 1, &tx);
    t.update("binance", "BTCUSDT", fixed(2), fixed(1), MarketType::Spot, 2, &tx);
    assert_eq!(t.data.len(), 0, "rejected updates must leave no trace");
    assert!(rx.try_recv().is_err());
}

#[test]
fn snapshot_insertion_overwrites_per_venue() {
    let (tx, _rx) = tokio::sync::mpsc::channel::<AppAlert>(100);
    let mut t = tracker(500, 500, 100, 120);
    t.update("binance", "BTCUSDT", fixed(100), fixed(101), MarketType::Spot, 1, &tx);
    t.update("binance", "BTCUSDT", fixed(102), fixed(103), MarketType::Spot, 2, &tx);
    assert_eq!(t.data.len(), 1);
    assert_eq!(t.data[0].1.len(), 1, "same venue overwrites, never grows");
    assert_eq!(t.data[0].1[0].bid, fixed(102));
}

#[test]
fn pair_key_normalises_venue_order_and_case() {
    let a = pair_key("btcusdt", "bybit", "binance");
    let b = pair_key("btcusdt", "binance", "bybit");
    assert_eq!(a, b);
    assert_eq!(a, "BTCUSDT|binance|bybit");
}

#[test]
fn gate_behaviour_is_symmetric_in_venue_order() {
    let (tx1, mut rx1) = tokio::sync::mpsc::channel::<AppAlert>(100);
    let (tx2, mut rx2) = tokio::sync::mpsc::channel::<AppAlert>(100);
    let mut g1 = AlertGate::new(500, 100, 120);
    let mut g2 = AlertGate::new(500, 100, 120);
    let s1 = g1.maybe_send(
        &tx1, "BTCUSDT", "binance", "bybit", 1, 2, 3, 4, 5, 6, 700, 1_000,
    );
    let s2 = g2.maybe_send(
        &tx2, "BTCUSDT", "bybit", "binance", 1, 2, 3, 4, 5, 6, 700, 1_000,
    );
    assert_eq!(s1, s2);
    assert!(s1);
    // and after a first accept, both reject the same repeat
    let r1 = g1.maybe_send(&tx1, "BTCUSDT", "binance", "bybit", 1, 2, 3, 4, 5, 6, 750, 400_000);
    let r2 = g2.maybe_send(&tx2, "BTCUSDT", "bybit", "binance", 1, 2, 3, 4, 5, 6, 750, 400_000);
    assert_eq!(r1, r2);
    assert!(!r1, "750 < 700 + 100 must be rejected under either order");
    assert!(rx1.try_recv().is_ok());
    assert!(rx2.try_recv().is_ok());
}

#[test]
fn gate_reset_clears_state() {
    let (tx, mut rx) = tokio::sync::mpsc::channel::<AppAlert>(100);
    let mut g = AlertGate::new(500, 100, 120);
    assert!(g.maybe_send(&tx, "BTCUSDT", "binance", "bybit", 1, 2, 3, 4, 5, 6, 700, 1_000));
    assert!(!g.maybe_send(&tx, "BTCUSDT", "binance", "bybit", 1, 2, 3, 4, 5, 6, 700, 400_000));
    g.reset();
    assert!(
        g.maybe_send(&tx, "BTCUSDT", "binance", "bybit", 1, 2, 3, 4, 5, 6, 700, 400_001),
        "after reset the same alert fires again"
    );
    assert!(rx.try_recv().is_ok());
    assert!(rx.try_recv().is_ok());
}

#[test]
fn full_mailbox_drops_alert_and_keeps_gate_state() {
    let (tx, mut rx) = tokio::sync::mpsc::channel::<AppAlert>(1);
    let mut g = AlertGate::new(500, 100, 0);
    assert!(g.maybe_send(&tx, "BTCUSDT", "binance", "bybit", 1, 2, 3, 4, 5, 6, 700, 1_000));
    // channel (capacity 1) is now full: the alert is dropped and gate
    // state stays, so the next eligible alert can still fire
    assert!(!g.maybe_send(&tx, "BTCUSDT", "binance", "bybit", 1, 2, 3, 4, 5, 6, 900, 2_000));
    assert!(rx.try_recv().is_ok());
    assert!(rx.try_recv().is_err());
    assert!(
        g.maybe_send(&tx, "BTCUSDT", "binance", "bybit", 1, 2, 3, 4, 5, 6, 900, 3_000),
        "the dropped alert must not have advanced gate state"
    );
}

#[test]
fn comparator_emits_only_above_threshold_pairs() {
    let mut c = Comparator::new(500);
    let snaps = vec![
        MarketSnapshot::new("binance", "BTCUSDT", fixed(100000), fixed(100010), 1, MarketType::Spot),
        MarketSnapshot::new("bybit", "BTCUSDT", fixed(99000), fixed(99010), 2, MarketType::Spot),
        MarketSnapshot::new("okx", "BTCUSDT", fixed(94000), fixed(94010), 3, MarketType::Spot),
    ];
    let out = c.compare(&snaps);
    // (binance,bybit): ~1.00% -> below; (binance,okx): 599; (bybit,okx): ~5.05% -> 505
    assert_eq!(out.len(), 2);
    assert_eq!(out[0].a.exchange, "binance");
    assert_eq!(out[0].b.exchange, "okx");
    assert_eq!(out[0].diff_cp, 599);
    assert_eq!(out[1].a.exchange, "bybit");
    assert_eq!(out[1].b.exchange, "okx");
    for d in &out {
        assert!(d.diff_cp >= 500, "every emission clears the threshold");
    }
    assert_eq!(c.biggest_diff, 599, "watermark follows the largest emission");
}

#[test]
fn comparator_skips_same_venue_pairs() {
    let mut c = Comparator::new(0);
    let snaps = vec![
        MarketSnapshot::new("binance", "BTCUSDT", fixed(100), fixed(101), 1, MarketType::Spot),
        MarketSnapshot::new("binance", "BTCUSDT", fixed(200), fixed(201), 2, MarketType::Spot),
    ];
    let out = c.compare(&snaps);
    assert!(out.is_empty(), "a venue is never compared with itself");
}

#[test]
fn alert_payload_carries_the_guard_inputs() {
    let a = arbmon::alert_gate::make_alert(
        "BTCUSDT", "binance", "bybit", 1, 2, 3, 4, 5, 6, 700,
    );
    assert_eq!(a.symbol, "BTCUSDT");
    assert_eq!(a.exchange_a, "binance");
    assert_eq!(a.exchange_b, "bybit");
    assert_eq!(
        (a.bid_a, a.ask_a, a.mid2_a, a.bid_b, a.ask_b, a.mid2_b, a.diff_cp),
        (1, 2, 3, 4, 5, 6, 700)
    );
}
