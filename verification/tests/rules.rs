use oracle_proxy::frames::{signal_name, EventKind, FrameCounter};
use oracle_proxy::http_api::{order_side, time_in_force, OrderSide, TimeInForce};
use oracle_proxy::time::{fresh_prices, latency_ms, price_is_fresh};

const SEC: i128 = 1_000_000_000;

#[test]
fn prices_stay_fresh_for_thirty_whole_seconds() {
    let now = 1_700_000_000 * SEC;
    assert!(price_is_fresh(now - 30 * SEC, now));
    assert!(price_is_fresh(now - 31 * SEC + 1, now));
    assert!(!price_is_fresh(now - 31 * SEC, now));
    assert!(price_is_fresh(now + 5 * SEC, now));
    assert_eq!(fresh_prices(&vec![now - 40 * SEC, now, now - 30 * SEC], now), vec![false, true, true]);
}

#[test]
fn latency_is_whole_milliseconds_and_never_negative() {
    let now = 1_700_000_000 * SEC;
    assert_eq!(latency_ms(now - 1_500_000, now), 1);
    assert_eq!(latency_ms(now - 2 * SEC, now), 2_000);
    assert_eq!(latency_ms(now + SEC, now), 0);
    assert_eq!(latency_ms(now, now), 0);
}

#[test]
fn order_side_and_time_in_force() {
    assert_eq!(order_side("buy"), Some(OrderSide::Buy));
    assert_eq!(order_side("SeLL"), Some(OrderSide::Sell));
    assert_eq!(order_side("hold"), None);
    assert_eq!(time_in_force("fok"), TimeInForce::Fok);
    assert_eq!(time_in_force("IOC"), TimeInForce::Fak);
    assert_eq!(time_in_force("fak"), TimeInForce::Fak);
    assert_eq!(time_in_force("gtd"), TimeInForce::Gtd);
    assert_eq!(time_in_force("day"), TimeInForce::Gtc);
}

#[test]
fn signal_names_of_events() {
    assert_eq!(signal_name(EventKind::Tick), None);
    assert_eq!(signal_name(EventKind::RoundTriggered), Some("round_triggered"));
    assert_eq!(signal_name(EventKind::RoundSettled), Some("round_settled"));
    assert_eq!(signal_name(EventKind::DeviationApproach), Some("deviation_approach"));
    assert_eq!(signal_name(EventKind::BbBreakout), Some("bb_breakout"));
    assert_eq!(signal_name(EventKind::PreTriggerAlert), Some("pre_trigger_alert"));
}

#[test]
fn frames_are_numbered_in_order() {
    let mut c = FrameCounter::new();
    assert_eq!(c.step(true), Some(0));
    assert_eq!(c.step(false), None);
    assert_eq!(c.step(true), Some(1));
    assert_eq!(c.step(true), Some(2));
    assert_eq!(c.next, 3);
}
