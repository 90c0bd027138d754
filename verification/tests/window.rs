use oracle_proxy::window::{
    compute_window_slugs, should_persist_market_now, slug_prefix, timeframe_secs, window_slugs_at,
    window_slugs_checked,
};

#[test]
fn known_timeframes() {
    assert_eq!(timeframe_secs("5m"), Some(300));
    assert_eq!(timeframe_secs("15m"), Some(900));
    assert_eq!(timeframe_secs("1h"), None);
    assert_eq!(timeframe_secs("5M"), None);
    assert_eq!(slug_prefix("BTC"), "btc-updown");
}

#[test]
fn slugs_around_the_current_window() {
    let slugs = window_slugs_at("BTC", "5m", 1_000, 1, 1);
    assert_eq!(slugs, vec!["btc-updown-5m-600", "btc-updown-5m-900", "btc-updown-5m-1200"]);
    let slugs = window_slugs_at("Eth", "15m", 1_800, 0, 0);
    assert_eq!(slugs, vec!["eth-updown-15m-1800"]);
    let none = window_slugs_at("BTC", "1h", 1_000, 3, 1);
    assert!(none.is_empty());
}

#[test]
fn current_slugs_use_the_clock() {
    let slugs = compute_window_slugs("BTC", "5m", 3, 1).unwrap();
    assert_eq!(slugs.len(), 5);
    for s in &slugs {
        assert!(s.starts_with("btc-updown-5m-"));
        let start: i64 = s["btc-updown-5m-".len()..].parse().unwrap();
        assert_eq!(start % 300, 0);
    }
    assert_eq!(compute_window_slugs("BTC", "1d", 3, 1), Some(Vec::new()));
    assert_eq!(compute_window_slugs("BTC", "5m", i64::MAX, 1), None);
}

#[test]
fn persist_only_the_live_round() {
    let close = "2026-02-28T01:15:00Z";
    let ms: i128 = 1_000_000;
    let close_ms: i128 = 1772241300000 * ms;
    assert!(should_persist_market_now("5m", close, close_ms - 300_000 * ms));
    assert!(should_persist_market_now("5m", close, close_ms));
    assert!(!should_persist_market_now("5m", close, close_ms - 301_000 * ms));
    assert!(!should_persist_market_now("5m", close, close_ms + 1_000 * ms));
    assert!(should_persist_market_now("15m", close, close_ms - 900_000 * ms));
    assert!(!should_persist_market_now("1h", close, close_ms));
    assert!(!should_persist_market_now("5m", "?", close_ms));
}

#[test]
fn checked_slugs_refuse_overflowing_windows() {
    assert_eq!(
        window_slugs_checked("BTC", "5m", 1_000, 1, 1),
        Some(vec!["btc-updown-5m-600".to_string(), "btc-updown-5m-900".to_string(), "btc-updown-5m-1200".to_string()])
    );
    assert_eq!(window_slugs_checked("BTC", "5m", -100, 0, 0), Some(vec!["btc-updown-5m-0".to_string()]));
    assert_eq!(window_slugs_checked("BTC", "5m", i64::MAX - 10, 2, 0), None);
    assert_eq!(window_slugs_checked("BTC", "15m", 0, 0, i64::MIN), None);
    assert_eq!(window_slugs_checked("BTC", "1h", i64::MAX, i64::MAX, 0), Some(Vec::new()));
}

#[test]
fn persist_counts_whole_seconds_at_full_precision() {
    let close = "2026-02-28T01:15:00Z";
    let close_ns: i128 = 1772241300000 * 1_000_000;
    // 300.9999999 s before the close is 300 whole seconds: still live.
    assert!(should_persist_market_now("5m", close, close_ns - 300_999_999_999));
    assert!(!should_persist_market_now("5m", close, close_ns - 301_000_000_000));
    // Half a second after the close counts as 0 whole seconds.
    assert!(should_persist_market_now("5m", close, close_ns + 500_000_000));
}
