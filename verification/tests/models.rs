use oracle_proxy::backoff::{BinanceClient, CoinbaseClient, KrakenClient};
use oracle_proxy::frames::direction_to_str;
use oracle_proxy::models::{dir_to_str, RoundDirection, Side};
use oracle_proxy::monitoring::HealthChecker;

#[test]
fn direction_and_side_names() {
    assert_eq!(dir_to_str(&RoundDirection::Up), "UP");
    assert_eq!(dir_to_str(&RoundDirection::Down), "DOWN");
    assert_eq!(direction_to_str(&RoundDirection::Down), "DOWN");
    assert_eq!(Side::Bid.wire_name(), "BID");
    assert_eq!(Side::Ask.wire_name(), "ASK");
}

#[test]
fn health_report_is_static() {
    let h = HealthChecker::new();
    let r = h.check_health();
    assert_eq!(r.status, "healthy");
    assert_eq!(r.uptime_seconds, 0);
    assert!(r.exchanges.is_empty());
    assert_eq!(r.chainlink_baseline_age_secs, None);
    assert_eq!(r.websocket_clients, 0);
    let _feeds = (BinanceClient, CoinbaseClient, KrakenClient);
}
