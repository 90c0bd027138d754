use oracle_proxy::clob_state::{DepthLevel, SnapshotRow};
use oracle_proxy::sampler::L2Sampler;

fn row(token: &str, ts: i64, bid: f64) -> SnapshotRow<f64> {
    SnapshotRow {
        ts,
        condition_id: "c".to_string(),
        token_id: token.to_string(),
        best_bid: Some(bid),
        best_ask: None,
        mid_price: None,
        spread: None,
        bid_depth_1: None,
        ask_depth_1: None,
        bid_depth_5: None,
        ask_depth_5: None,
        bid_depth_10: None,
        ask_depth_10: None,
        depth_imbalance_5: None,
        depth_imbalance_10: None,
        slippage_100: None,
        slippage_1000: None,
        total_bid_levels: 1,
        total_ask_levels: 0,
        book_timestamp: None,
        source: "live_rust".to_string(),
        last_trade_price: None,
        last_trade_size: None,
        bid_levels: vec![DepthLevel { price: bid, size: 1.0 }],
        ask_levels: Vec::new(),
    }
}

#[test]
fn sampler_emits_first_rows_then_respects_interval() {
    let mut s: L2Sampler<f64> = L2Sampler::new(0, 5_000);
    assert_eq!(s.sample_interval_ms, 1);
    let mut s: L2Sampler<f64> = L2Sampler::new(1_000, 5_000);
    s.ingest(row("a", 0, 0.4));
    s.ingest(row("b", 0, 0.6));
    s.ingest(row("a", 10, 0.41));
    assert_eq!(s.slots.len(), 2);
    assert_eq!(s.ingested_rows, 3);

    let out = s.take_ready(100, &vec![true, true]);
    assert_eq!(out.len(), 2);
    assert_eq!((out[0].token_id.as_str(), out[0].ts), ("a", 10));
    assert_eq!(out[1].token_id, "b");
    assert_eq!(s.emitted_rows, 2);

    // Too soon, however much the books changed.
    s.ingest(row("a", 500, 0.5));
    assert!(s.take_ready(900, &vec![true, true]).is_empty());
    // Interval passed: only the changed book goes out.
    let out = s.take_ready(1_200, &vec![true, false]);
    assert_eq!(out.len(), 1);
    assert_eq!(out[0].best_bid, Some(0.5));
    // Unchanged book is refreshed once the force period passed.
    let out = s.take_ready(5_000, &vec![false, false]);
    assert_eq!(out.len(), 1);
    assert_eq!(out[0].token_id, "b");
    assert_eq!(s.emitted_rows, 4);
}
