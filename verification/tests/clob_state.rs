use oracle_proxy::clob_state::{ClobUiState, DepthLevel, SnapshotRow};

fn row(token: &str, cond: &str, bid: f64, ask: f64, ts: i64, levels: usize) -> SnapshotRow<f64> {
    let bids: Vec<DepthLevel<f64>> =
        (0..levels).map(|i| DepthLevel { price: bid - 0.01 * i as f64, size: 10.0 + i as f64 }).collect();
    SnapshotRow {
        ts,
        condition_id: cond.to_string(),
        token_id: token.to_string(),
        best_bid: Some(bid),
        best_ask: Some(ask),
        mid_price: Some((bid + ask) / 2.0),
        spread: Some(ask - bid),
        bid_depth_1: None,
        ask_depth_1: None,
        bid_depth_5: Some(50.0),
        ask_depth_5: None,
        bid_depth_10: None,
        ask_depth_10: None,
        depth_imbalance_5: None,
        depth_imbalance_10: None,
        slippage_100: None,
        slippage_1000: None,
        total_bid_levels: levels as i32,
        total_ask_levels: 0,
        book_timestamp: None,
        source: "live_rust".to_string(),
        last_trade_price: None,
        last_trade_size: None,
        bid_levels: bids,
        ask_levels: Vec::new(),
    }
}

fn meta(s: &mut ClobUiState<f64>, token: &str, cond: &str, tf: &str, close: &str, side: &str) {
    s.set_market_meta(
        token.to_string(),
        cond.to_string(),
        "BTC".to_string(),
        tf.to_string(),
        close.to_string(),
        side.to_string(),
        None,
    );
}

#[test]
fn counters_and_rows() {
    let mut s: ClobUiState<f64> = ClobUiState::new();
    s.on_reconnect(1_500);
    s.on_drop();
    s.on_enqueue();
    s.on_enqueue();
    s.on_malformed();
    s.on_skipped_non_current();
    s.set_sampler_stats(10, 4);
    s.set_writer_stats(4, 2, 1, 1);
    assert_eq!((s.reconnects, s.last_backoff_ms), (1, 1_500));
    assert_eq!((s.dropped_rows, s.enqueued_rows, s.malformed_rows), (1, 2, 1));
    assert_eq!(s.skipped_non_current_rows, 1);
    assert_eq!((s.sampler_ingested_rows, s.sampler_emitted_rows), (10, 4));
    assert_eq!(s.writer_buffered_rows, 2);

    s.update_from_row(&row("u1", "c1", 0.40, 0.42, 1_000, 7));
    s.update_from_row(&row("u1", "c1", 0.41, 0.43, 2_000, 3));
    assert_eq!(s.tokens.len(), 1);
    let t = &s.tokens[0];
    assert_eq!(t.best_bid, Some(0.41));
    assert_eq!(t.updated_at, 2_000);
    assert_eq!(t.bid_ladder.len(), 3);
    assert_eq!(t.timeframe, "?");
    assert!(s.last_message_at.is_some());

    s.update_from_row(&row("d1", "c1", 0.55, 0.58, 2_100, 9));
    assert_eq!(s.tokens.len(), 2);
    assert_eq!(s.tokens[1].bid_ladder.len(), 5);
    s.set_token_timeframe(&"d1".to_string(), "5m".to_string());
    assert_eq!(s.tokens[1].timeframe, "5m");
}

#[test]
fn directory_upserts_by_token() {
    let mut s: ClobUiState<f64> = ClobUiState::new();
    meta(&mut s, "u1", "c1", "5m", "2026-02-28T01:15:00Z", "UP");
    meta(&mut s, "d1", "c1", "5m", "2026-02-28T01:15:00Z", "DOWN");
    meta(&mut s, "u1", "c1", "15m", "2026-02-28T01:15:00Z", "UP");
    assert_eq!(s.markets.len(), 2);
    assert_eq!(s.markets[0].timeframe, "15m");
    s.clear_markets();
    assert!(s.markets.is_empty());
}

#[test]
fn round_quote_picks_the_nearest_close_in_window() {
    let mut s: ClobUiState<f64> = ClobUiState::new();
    meta(&mut s, "u1", "c1", "5m", "2026-02-28T01:15:00Z", "UP");
    meta(&mut s, "d1", "c1", "5m", "2026-02-28T01:15:00Z", "down");
    meta(&mut s, "u2", "c2", "5m", "2026-02-28T01:10:00Z", "Up");
    meta(&mut s, "d2", "c2", "5m", "2026-02-28T01:10:00Z", "DOWN");
    for (t, c) in [("u1", "c1"), ("d1", "c1"), ("u2", "c2"), ("d2", "c2")] {
        s.update_from_row(&row(t, c, 0.5, 0.52, 1, 1));
    }
    let at_0112: i128 = (1772241000000 + 120_000) * 1_000_000;
    let q = s.round_quote_at("btc", "5m", at_0112, 900, 30).unwrap();
    assert_eq!(q.condition_id, "c1");
    assert_eq!(q.up.token_id, "u1");
    assert_eq!(q.down.token_id, "d1");
    assert_eq!(q.close_time.as_deref(), Some("2026-02-28T01:15:00Z"));
    let q = s.round_quote_at("btc", "5m", at_0112, 900, 300).unwrap();
    assert_eq!(q.condition_id, "c2");
    assert!(s.round_quote_at("btc", "15m", at_0112, 900, 300).is_none());
    assert!(s.round_quote_at("eth", "5m", at_0112, 900, 300).is_none());
    // Far outside every window: the nearest close overall.
    let q = s.round_quote_at("BTC", "5m", at_0112 + 86_400_000 * 1_000_000, 900, 30).unwrap();
    assert_eq!(q.condition_id, "c1");
    assert!(s.latest_round_quote("BTC", "5m").is_some());
}

#[test]
fn round_quote_needs_both_books() {
    let mut s: ClobUiState<f64> = ClobUiState::new();
    meta(&mut s, "u1", "c1", "5m", "2026-02-28T01:15:00Z", "UP");
    meta(&mut s, "d1", "c1", "5m", "2026-02-28T01:15:00Z", "DOWN");
    s.update_from_row(&row("u1", "c1", 0.5, 0.52, 1, 1));
    assert!(s.round_quote_at("BTC", "5m", 1772241000000 * 1_000_000, 900, 30).is_none());
}
