use oracle_proxy::clob_state::{ClobUiState, DepthLevel, SnapshotRow};
use oracle_proxy::dashboard::build_clob_market_rows;
use oracle_proxy::discovery::{
    dedupe_token_records, extract_tokens, find_token_record, listing_records, token_ids, JsonField,
    MarketListing, TokenRec,
};
use oracle_proxy::display::{format_close_time_compact, group_price_text, timeframe_rank_minutes};
use oracle_proxy::frames::{build_conditions, ClientSub};

fn book(token: &str, cond: &str, bid: f64) -> SnapshotRow<f64> {
    SnapshotRow {
        ts: 1,
        condition_id: cond.to_string(),
        token_id: token.to_string(),
        best_bid: Some(bid),
        best_ask: Some(bid + 0.02),
        mid_price: None,
        spread: Some(0.02),
        bid_depth_1: None,
        ask_depth_1: None,
        bid_depth_5: None,
        ask_depth_5: None,
        bid_depth_10: None,
        ask_depth_10: None,
        depth_imbalance_5: None,
        depth_imbalance_10: None,
        slippage_100: None,
        slippage_1000: None,
        total_bid_levels: 1,
        total_ask_levels: 0,
        book_timestamp: None,
        source: "live_rust".to_string(),
        last_trade_price: None,
        last_trade_size: None,
        bid_levels: vec![DepthLevel { price: bid, size: 5.0 }],
        ask_levels: Vec::new(),
    }
}

fn meta(s: &mut ClobUiState<f64>, token: &str, cond: &str, asset: &str, tf: &str, close: &str, side: &str) {
    s.set_market_meta(
        token.to_string(),
        cond.to_string(),
        asset.to_string(),
        tf.to_string(),
        close.to_string(),
        side.to_string(),
        None,
    );
}

#[test]
fn close_time_compaction() {
    assert_eq!(format_close_time_compact("2026-02-28 01:15:00+00"), "2026-02-28 01:15");
    assert_eq!(format_close_time_compact("?"), "?");
    assert_eq!(format_close_time_compact("2026-02-28 01:15"), "2026-02-28 01:15");
}

#[test]
fn timeframe_ranks() {
    assert_eq!(timeframe_rank_minutes("5m"), 5);
    assert_eq!(timeframe_rank_minutes(" 15M "), 15);
    assert_eq!(timeframe_rank_minutes("1h"), 60);
    assert_eq!(timeframe_rank_minutes("2d"), 2_880);
    assert_eq!(timeframe_rank_minutes("weekly"), i64::MAX / 2);
    assert_eq!(timeframe_rank_minutes("m"), i64::MAX / 2);
    assert_eq!(timeframe_rank_minutes("-5m"), -5);
}

#[test]
fn price_text_grouping() {
    assert_eq!(group_price_text("66524.70"), "66,524.70");
    assert_eq!(group_price_text("1234567.00"), "1,234,567.00");
    assert_eq!(group_price_text("999.99"), "999.99");
    assert_eq!(group_price_text("0.50"), "0.50");
    assert_eq!(group_price_text("1234"), "1,234.00");
    assert_eq!(group_price_text("-123.45"), "-,123.45");
    assert_eq!(group_price_text(&format!("{:.2}", 66524.7f64)), "66,524.70");
}

#[test]
fn subscriptions_normalise_and_dedupe() {
    let mut sub = ClientSub::default();
    assert_eq!(sub.assets, vec!["BTC"]);
    assert_eq!(sub.timeframes, vec!["5m", "15m"]);
    assert!(sub.covers("btc", "5M"));
    assert!(!sub.covers("eth", "5m"));
    sub.apply_subscribe(&vec!["eth".to_string(), "Eth".to_string(), "btc".to_string()], &Vec::new());
    assert_eq!(sub.assets, vec!["ETH", "BTC"]);
    assert_eq!(sub.timeframes, vec!["5m", "15m"]);
    sub.apply_subscribe(&Vec::new(), &vec!["1H".to_string()]);
    assert_eq!(sub.timeframes, vec!["1h"]);
    assert!(sub.covers("eth", "1h"));
    assert!(!sub.covers("eth", "5m"));
}

#[test]
fn conditions_pair_up_and_down_books() {
    let mut s: ClobUiState<f64> = ClobUiState::new();
    meta(&mut s, "u1", "c1", "btc", "5m", "T1", "up");
    meta(&mut s, "d1", "c1", "btc", "5m", "T1", "DOWN");
    meta(&mut s, "u2", "c2", "btc", "15m", "T2", "UP");
    meta(&mut s, "d2", "c2", "btc", "15m", "T2", "DOWN");
    meta(&mut s, "u3", "c3", "eth", "5m", "T3", "UP");
    meta(&mut s, "d3", "c3", "eth", "5m", "T3", "DOWN");
    meta(&mut s, "u4", "c4", "btc", "5m", "T4", "UP");
    for (t, c, b) in [("u1", "c1", 0.4), ("d1", "c1", 0.6), ("u2", "c2", 0.3), ("u3", "c3", 0.5), ("d3", "c3", 0.5), ("u4", "c4", 0.5)] {
        s.update_from_row(&book(t, c, b));
    }
    let sub = ClientSub::default();
    let frames = build_conditions(&s, &sub);
    // c2 lacks the DOWN book, c3 is another asset, c4 lacks a DOWN token.
    assert_eq!(frames.len(), 1);
    let f = &frames[0];
    assert_eq!(f.condition_id, "c1");
    assert_eq!((f.token_yes_id.as_str(), f.token_no_id.as_str()), ("u1", "d1"));
    assert_eq!(f.timeframe, "5m");
    assert_eq!(f.close_time, "T1");
    assert_eq!(f.yes.best_bid, Some(0.4));
    assert_eq!(f.no.best_bid, Some(0.6));
    assert_eq!(f.no.bids, vec![(0.6, 5.0)]);

    s.update_from_row(&book("d2", "c2", 0.7));
    let frames = build_conditions(&s, &sub);
    assert_eq!(frames.len(), 2);
    assert_eq!(frames[1].condition_id, "c2");
}

fn listing(cid: JsonField, ids: JsonField) -> MarketListing {
    MarketListing {
        condition_id: cid,
        condition_id_snake: JsonField::Text("snake".to_string()),
        end_date: JsonField::Absent,
        end_date_snake: JsonField::Text("2026-02-28T01:15:00Z".to_string()),
        clob_token_ids: ids,
    }
}

#[test]
fn listings_yield_up_and_down_records() {
    let l = listing(JsonField::Text("c1".to_string()), JsonField::Text("[\"y\", \"n\", \"z\"]".to_string()));
    let recs = listing_records(&l, "BTC", "5m");
    assert_eq!(recs.len(), 2);
    assert_eq!(
        (recs[0].condition_id.as_str(), recs[0].token_id.as_str(), recs[0].side.as_str()),
        ("c1", "y", "UP")
    );
    assert_eq!((recs[1].token_id.as_str(), recs[1].side.as_str()), ("n", "DOWN"));
    assert_eq!(recs[1].close_time, "2026-02-28T01:15:00Z");
    assert_eq!(recs[1].asset, "BTC");

    // The snake-case id is read only when `conditionId` is absent.
    let l = listing(JsonField::Absent, JsonField::List(vec![Some("a".to_string()), Some("b".to_string())]));
    assert_eq!(listing_records(&l, "BTC", "5m")[0].condition_id, "snake");
    let l = listing(JsonField::Other, JsonField::List(vec![Some("a".to_string()), Some("b".to_string())]));
    assert!(listing_records(&l, "BTC", "5m").is_empty());
    let l = listing(JsonField::Text(String::new()), JsonField::List(vec![Some("a".to_string()), Some("b".to_string())]));
    assert!(listing_records(&l, "BTC", "5m").is_empty());
    let mut l = listing(JsonField::Text("c".to_string()), JsonField::List(vec![Some("a".to_string()), Some("b".to_string())]));
    l.end_date_snake = JsonField::Absent;
    assert_eq!(listing_records(&l, "BTC", "5m")[0].close_time, "?");
}

#[test]
fn token_id_fields() {
    assert_eq!(extract_tokens(&JsonField::Text("[\"a\",\"b\"]".to_string())), Some(("a".to_string(), "b".to_string())));
    assert_eq!(extract_tokens(&JsonField::Text("[\"a\"]".to_string())), None);
    assert_eq!(extract_tokens(&JsonField::Text("[1,\"b\"]".to_string())), None);
    assert_eq!(extract_tokens(&JsonField::Text("not json".to_string())), None);
    assert_eq!(extract_tokens(&JsonField::Text("{\"a\":1}".to_string())), None);
    assert_eq!(extract_tokens(&JsonField::List(vec![None, Some("b".to_string())])), None);
    assert_eq!(extract_tokens(&JsonField::Absent), None);
    assert_eq!(extract_tokens(&JsonField::Other), None);
}

fn rec(cid: &str, token: &str, side: &str) -> TokenRec {
    TokenRec {
        condition_id: cid.to_string(),
        token_id: token.to_string(),
        asset: "BTC".to_string(),
        timeframe: "5m".to_string(),
        close_time: "T".to_string(),
        side: side.to_string(),
    }
}

#[test]
fn token_records_keep_first_per_token() {
    let recs = vec![rec("c1", "a", "UP"), rec("c1", "b", "DOWN"), rec("c9", "a", "UP"), rec("c2", "c", "UP")];
    let d = dedupe_token_records(&recs);
    let ids: Vec<(&str, &str)> = d.iter().map(|r| (r.condition_id.as_str(), r.token_id.as_str())).collect();
    assert_eq!(ids, vec![("c1", "a"), ("c1", "b"), ("c2", "c")]);
    assert_eq!(find_token_record(&recs, "a"), Some(0));
    assert_eq!(find_token_record(&recs, "c"), Some(3));
    assert_eq!(find_token_record(&recs, "zz"), None);
    assert_eq!(token_ids(&d), vec!["a", "b", "c"]);
}

#[test]
fn dashboard_rows_are_grouped_and_ordered() {
    let mut s: ClobUiState<f64> = ClobUiState::new();
    meta(&mut s, "u1", "c-b", "BTC", "15m", "2026-02-28 01:15:00+00", "UP");
    meta(&mut s, "d1", "c-b", "BTC", "15m", "2026-02-28 01:15:00+00", "DOWN");
    meta(&mut s, "u2", "c-a", "BTC", "5m", "2026-02-28 01:15:00+00", "UP");
    meta(&mut s, "u3", "c-z", "BTC", "5m", "2026-02-28 01:10:00+00", "UP");
    meta(&mut s, "h1", "c-h", "BTC", "1h", "2026-02-28 01:00:00+00", "UP");
    for (t, c) in [("u1", "c-b"), ("d1", "c-b"), ("u2", "c-a"), ("u3", "c-z"), ("h1", "c-h"), ("x9", "c-x")] {
        s.update_from_row(&book(t, c, 0.5));
    }
    let rows = build_clob_market_rows(&s);
    let keys: Vec<(&str, &str, &str)> =
        rows.iter().map(|r| (r.close_time.as_str(), r.timeframe.as_str(), r.condition_id.as_str())).collect();
    assert_eq!(
        keys,
        vec![
            ("2026-02-28 01:10", "5m", "c-z"),
            ("2026-02-28 01:15", "5m", "c-a"),
            ("2026-02-28 01:15", "15m", "c-b"),
        ]
    );
    let b = &rows[2];
    assert_eq!(b.up.as_ref().unwrap().token_id, "u1");
    assert_eq!(b.down.as_ref().unwrap().token_id, "d1");
    assert!(rows[0].down.is_none());
    assert_eq!(rows[0].asset, "BTC");
}

#[test]
fn dashboard_row_order_breaks_ties_by_condition() {
    let mut s: ClobUiState<f64> = ClobUiState::new();
    meta(&mut s, "t1", "c2", "BTC", "5m", "X", "UP");
    meta(&mut s, "t2", "c10", "BTC", "5m", "X", "UP");
    meta(&mut s, "t3", "c1", "BTC", "5m", "X", "DOWN");
    for (t, c) in [("t1", "c2"), ("t2", "c10"), ("t3", "c1")] {
        s.update_from_row(&book(t, c, 0.5));
    }
    let rows = build_clob_market_rows(&s);
    let ids: Vec<&str> = rows.iter().map(|r| r.condition_id.as_str()).collect();
    assert_eq!(ids, vec!["c1", "c10", "c2"]);
}
