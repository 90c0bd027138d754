use oracle_proxy::feeds::{book_items, trade_fields, Exchange};

fn owned(p: &str, q: Option<&str>) -> Option<(String, Option<String>)> {
    Some((p.to_string(), q.map(|s| s.to_string())))
}

#[test]
fn binance_agg_trades_give_price_and_quantity() {
    let msg = r#"{"e":"aggTrade","p":"67234.50","q":"0.012"}"#;
    assert_eq!(trade_fields(Exchange::Binance, msg), owned("67234.50", Some("0.012")));
    let no_qty = r#"{"e":"aggTrade","p":"1.5"}"#;
    assert_eq!(trade_fields(Exchange::Binance, no_qty), owned("1.5", None));
    assert_eq!(trade_fields(Exchange::Binance, r#"{"e":"trade","p":"1"}"#), None);
    assert_eq!(trade_fields(Exchange::Binance, r#"{"e":"aggTrade","p":1}"#), None);
    assert_eq!(trade_fields(Exchange::Binance, "not json"), None);
}

#[test]
fn coinbase_tickers_give_price_and_last_size() {
    let msg = r#"{"type":"ticker","price":"100.25","last_size":"3"}"#;
    assert_eq!(trade_fields(Exchange::Coinbase, msg), owned("100.25", Some("3")));
    assert_eq!(trade_fields(Exchange::Coinbase, r#"{"type":"subscriptions"}"#), None);
}

#[test]
fn kraken_ticker_frames_give_the_close_price() {
    let msg = r#"[42,{"c":["67000.1","0.5"]},"ticker","XBT/USD"]"#;
    assert_eq!(trade_fields(Exchange::Kraken, msg), owned("67000.1", None));
    let short = r#"[42,{"c":["67000.1"]},"ticker"]"#;
    assert_eq!(trade_fields(Exchange::Kraken, short), None);
    let other = r#"[42,{"c":["67000.1"]},"spread","XBT/USD"]"#;
    assert_eq!(trade_fields(Exchange::Kraken, other), None);
    assert_eq!(trade_fields(Exchange::Kraken, r#"{"event":"heartbeat"}"#), None);
}

#[test]
fn book_items_keep_updates_that_name_a_token() {
    let msg = r#"[
        {"asset_id":"tok1","bids":[{"price":"0.51","size":"10"}],"timestamp":1700,"last_trade_price":"0.5"},
        {"market":"tok2","asks":[{"price":"0.49","size":2}]},
        {"asset_id":"","bids":[]},
        {"asset_id":"tok3"},
        {"asset_id":5,"market":"tok4","bids":[]}
    ]"#;
    let items = book_items(msg).unwrap();
    assert_eq!(items.len(), 2);
    assert_eq!(items[0].asset_id, "tok1");
    assert_eq!(items[0].bids, Some(vec![(Some("0.51".to_string()), Some("10".to_string()))]));
    assert_eq!(items[0].asks, None);
    assert_eq!(items[0].timestamp, Some(1700));
    assert_eq!(items[0].last_trade_price, Some("0.5".to_string()));
    assert_eq!(items[1].asset_id, "tok2");
    assert_eq!(items[1].asks, Some(vec![(Some("0.49".to_string()), None)]));
    assert_eq!(items[1].timestamp, None);
}

#[test]
fn book_items_read_a_single_object_and_refuse_bad_json() {
    let one = book_items(r#"{"asset_id":"t","asks":[]}"#).unwrap();
    assert_eq!(one.len(), 1);
    assert_eq!(one[0].asset_id, "t");
    assert!(book_items("{").is_none());
    assert_eq!(book_items("3").unwrap().len(), 0);
}
