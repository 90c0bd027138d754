use oracle_proxy::chainlink::decode_latest_round_data;

#[test]
fn test_decode_sample_response() {
    let answer_raw: u64 = 6_723_450_000_000;
    let updated_at_raw: u64 = 1_726_137_296;

    let word = |v: u64| format!("{v:0>64x}");
    let hex = format!(
        "{}{}{}{}{}",
        word(0),
        word(answer_raw),
        word(0),
        word(updated_at_raw),
        word(0),
    );

    let (answer, ts) = decode_latest_round_data(&hex).unwrap();
    let price = answer as f64 / 1e8;
    assert!((price - 67234.50).abs() < 0.001, "price={price}");
    assert_eq!(answer, answer_raw);
    assert_eq!(ts, updated_at_raw);
}

#[test]
fn decode_accepts_prefix_and_rejects_short_input() {
    let word = |v: u64| format!("{v:0>64x}");
    let hex = format!("0x{}{}{}{}{}", word(1), word(42), word(2), word(99), word(3));
    assert_eq!(decode_latest_round_data(&hex), Some((42, 99)));
    assert_eq!(decode_latest_round_data("0x1234"), None);
    let bad = format!("{}{}{}{}{}", word(0), "zz".repeat(32), word(0), word(5), word(0));
    assert_eq!(decode_latest_round_data(&bad), None);
}

#[test]
fn decode_refuses_prices_out_of_range() {
    let word = |v: u64| format!("{v:0>64x}");
    let reply = |answer: u64| format!("{}{}{}{}{}", word(0), word(answer), word(0), word(7), word(0));
    assert_eq!(decode_latest_round_data(&"0".repeat(320)), None);
    assert_eq!(decode_latest_round_data(&reply(0)), None);
    assert_eq!(decode_latest_round_data(&reply(1)), Some((1, 7)));
    assert_eq!(decode_latest_round_data(&reply(1_000_000_000_000_000)), Some((1_000_000_000_000_000, 7)));
    assert_eq!(decode_latest_round_data(&reply(1_000_000_000_000_001)), None);
}
