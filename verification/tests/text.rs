use oracle_proxy::text::{append_decimal, eq_ignore_ascii_case, parse_i64, parse_u64, str_eq};
use oracle_proxy::time::{parse_close_time_to_utc, seconds_between};

#[test]
fn ascii_case_comparison() {
    assert!(eq_ignore_ascii_case("Up", "UP"));
    assert!(eq_ignore_ascii_case("dOwN", "down"));
    assert!(!eq_ignore_ascii_case("UP", "UPS"));
    assert!(!eq_ignore_ascii_case("é", "É"));
    assert!(str_eq("abc", "abc"));
    assert!(!str_eq("abc", "abd"));
}

#[test]
fn integer_parsing_matches_std() {
    assert_eq!(parse_u64("123"), Some(123));
    assert_eq!(parse_u64("+5"), Some(5));
    assert_eq!(parse_u64("-1"), None);
    assert_eq!(parse_u64(""), None);
    assert_eq!(parse_u64("+"), None);
    assert_eq!(parse_u64("18446744073709551615"), Some(u64::MAX));
    assert_eq!(parse_u64("18446744073709551616"), None);
    assert_eq!(parse_u64("12a"), None);
    assert_eq!(parse_i64("-9223372036854775808"), Some(i64::MIN));
    assert_eq!(parse_i64("9223372036854775807"), Some(i64::MAX));
    assert_eq!(parse_i64("9223372036854775808"), None);
    assert_eq!(parse_i64("-42"), Some(-42));
    for s in ["0", "+0", "-0", "007", " 1", "1 "] {
        assert_eq!(parse_i64(s), s.parse::<i64>().ok(), "{s}");
    }
}

#[test]
fn decimal_text() {
    let mut s = String::from("n=");
    append_decimal(&mut s, -1205);
    assert_eq!(s, "n=-1205");
    let mut t = String::new();
    append_decimal(&mut t, i64::MIN);
    assert_eq!(t, i64::MIN.to_string());
    let mut z = String::new();
    append_decimal(&mut z, 0);
    assert_eq!(z, "0");
}

#[test]
fn close_times_in_three_shapes() {
    assert_eq!(parse_close_time_to_utc("2026-02-28T01:15:00Z"), Some(1772241300000 * 1_000_000));
    assert_eq!(parse_close_time_to_utc("2026-02-28 01:15:00+0000"), Some(1772241300000 * 1_000_000));
    assert_eq!(parse_close_time_to_utc("2026-02-28 03:15:00+0200"), Some(1772241300000 * 1_000_000));
    assert_eq!(parse_close_time_to_utc("2026-02-28 01:15:00"), Some(1772241300000 * 1_000_000));
    assert_eq!(parse_close_time_to_utc("soon"), None);
}

#[test]
fn whole_seconds_round_toward_zero() {
    let ms: i128 = 1_000_000;
    assert_eq!(seconds_between(5_500 * ms, 1_000 * ms), 4);
    assert_eq!(seconds_between(1_000 * ms, 2_500 * ms), -1);
    assert_eq!(seconds_between(1_999_999_999, 0), 1);
    assert_eq!(parse_close_time_to_utc("2026-02-28T01:15:00.123456789Z"), Some(1772241300123456789));
}
