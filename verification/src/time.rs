//! Instants since the Unix epoch (UTC), read through chrono: in nanoseconds
//! where whole seconds between two instants are counted, in milliseconds where
//! they are only stored or shown.

use vstd::prelude::*;

verus! {

/// Seconds either side of the epoch within which every chrono `DateTime` lies
/// (its range runs from the year 262144 BCE to the year 262142).
pub const DATETIME_SECS_BOUND: i64 = 9_000_000_000_000;

/// Bound on the instants chrono represents, in nanoseconds either side of the epoch.
pub const INSTANT_NS_BOUND: i128 = 10_000_000_000_000_000_000_000;

/// An instant as chrono splits it: whole seconds since the epoch
/// (`timestamp`) and the nanoseconds past that second (`timestamp_subsec_nanos`,
/// which reach up to 1,999,999,999 only inside a leap second).
pub open spec fn parts_fit(p: (i64, u32)) -> bool {
    -DATETIME_SECS_BOUND <= p.0 <= DATETIME_SECS_BOUND && p.1 < 2_000_000_000
}

/// The instant `p` in nanoseconds since the epoch.
pub open spec fn parts_ns(p: (i64, u32)) -> int {
    p.0 * 1_000_000_000 + p.1
}

/// The instant that chrono's RFC 3339 parser reads from `s`, as seconds and
/// nanoseconds, or `None` when it rejects `s`.
pub uninterp spec fn rfc3339_instant(s: Seq<char>) -> Option<(i64, u32)>;

/// The instant that chrono's `DateTime::parse_from_str` reads from `s` with the
/// strftime format `fmt` (which carries a UTC offset), as seconds and nanoseconds.
pub uninterp spec fn offset_format_instant(s: Seq<char>, fmt: Seq<char>) -> Option<(i64, u32)>;

/// The instant that chrono's `NaiveDateTime::parse_from_str` reads from `s` with
/// the strftime format `fmt`, taken as UTC, as seconds and nanoseconds.
pub uninterp spec fn naive_format_instant(s: Seq<char>, fmt: Seq<char>) -> Option<(i64, u32)>;

/// Calls `chrono::DateTime::parse_from_rfc3339` and returns the parsed instant
/// (whatever its offset) as `timestamp` and `timestamp_subsec_nanos`. The
/// result is named, fixed by `s` alone; like every chrono instant it lies
/// within chrono's range.
#[verifier::external_body]
fn parse_rfc3339(s: &str) -> (r: Option<(i64, u32)>)
    ensures
        r == rfc3339_instant(s@),
        r matches Some(p) ==> parts_fit(p),
{
    chrono::DateTime::parse_from_rfc3339(s).ok().map(|dt| (dt.timestamp(), dt.timestamp_subsec_nanos()))
}

/// Calls `chrono::DateTime::parse_from_str(s, fmt)` and returns the parsed
/// instant as `timestamp` and `timestamp_subsec_nanos`; the result is named,
/// fixed by `s` and `fmt`, and lies within chrono's range.
#[verifier::external_body]
fn parse_offset_format(s: &str, fmt: &str) -> (r: Option<(i64, u32)>)
    ensures
        r == offset_format_instant(s@, fmt@),
        r matches Some(p) ==> parts_fit(p),
{
    chrono::DateTime::parse_from_str(s, fmt).ok().map(|dt| (dt.timestamp(), dt.timestamp_subsec_nanos()))
}

/// Calls `chrono::NaiveDateTime::parse_from_str(s, fmt)`, reads the wall-clock
/// time as UTC (`DateTime::from_naive_utc_and_offset(_, Utc)`) and returns it
/// as `timestamp` and `timestamp_subsec_nanos`; the result is named, fixed by
/// `s` and `fmt`, and lies within chrono's range.
#[verifier::external_body]
fn parse_naive_format(s: &str, fmt: &str) -> (r: Option<(i64, u32)>)
    ensures
        r == naive_format_instant(s@, fmt@),
        r matches Some(p) ==> parts_fit(p),
{
    chrono::NaiveDateTime::parse_from_str(s, fmt).ok().map(|ndt| {
        let dt = chrono::DateTime::<chrono::Utc>::from_naive_utc_and_offset(ndt, chrono::Utc);
        (dt.timestamp(), dt.timestamp_subsec_nanos())
    })
}

/// Calls `chrono::Utc::now()` and returns it as `timestamp` and
/// `timestamp_subsec_nanos`. chrono's `now` panics when the system clock lies
/// before the epoch, takes the nanoseconds below one second from the system
/// clock, and unwraps `DateTime::from_timestamp`, which refuses instants after
/// `DateTime::<Utc>::MAX_UTC` (the end of year 262142). Which instant it is,
/// is not stated.
#[verifier::external_body]
fn now_parts() -> (r: (i64, u32))
    ensures
        0 <= r.0 <= 8_210_266_876_799,
        r.1 < 1_000_000_000,
{
    let t = chrono::Utc::now();
    (t.timestamp(), t.timestamp_subsec_nanos())
}

/// The current time in nanoseconds since the epoch; not before the epoch and
/// not after chrono's last instant.
pub(crate) fn now_nanos() -> (r: i128)
    ensures
        0 <= r < 8_210_266_876_800 * 1_000_000_000,
{
    let (s, n) = now_parts();
    s as i128 * 1_000_000_000 + n as i128
}

/// The current time in whole seconds since the epoch (`Utc::now().timestamp()`).
pub(crate) fn now_secs() -> (r: i64)
    ensures
        0 <= r <= 8_210_266_876_799,
{
    now_parts().0
}

/// The current time in milliseconds since the epoch (`timestamp_millis`).
pub(crate) fn now_millis() -> (r: i64)
    ensures
        0 <= r <= 8_210_266_876_799_999,
{
    let (s, n) = now_parts();
    s * 1000 + (n / 1_000_000) as i64
}

pub open spec fn offset_close_format() -> Seq<char> {
    "%Y-%m-%d %H:%M:%S%z"@
}

pub open spec fn naive_close_format() -> Seq<char> {
    "%Y-%m-%d %H:%M:%S"@
}

/// Market close times come as RFC 3339, as `YYYY-MM-DD HH:MM:SS±hhmm`, or as a
/// bare `YYYY-MM-DD HH:MM:SS` in UTC; the first reading that succeeds wins.
pub open spec fn close_time_parts(s: Seq<char>) -> Option<(i64, u32)> {
    match rfc3339_instant(s) {
        Some(t) => Some(t),
        None => match offset_format_instant(s, offset_close_format()) {
            Some(t) => Some(t),
            None => naive_format_instant(s, naive_close_format()),
        },
    }
}

/// The close time read from `s`, in nanoseconds since the epoch.
pub open spec fn spec_parse_close_time(s: Seq<char>) -> Option<i128> {
    match close_time_parts(s) {
        Some(p) => Some(parts_ns(p) as i128),
        None => None,
    }
}

/// Reads a market close time; see [`spec_parse_close_time`].
pub fn parse_close_time_to_utc(s: &str) -> (r: Option<i128>)
    ensures
        r == spec_parse_close_time(s@),
        r matches Some(t) ==> -INSTANT_NS_BOUND <= t <= INSTANT_NS_BOUND,
{
    let parts = if let Some(t) = parse_rfc3339(s) {
        Some(t)
    } else if let Some(t) = parse_offset_format(s, "%Y-%m-%d %H:%M:%S%z") {
        Some(t)
    } else {
        parse_naive_format(s, "%Y-%m-%d %H:%M:%S")
    };
    match parts {
        Some((secs, nanos)) => Some(secs as i128 * 1_000_000_000 + nanos as i128),
        None => None,
    }
}

/// Whole seconds from `earlier` to `later` (nanoseconds), rounded toward zero,
/// as chrono's `signed_duration_since(..).num_seconds()` counts them.
pub open spec fn secs_between(later: i128, earlier: i128) -> int {
    div_toward_zero(later - earlier, 1_000_000_000)
}

/// See [`secs_between`].
pub fn seconds_between(later: i128, earlier: i128) -> (r: i64)
    requires
        -INSTANT_NS_BOUND <= later <= INSTANT_NS_BOUND,
        -INSTANT_NS_BOUND <= earlier <= INSTANT_NS_BOUND,
    ensures
        r == secs_between(later, earlier),
{
    let d: i128 = later - earlier;
    if d >= 0 {
        let q: i128 = d / 1_000_000_000;
        q as i64
    } else {
        let q: i128 = (-d) / 1_000_000_000;
        (-q) as i64
    }
}

/// `a / b` rounded toward zero, for `b > 0`.
pub open spec fn div_toward_zero(a: int, b: int) -> int {
    if a >= 0 {
        a / b
    } else {
        -((-a) / b)
    }
}

// ── Freshness and latency ───────────────────────────────────────────────────

/// A feed price stamped at `then` is still used at `now` (nanoseconds since
/// the epoch): at most 30 whole seconds (`num_seconds`, rounded toward zero)
/// have passed.
pub open spec fn spec_price_fresh(then: i128, now: i128) -> bool {
    div_toward_zero(now - then, 1_000_000_000) <= 30
}

/// See [`spec_price_fresh`].
pub fn price_is_fresh(then: i128, now: i128) -> (b: bool)
    requires
        -INSTANT_NS_BOUND <= then <= INSTANT_NS_BOUND,
        -INSTANT_NS_BOUND <= now <= INSTANT_NS_BOUND,
    ensures
        b == spec_price_fresh(then, now),
{
    let d: i128 = now - then;
    if d < 0 {
        true
    } else {
        d / 1_000_000_000 <= 30
    }
}

/// Which of the prices stamped at `stamps` are still used at `now`.
pub fn fresh_prices(stamps: &Vec<i128>, now: i128) -> (r: Vec<bool>)
    requires
        forall|i: int| 0 <= i < stamps@.len() ==> -INSTANT_NS_BOUND <= #[trigger] stamps@[i] <= INSTANT_NS_BOUND,
        -INSTANT_NS_BOUND <= now <= INSTANT_NS_BOUND,
    ensures
        r@.len() == stamps@.len(),
        forall|i: int| 0 <= i < stamps@.len() ==> #[trigger] r@[i] == spec_price_fresh(stamps@[i], now),
{
    let mut r: Vec<bool> = Vec::new();
    let mut i: usize = 0;
    while i < stamps.len()
        invariant
            i <= stamps@.len(),
            r@.len() == i,
            forall|k: int| 0 <= k < stamps@.len() ==> -INSTANT_NS_BOUND <= #[trigger] stamps@[k] <= INSTANT_NS_BOUND,
            -INSTANT_NS_BOUND <= now <= INSTANT_NS_BOUND,
            forall|k: int| 0 <= k < i ==> #[trigger] r@[k] == spec_price_fresh(stamps@[k], now),
        decreases stamps@.len() - i,
    {
        let f = price_is_fresh(stamps[i], now);
        r.push(f);
        i = i + 1;
    }
    r
}

/// Milliseconds from the last update `then` of a feed to `now` (nanoseconds
/// since the epoch), rounded toward zero (`num_milliseconds`), and never below 0.
pub open spec fn spec_latency_ms(then: i128, now: i128) -> int {
    let m = div_toward_zero(now - then, 1_000_000);
    if m < 0 {
        0
    } else {
        m
    }
}

/// See [`spec_latency_ms`].
pub fn latency_ms(then: i128, now: i128) -> (r: i64)
    requires
        -INSTANT_NS_BOUND <= then <= INSTANT_NS_BOUND,
        -INSTANT_NS_BOUND <= now <= INSTANT_NS_BOUND,
    ensures
        r == spec_latency_ms(then, now),
{
    let d: i128 = now - then;
    if d < 0 {
        0
    } else {
        let m: i128 = d / 1_000_000;
        m as i64
    }
}

} // verus!
