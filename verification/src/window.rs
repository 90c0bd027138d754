//! Round windows of the up/down markets: timeframe lengths, market slugs of
//! the windows around now, and whether a market is inside its live window.

use vstd::prelude::*;

use crate::text::{append_decimal, spec_decimal, str_eq, to_lowercase, unicode_lowercase};
use crate::time::{
    now_secs, parse_close_time_to_utc, seconds_between, secs_between, spec_parse_close_time, INSTANT_NS_BOUND,
};

verus! {

/// Length in seconds of the supported round timeframes.
pub open spec fn spec_timeframe_secs(tf: Seq<char>) -> Option<i64> {
    if tf == "5m"@ {
        Some(300)
    } else if tf == "15m"@ {
        Some(900)
    } else {
        None
    }
}

/// `5m` → 300, `15m` → 900, anything else → `None`.
pub fn timeframe_secs(tf: &str) -> (r: Option<i64>)
    ensures
        r == spec_timeframe_secs(tf@),
{
    if str_eq(tf, "5m") {
        Some(300)
    } else if str_eq(tf, "15m") {
        Some(900)
    } else {
        None
    }
}

pub open spec fn spec_slug_prefix(asset: Seq<char>) -> Seq<char> {
    unicode_lowercase(asset) + "-updown"@
}

/// `<asset in lower case>-updown`.
pub fn slug_prefix(asset: &str) -> (r: String)
    ensures
        r@ == spec_slug_prefix(asset@),
{
    let mut s = to_lowercase(asset);
    s.append("-updown");
    s
}

/// Remainder of `a / b` rounded toward zero (Rust's `%`), for `b > 0`.
pub open spec fn trunc_rem(a: int, b: int) -> int {
    if a >= 0 {
        a % b
    } else {
        -((-a) % b)
    }
}

/// Start of the window of length `tf` that holds `now` (Rust's `now - now % tf`).
pub open spec fn window_start(now: i64, tf: i64) -> int {
    now - trunc_rem(now as int, tf as int)
}

/// Number of windows from `lookbehind` before to `lookahead` after the current one.
pub open spec fn slug_count(lookahead: i64, lookbehind: i64) -> int {
    let c = lookahead + lookbehind + 1;
    if c < 0 {
        0
    } else {
        c
    }
}

/// Every window start from `-lookbehind` to `lookahead` windows away, and every
/// offset in between, fits in an `i64`.
pub open spec fn slug_offsets_fit(now: i64, tf: i64, lookahead: i64, lookbehind: i64) -> bool {
    &&& lookbehind > i64::MIN
    &&& forall|i: int|
        -lookbehind <= i <= lookahead ==> i64::MIN <= #[trigger] (i * tf) <= i64::MAX
            && i64::MIN <= window_start(now, tf) + i * tf <= i64::MAX
}

/// `<prefix>-<timeframe>-<window start>`.
pub open spec fn slug_text(prefix: Seq<char>, timeframe: Seq<char>, start: int) -> Seq<char> {
    prefix + "-"@ + timeframe + "-"@ + spec_decimal(start)
}

/// Slugs of the windows around `now` (seconds since the epoch), oldest first.
pub open spec fn spec_window_slugs(
    asset: Seq<char>,
    timeframe: Seq<char>,
    now: i64,
    lookahead: i64,
    lookbehind: i64,
) -> Seq<Seq<char>> {
    match spec_timeframe_secs(timeframe) {
        None => Seq::empty(),
        Some(tf) => Seq::new(
            slug_count(lookahead, lookbehind) as nat,
            |k: int|
                slug_text(
                    spec_slug_prefix(asset),
                    timeframe,
                    window_start(now, tf) + (k - lookbehind) * tf,
                ),
        ),
    }
}

/// The market slugs of the `lookbehind` windows before, the current and the
/// `lookahead` windows after the one holding `now_secs`.
pub fn window_slugs_at(
    asset: &str,
    timeframe: &str,
    now_secs: i64,
    lookahead: i64,
    lookbehind: i64,
) -> (r: Vec<String>)
    requires
        match spec_timeframe_secs(timeframe@) {
            Some(tf) => slug_offsets_fit(now_secs, tf, lookahead, lookbehind),
            None => true,
        },
    ensures
        r@.map_values(|s: String| s@) == spec_window_slugs(
            asset@,
            timeframe@,
            now_secs,
            lookahead,
            lookbehind,
        ),
{
    let tf = match timeframe_secs(timeframe) {
        Some(t) => t,
        None => {
            let out: Vec<String> = Vec::new();
            proof {
                assert(out@.map_values(|s: String| s@) =~= Seq::<Seq<char>>::empty());
            }
            return out;
        },
    };
    let rem: i64 = if now_secs >= 0 {
        now_secs % tf
    } else {
        let m: i128 = (-(now_secs as i128)) % (tf as i128);
        (-m) as i64
    };
    let start: i64 = now_secs - rem;
    assert(start == window_start(now_secs, tf));
    let prefix = slug_prefix(asset);
    let ghost want = spec_window_slugs(asset@, timeframe@, now_secs, lookahead, lookbehind);
    let mut out: Vec<String> = Vec::new();
    let mut i: i128 = -(lookbehind as i128);
    while i <= lookahead as i128
        invariant
            tf == spec_timeframe_secs(timeframe@).unwrap(),
            spec_timeframe_secs(timeframe@) is Some,
            slug_offsets_fit(now_secs, tf, lookahead, lookbehind),
            start == window_start(now_secs, tf),
            prefix@ == spec_slug_prefix(asset@),
            want == spec_window_slugs(asset@, timeframe@, now_secs, lookahead, lookbehind),
            -lookbehind <= i <= lookahead + 1 || (i == -lookbehind && -lookbehind > lookahead),
            i <= lookahead + 1 ==> out@.len() == i + lookbehind,
            -lookbehind > lookahead ==> out@.len() == 0,
            forall|k: int| 0 <= k < out@.len() ==> #[trigger] out@[k]@ == want[k],
        decreases lookahead + 1 - i,
    {
        let ii: i64 = i as i64;
        assert(i64::MIN <= ii * tf <= i64::MAX);
        let value: i64 = start + ii * tf;
        let mut s = String::from_str(prefix.as_str());
        s.append("-");
        s.append(timeframe);
        s.append("-");
        append_decimal(&mut s, value);
        proof {
            let k = out@.len() as int;
            assert(k - lookbehind == ii);
            assert(s@ =~= want[k]);
        }
        out.push(s);
        i = i + 1;
    }
    proof {
        assert(out@.len() == slug_count(lookahead, lookbehind));
        assert(out@.map_values(|s: String| s@) =~= want);
    }
    out
}

/// The slugs of [`window_slugs_at`], or `None` when some window start from
/// `lookbehind` before to `lookahead` after would not fit in an `i64`.
pub fn window_slugs_checked(
    asset: &str,
    timeframe: &str,
    now_secs: i64,
    lookahead: i64,
    lookbehind: i64,
) -> (r: Option<Vec<String>>)
    ensures
        r is None <==> (spec_timeframe_secs(timeframe@) matches Some(tf) && !slug_offsets_fit(
            now_secs,
            tf,
            lookahead,
            lookbehind,
        )),
        r matches Some(v) ==> v@.map_values(|s: String| s@) == spec_window_slugs(
            asset@,
            timeframe@,
            now_secs,
            lookahead,
            lookbehind,
        ),
{
    match timeframe_secs(timeframe) {
        None => Some(window_slugs_at(asset, timeframe, now_secs, lookahead, lookbehind)),
        Some(tf) => {
            if offsets_fit(now_secs, tf, lookahead, lookbehind) {
                Some(window_slugs_at(asset, timeframe, now_secs, lookahead, lookbehind))
            } else {
                None
            }
        },
    }
}

/// Latest second that the clock can give (the last second of chrono's `DateTime::<Utc>::MAX_UTC`).
pub const MAX_CLOCK_SECS: i64 = 8_210_266_876_799;

/// With the clock anywhere from the epoch to [`MAX_CLOCK_SECS`], window starts
/// up to a billion windows away fit in an `i64`.
pub proof fn lemma_near_offsets_fit(now: i64, tf: i64, lookahead: i64, lookbehind: i64)
    requires
        0 <= now <= MAX_CLOCK_SECS,
        0 < tf <= 900,
        0 <= lookahead,
        0 <= lookbehind,
        lookahead + lookbehind <= 1_000_000_000,
    ensures
        slug_offsets_fit(now, tf, lookahead, lookbehind),
{
    assert(0 <= (now as int) % (tf as int) <= now) by (nonlinear_arith)
        requires
            0 <= now,
            0 < tf,
    ;
    assert(0 <= window_start(now, tf) <= now);
    assert forall|i: int|
        -lookbehind <= i <= lookahead implies i64::MIN <= #[trigger] (i * tf) <= i64::MAX
        && i64::MIN <= window_start(now, tf) + i * tf <= i64::MAX by {
        assert(-1_000_000_000 * 900 <= i * tf <= 1_000_000_000 * 900) by (nonlinear_arith)
            requires
                -1_000_000_000 <= i <= 1_000_000_000,
                0 < tf <= 900,
        ;
    }
}

/// Slugs of the windows around the current time (see [`window_slugs_checked`]).
/// The clock gives a second from the epoch to [`MAX_CLOCK_SECS`]; the result
/// is `None` only when, at that second, a window start would not fit in an
/// `i64`, which never happens for up to a billion windows either way.
pub fn compute_window_slugs(asset: &str, timeframe: &str, lookahead: i64, lookbehind: i64) -> (r:
    Option<Vec<String>>)
    ensures
        spec_timeframe_secs(timeframe@) is None ==> (r matches Some(v) && v@.len() == 0),
        r matches Some(v) ==> exists|now: i64|
            0 <= now <= MAX_CLOCK_SECS && v@.map_values(|s: String| s@) == spec_window_slugs(
                asset@,
                timeframe@,
                now,
                lookahead,
                lookbehind,
            ),
        r is None ==> (spec_timeframe_secs(timeframe@) matches Some(tf) && exists|now: i64|
            0 <= now <= MAX_CLOCK_SECS && !#[trigger] slug_offsets_fit(now, tf, lookahead, lookbehind)),
        (0 <= lookahead && 0 <= lookbehind && lookahead + lookbehind <= 1_000_000_000) ==> r is Some,
{
    let now: i64 = now_secs();
    let r = window_slugs_checked(asset, timeframe, now, lookahead, lookbehind);
    proof {
        if spec_timeframe_secs(timeframe@) is None {
            assert(r matches Some(v) && v@.map_values(|s: String| s@).len() == v@.len());
        }
        if 0 <= lookahead && 0 <= lookbehind && lookahead + lookbehind <= 1_000_000_000 {
            if let Some(tf) = spec_timeframe_secs(timeframe@) {
                lemma_near_offsets_fit(now, tf, lookahead, lookbehind);
            }
        }
    }
    r
}

/// Decides [`slug_offsets_fit`] for a positive `tf` of at most 900 seconds.
fn offsets_fit(now: i64, tf: i64, lookahead: i64, lookbehind: i64) -> (b: bool)
    requires
        tf > 0,
        tf <= 900,
    ensures
        b == slug_offsets_fit(now, tf, lookahead, lookbehind),
{
    if lookbehind == i64::MIN {
        return false;
    }
    let lo: i128 = -(lookbehind as i128);
    let hi: i128 = lookahead as i128;
    if lo > hi {
        return true;
    }
    let rem: i128 = if now >= 0 {
        (now % tf) as i128
    } else {
        -((-(now as i128)) % (tf as i128))
    };
    let ws: i128 = now as i128 - rem;
    assert(ws == window_start(now, tf));
    assert(i64::MIN * 900 <= lo * tf <= i64::MAX * 900) by (nonlinear_arith)
        requires
            i64::MIN <= lo <= i64::MAX,
            0 < tf <= 900,
    ;
    assert(i64::MIN * 900 <= hi * tf <= i64::MAX * 900) by (nonlinear_arith)
        requires
            i64::MIN <= hi <= i64::MAX,
            0 < tf <= 900,
    ;
    let ok = lo * (tf as i128) >= i64::MIN as i128 && hi * (tf as i128) <= i64::MAX as i128 && ws
        + lo * (tf as i128) >= i64::MIN as i128 && ws + hi * (tf as i128) <= i64::MAX as i128;
    proof {
        if ok {
            assert forall|i: int|
                -lookbehind <= i <= lookahead implies i64::MIN <= #[trigger] (i * tf) <= i64::MAX
                && i64::MIN <= window_start(now, tf) + i * tf <= i64::MAX by {
                assert(lo * tf <= i * tf <= hi * tf) by (nonlinear_arith)
                    requires
                        lo <= i <= hi,
                        tf > 0,
                ;
            }
        } else {
            if !(lo * (tf as i128) >= i64::MIN as i128 && ws + lo * (tf as i128) >= i64::MIN as i128) {
                assert(!(i64::MIN <= lo * tf && i64::MIN <= window_start(now, tf) + lo * tf));
            } else {
                assert(!(hi * tf <= i64::MAX && window_start(now, tf) + hi * tf <= i64::MAX));
            }
        }
    }
    ok
}

/// Persist a book update only while its market is the live round of its
/// timeframe: the close lies between now and one timeframe ahead.
pub open spec fn spec_should_persist(timeframe: Seq<char>, close_time: Seq<char>, now: i128) -> bool {
    match (spec_timeframe_secs(timeframe), spec_parse_close_time(close_time)) {
        (Some(tf), Some(close)) => {
            let s = secs_between(close, now);
            0 <= s && s <= tf
        },
        _ => false,
    }
}

/// See [`spec_should_persist`]; `now` in nanoseconds since the epoch.
pub fn should_persist_market_now(timeframe: &str, close_time: &str, now: i128) -> (b: bool)
    requires
        -INSTANT_NS_BOUND <= now <= INSTANT_NS_BOUND,
    ensures
        b == spec_should_persist(timeframe@, close_time@, now),
{
    let tf = match timeframe_secs(timeframe) {
        Some(t) => t,
        None => {
            return false;
        },
    };
    let close = match parse_close_time_to_utc(close_time) {
        Some(c) => c,
        None => {
            return false;
        },
    };
    let secs_to_close = seconds_between(close, now);
    secs_to_close >= 0 && secs_to_close <= tf
}

} // verus!
