//! Live CLOB bookkeeping shared by the ingest loop, the TUI and the oracle
//! frame builder: ingest counters, the market directory (token → market) and
//! the latest top-of-book statistics per token.
//!
//! Prices, sizes and depths are carried as an opaque number type `F`; nothing
//! here computes with them, it only files and looks them up. Update times are
//! milliseconds since the Unix epoch; the reference time of a round lookup and
//! the close times it compares with are nanoseconds, so that whole seconds
//! between them are counted as chrono counts them.

use vstd::prelude::*;

use crate::text::{eq_ignore_ascii_case, spec_eq_ignore_ascii_case, str_eq};
use crate::time::{
    now_millis, now_nanos, parse_close_time_to_utc, seconds_between, secs_between, spec_parse_close_time,
    INSTANT_NS_BOUND,
};

verus! {

/// Best quote of one outcome token.
pub struct SideQuote<F> {
    pub token_id: String,
    pub best_bid: Option<F>,
    pub best_ask: Option<F>,
    pub spread: Option<F>,
    pub updated_at: i64,
}

/// Both outcome tokens of the round market picked for a timeframe.
pub struct RoundQuote<F> {
    pub condition_id: String,
    pub close_time: Option<String>,
    pub up: SideQuote<F>,
    pub down: SideQuote<F>,
}

/// Latest order-book statistics of one token.
pub struct ClobTokenStats<F> {
    pub condition_id: String,
    pub token_id: String,
    /// Best effort: taken from the market directory when the token is known there.
    pub timeframe: String,
    pub best_bid: Option<F>,
    pub best_ask: Option<F>,
    pub spread: Option<F>,
    pub bid_depth_5: Option<F>,
    pub ask_depth_5: Option<F>,
    pub depth_imbalance_5: Option<F>,
    pub slippage_100: Option<F>,
    pub total_bid_levels: i32,
    pub total_ask_levels: i32,
    pub updated_at: i64,
    /// Top levels as (price, size).
    pub bid_ladder: Vec<(F, F)>,
    pub ask_ladder: Vec<(F, F)>,
}

/// Directory entry of one outcome token.
pub struct MarketMeta<F> {
    pub condition_id: String,
    pub asset: String,
    pub timeframe: String,
    pub close_time: String,
    pub token_id: String,
    /// `UP` or `DOWN`.
    pub side: String,
    pub pivot: Option<F>,
}

/// One price level of an order-book side.
pub struct DepthLevel<F> {
    pub price: F,
    pub size: F,
}

/// One sampled order-book snapshot of a token, with its derived metrics.
pub struct SnapshotRow<F> {
    pub ts: i64,
    pub condition_id: String,
    pub token_id: String,
    pub best_bid: Option<F>,
    pub best_ask: Option<F>,
    pub mid_price: Option<F>,
    pub spread: Option<F>,
    pub bid_depth_1: Option<F>,
    pub ask_depth_1: Option<F>,
    pub bid_depth_5: Option<F>,
    pub ask_depth_5: Option<F>,
    pub bid_depth_10: Option<F>,
    pub ask_depth_10: Option<F>,
    pub depth_imbalance_5: Option<F>,
    pub depth_imbalance_10: Option<F>,
    pub slippage_100: Option<F>,
    pub slippage_1000: Option<F>,
    pub total_bid_levels: i32,
    pub total_ask_levels: i32,
    pub book_timestamp: Option<i64>,
    pub source: String,
    pub last_trade_price: Option<F>,
    pub last_trade_size: Option<F>,
    /// Full book at `ts`.
    pub bid_levels: Vec<DepthLevel<F>>,
    pub ask_levels: Vec<DepthLevel<F>>,
}

/// Counters and tables behind the CLOB dashboard.
pub struct ClobUiState<F> {
    pub reconnects: u64,
    pub dropped_rows: u64,
    pub enqueued_rows: u64,
    pub malformed_rows: u64,
    pub skipped_non_current_rows: u64,
    pub sampler_ingested_rows: u64,
    pub sampler_emitted_rows: u64,
    pub writer_received_rows: u64,
    pub writer_buffered_rows: u64,
    pub writer_flush_errors: u64,
    pub writer_recovered_drops: u64,
    pub last_backoff_ms: u64,
    pub last_message_at: Option<i64>,
    /// Keyed by token id, each key at most once.
    pub tokens: Vec<ClobTokenStats<F>>,
    /// Keyed by token id, each key at most once.
    pub markets: Vec<MarketMeta<F>>,
}

pub open spec fn token_keys_unique<F>(ts: Seq<ClobTokenStats<F>>) -> bool {
    forall|i: int, j: int|
        0 <= i < ts.len() && 0 <= j < ts.len() && i != j ==> #[trigger] ts[i].token_id@
            != #[trigger] ts[j].token_id@
}

pub open spec fn market_keys_unique<F>(ms: Seq<MarketMeta<F>>) -> bool {
    forall|i: int, j: int|
        0 <= i < ms.len() && 0 <= j < ms.len() && i != j ==> #[trigger] ms[i].token_id@
            != #[trigger] ms[j].token_id@
}

/// The token table holds an entry for `id`.
pub open spec fn has_token<F>(ts: Seq<ClobTokenStats<F>>, id: Seq<char>) -> bool {
    exists|i: int| 0 <= i < ts.len() && #[trigger] ts[i].token_id@ == id
}

/// The entry for `id` (meaningful when [`has_token`] holds).
pub open spec fn token_entry<F>(ts: Seq<ClobTokenStats<F>>, id: Seq<char>) -> ClobTokenStats<F> {
    ts[choose|i: int| 0 <= i < ts.len() && #[trigger] ts[i].token_id@ == id]
}

// ── Round market selection (specification) ───────────────────────────────────

/// One market (condition) gathered from the directory while selecting a round.
pub struct CandidateView {
    pub condition_id: Seq<char>,
    pub close_ns: Option<i128>,
    pub close_raw: Seq<char>,
    pub up: Option<Seq<char>>,
    pub down: Option<Seq<char>>,
}

/// The close time, when read, lies within chrono's range.
pub open spec fn close_bounded(c: CandidateView) -> bool {
    c.close_ns matches Some(t) ==> -INSTANT_NS_BOUND <= t <= INSTANT_NS_BOUND
}

pub open spec fn is_up_side(side: Seq<char>) -> bool {
    spec_eq_ignore_ascii_case(side, "UP"@)
}

pub open spec fn is_down_side(side: Seq<char>) -> bool {
    spec_eq_ignore_ascii_case(side, "DOWN"@)
}

/// Directory entries of `asset` (any ASCII case) and exactly `timeframe` take part.
pub open spec fn market_selected<F>(m: MarketMeta<F>, asset: Seq<char>, timeframe: Seq<char>) -> bool {
    spec_eq_ignore_ascii_case(m.asset@, asset) && m.timeframe@ == timeframe
}

pub open spec fn has_candidate(cs: Seq<CandidateView>, cid: Seq<char>) -> bool {
    exists|i: int| 0 <= i < cs.len() && #[trigger] cs[i].condition_id == cid
}

pub open spec fn candidate_slot(cs: Seq<CandidateView>, cid: Seq<char>) -> int {
    choose|i: int| 0 <= i < cs.len() && #[trigger] cs[i].condition_id == cid
}

/// Files one directory entry under its condition: the first entry of a condition
/// fixes its close time, later entries set the UP or DOWN token (last one wins).
pub open spec fn add_market<F>(cs: Seq<CandidateView>, m: MarketMeta<F>) -> Seq<CandidateView> {
    let found = has_candidate(cs, m.condition_id@);
    let base = if found {
        cs[candidate_slot(cs, m.condition_id@)]
    } else {
        CandidateView {
            condition_id: m.condition_id@,
            close_ns: spec_parse_close_time(m.close_time@),
            close_raw: m.close_time@,
            up: None,
            down: None,
        }
    };
    let filed = if is_up_side(m.side@) {
        CandidateView { up: Some(m.token_id@), ..base }
    } else if is_down_side(m.side@) {
        CandidateView { down: Some(m.token_id@), ..base }
    } else {
        base
    };
    if found {
        cs.update(candidate_slot(cs, m.condition_id@), filed)
    } else {
        cs.push(filed)
    }
}

/// Conditions of the selected directory entries, in order of first appearance.
pub open spec fn build_candidates<F>(
    ms: Seq<MarketMeta<F>>,
    asset: Seq<char>,
    timeframe: Seq<char>,
) -> Seq<CandidateView>
    decreases ms.len(),
{
    if ms.len() == 0 {
        Seq::empty()
    } else {
        let prev = build_candidates(ms.drop_last(), asset, timeframe);
        if market_selected(ms.last(), asset, timeframe) {
            add_market(prev, ms.last())
        } else {
            prev
        }
    }
}

/// Seconds from `ref_ts` to the close, or `i64::MAX` when the close time is unreadable.
pub open spec fn candidate_delta(c: CandidateView, ref_ts: i128) -> int {
    match c.close_ns {
        Some(t) => secs_between(t, ref_ts),
        None => i64::MAX as int,
    }
}

pub open spec fn candidate_score(c: CandidateView, ref_ts: i128) -> int {
    let d = candidate_delta(c, ref_ts);
    if d < 0 {
        -d
    } else {
        d
    }
}

/// Both tokens known and, when a window `(lookahead, grace)` is given, the close
/// lies at most `grace` seconds in the past and at most `lookahead` in the future.
pub open spec fn candidate_eligible(c: CandidateView, ref_ts: i128, window: Option<(i64, i64)>) -> bool {
    &&& c.up is Some
    &&& c.down is Some
    &&& match window {
        Some((lookahead, grace)) => {
            let d = candidate_delta(c, ref_ts);
            -grace <= d && d <= lookahead
        },
        None => true,
    }
}

/// `i` is the first eligible candidate among the first `n` with the closest close.
pub open spec fn is_first_best(
    cs: Seq<CandidateView>,
    n: int,
    i: int,
    ref_ts: i128,
    window: Option<(i64, i64)>,
) -> bool {
    &&& 0 <= i < n <= cs.len()
    &&& candidate_eligible(cs[i], ref_ts, window)
    &&& forall|j: int|
        0 <= j < n && candidate_eligible(#[trigger] cs[j], ref_ts, window) ==> candidate_score(
            cs[i],
            ref_ts,
        ) <= candidate_score(cs[j], ref_ts)
    &&& forall|j: int|
        0 <= j < i && candidate_eligible(#[trigger] cs[j], ref_ts, window) ==> candidate_score(
            cs[j],
            ref_ts,
        ) > candidate_score(cs[i], ref_ts)
}

pub open spec fn pick_candidate(cs: Seq<CandidateView>, ref_ts: i128, window: Option<(i64, i64)>) -> Option<
    int,
> {
    if exists|i: int| is_first_best(cs, cs.len() as int, i, ref_ts, window) {
        Some(choose|i: int| is_first_best(cs, cs.len() as int, i, ref_ts, window))
    } else {
        None
    }
}

/// The candidate closest to `ref_ts` within the window, else the closest overall.
pub open spec fn chosen_candidate(cs: Seq<CandidateView>, ref_ts: i128, lookahead: i64, grace: i64) -> Option<int> {
    match pick_candidate(cs, ref_ts, Some((lookahead, grace))) {
        Some(i) => Some(i),
        None => pick_candidate(cs, ref_ts, None),
    }
}

pub open spec fn side_quote_from<F>(q: SideQuote<F>, id: Seq<char>, t: ClobTokenStats<F>) -> bool {
    &&& q.token_id@ == id
    &&& q.best_bid == t.best_bid
    &&& q.best_ask == t.best_ask
    &&& q.spread == t.spread
    &&& q.updated_at == t.updated_at
}

/// `result` is what a round-quote lookup owes for `asset` / `timeframe` at `ref_ts`.
pub open spec fn round_quote_result<F>(
    markets: Seq<MarketMeta<F>>,
    tokens: Seq<ClobTokenStats<F>>,
    asset: Seq<char>,
    timeframe: Seq<char>,
    ref_ts: i128,
    lookahead: i64,
    grace: i64,
    result: Option<RoundQuote<F>>,
) -> bool {
    let cs = build_candidates(markets, asset, timeframe);
    match chosen_candidate(cs, ref_ts, lookahead, grace) {
        None => result is None,
        Some(i) => {
            let c = cs[i];
            let up = c.up.unwrap();
            let down = c.down.unwrap();
            if has_token(tokens, up) && has_token(tokens, down) {
                &&& result is Some
                &&& result.unwrap().condition_id@ == c.condition_id
                &&& result.unwrap().close_time matches Some(ct) && ct@ == c.close_raw
                &&& side_quote_from(result.unwrap().up, up, token_entry(tokens, up))
                &&& side_quote_from(result.unwrap().down, down, token_entry(tokens, down))
            } else {
                result is None
            }
        },
    }
}

/// Market `m` of the directory files token `id` on the given side of
/// condition `cid`, for `asset` and `timeframe`.
pub open spec fn files_side<F>(
    ms: Seq<MarketMeta<F>>,
    asset: Seq<char>,
    timeframe: Seq<char>,
    cid: Seq<char>,
    id: Seq<char>,
    up: bool,
) -> bool {
    exists|k: int|
        0 <= k < ms.len() && market_selected(#[trigger] ms[k], asset, timeframe)
            && ms[k].condition_id@ == cid && ms[k].token_id@ == id && (if up {
            is_up_side(ms[k].side@)
        } else {
            is_down_side(ms[k].side@)
        })
}

proof fn lemma_candidate_sides_filed<F>(ms: Seq<MarketMeta<F>>, asset: Seq<char>, timeframe: Seq<char>)
    ensures
        forall|i: int|
            0 <= i < build_candidates(ms, asset, timeframe).len() ==> {
                let c = #[trigger] build_candidates(ms, asset, timeframe)[i];
                &&& (c.up matches Some(u) ==> files_side(ms, asset, timeframe, c.condition_id, u, true))
                &&& (c.down matches Some(d) ==> files_side(ms, asset, timeframe, c.condition_id, d, false))
            },
    decreases ms.len(),
{
    if ms.len() > 0 {
        let init = ms.drop_last();
        lemma_candidate_sides_filed(init, asset, timeframe);
        let prev = build_candidates(init, asset, timeframe);
        let cs = build_candidates(ms, asset, timeframe);
        let m = ms.last();
        let last = ms.len() - 1;
        assert(ms[last] == m);
        assert forall|cid: Seq<char>, id: Seq<char>, up: bool|
            files_side(init, asset, timeframe, cid, id, up) implies files_side(ms, asset, timeframe, cid, id, up) by {
            let k = choose|k: int|
                0 <= k < init.len() && market_selected(#[trigger] init[k], asset, timeframe)
                    && init[k].condition_id@ == cid && init[k].token_id@ == id && (if up {
                    is_up_side(init[k].side@)
                } else {
                    is_down_side(init[k].side@)
                });
            assert(ms[k] == init[k]);
        }
        if market_selected(m, asset, timeframe) {
            let found = has_candidate(prev, m.condition_id@);
            assert forall|i: int| 0 <= i < cs.len() implies {
                let c = #[trigger] cs[i];
                &&& (c.up matches Some(u) ==> files_side(ms, asset, timeframe, c.condition_id, u, true))
                &&& (c.down matches Some(d) ==> files_side(ms, asset, timeframe, c.condition_id, d, false))
            } by {
                let slot = if found {
                    candidate_slot(prev, m.condition_id@)
                } else {
                    prev.len() as int
                };
                if i == slot {
                    if found {
                        assert(prev[slot].condition_id == m.condition_id@);
                        let p = prev[slot];
                        assert(p.up matches Some(u) ==> files_side(init, asset, timeframe, p.condition_id, u, true));
                        assert(p.down matches Some(d) ==> files_side(init, asset, timeframe, p.condition_id, d, false));
                    }
                    if is_up_side(m.side@) {
                        assert(files_side(ms, asset, timeframe, m.condition_id@, m.token_id@, true)) by {
                            assert(ms[last] == m);
                        }
                    }
                    if is_down_side(m.side@) {
                        assert(files_side(ms, asset, timeframe, m.condition_id@, m.token_id@, false)) by {
                            assert(ms[last] == m);
                        }
                    }
                } else {
                    assert(cs[i] == prev[i]);
                    let p = prev[i];
                    assert(p.up matches Some(u) ==> files_side(init, asset, timeframe, p.condition_id, u, true));
                    assert(p.down matches Some(d) ==> files_side(init, asset, timeframe, p.condition_id, d, false));
                }
            }
        } else {
            assert forall|i: int| 0 <= i < cs.len() implies {
                let c = #[trigger] cs[i];
                &&& (c.up matches Some(u) ==> files_side(ms, asset, timeframe, c.condition_id, u, true))
                &&& (c.down matches Some(d) ==> files_side(ms, asset, timeframe, c.condition_id, d, false))
            } by {
                let p = prev[i];
                assert(p.up matches Some(u) ==> files_side(init, asset, timeframe, p.condition_id, u, true));
                assert(p.down matches Some(d) ==> files_side(init, asset, timeframe, p.condition_id, d, false));
            }
        }
    }
}

/// A round quote is made of the directory's own filing and each token's own
/// book: its UP token is filed in the directory as the UP side of the quoted
/// condition (for the asked asset and timeframe) and its DOWN token as the
/// DOWN side; each side carries the best bid, best ask, spread and update time
/// filed under that side's own token id.
pub proof fn lemma_round_quote_sides_are_their_tokens<F>(
    markets: Seq<MarketMeta<F>>,
    tokens: Seq<ClobTokenStats<F>>,
    asset: Seq<char>,
    timeframe: Seq<char>,
    ref_ts: i128,
    lookahead: i64,
    grace: i64,
    result: Option<RoundQuote<F>>,
)
    requires
        round_quote_result(markets, tokens, asset, timeframe, ref_ts, lookahead, grace, result),
    ensures
        result matches Some(q) ==> {
            &&& files_side(markets, asset, timeframe, q.condition_id@, q.up.token_id@, true)
            &&& files_side(markets, asset, timeframe, q.condition_id@, q.down.token_id@, false)
            &&& has_token(tokens, q.up.token_id@)
            &&& has_token(tokens, q.down.token_id@)
            &&& q.up.best_bid == token_entry(tokens, q.up.token_id@).best_bid
            &&& q.up.best_ask == token_entry(tokens, q.up.token_id@).best_ask
            &&& q.up.spread == token_entry(tokens, q.up.token_id@).spread
            &&& q.up.updated_at == token_entry(tokens, q.up.token_id@).updated_at
            &&& q.down.best_bid == token_entry(tokens, q.down.token_id@).best_bid
            &&& q.down.best_ask == token_entry(tokens, q.down.token_id@).best_ask
            &&& q.down.spread == token_entry(tokens, q.down.token_id@).spread
            &&& q.down.updated_at == token_entry(tokens, q.down.token_id@).updated_at
        },
{
    let cs = build_candidates(markets, asset, timeframe);
    lemma_candidate_sides_filed(markets, asset, timeframe);
    match chosen_candidate(cs, ref_ts, lookahead, grace) {
        Some(i) => {
            assert(0 <= i < cs.len());
            let c = cs[i];
            assert(c.up matches Some(u) ==> files_side(markets, asset, timeframe, c.condition_id, u, true));
            assert(c.down matches Some(d) ==> files_side(markets, asset, timeframe, c.condition_id, d, false));
        },
        None => {},
    }
}

// ── Round market selection (proof helpers) ───────────────────────────────────

pub open spec fn candidates_unique(cs: Seq<CandidateView>) -> bool {
    forall|i: int, j: int|
        0 <= i < cs.len() && 0 <= j < cs.len() && i != j ==> #[trigger] cs[i].condition_id
            != #[trigger] cs[j].condition_id
}

proof fn lemma_build_unique<F>(ms: Seq<MarketMeta<F>>, asset: Seq<char>, timeframe: Seq<char>)
    ensures
        candidates_unique(build_candidates(ms, asset, timeframe)),
    decreases ms.len(),
{
    if ms.len() > 0 {
        lemma_build_unique(ms.drop_last(), asset, timeframe);
        let prev = build_candidates(ms.drop_last(), asset, timeframe);
        let m = ms.last();
        if market_selected(m, asset, timeframe) && has_candidate(prev, m.condition_id@) {
            let k = candidate_slot(prev, m.condition_id@);
            assert(prev[k].condition_id == m.condition_id@);
        }
    }
}

proof fn lemma_first_best_unique(
    cs: Seq<CandidateView>,
    n: int,
    i: int,
    k: int,
    ref_ts: i128,
    window: Option<(i64, i64)>,
)
    requires
        is_first_best(cs, n, i, ref_ts, window),
        is_first_best(cs, n, k, ref_ts, window),
    ensures
        i == k,
{
    if i < k {
        assert(candidate_eligible(cs[i], ref_ts, window));
    } else if k < i {
        assert(candidate_eligible(cs[k], ref_ts, window));
    }
}

/// A directory candidate as the selection loop carries it.
struct Candidate {
    condition_id: String,
    close_ns: Option<i128>,
    close_raw: String,
    up: Option<String>,
    down: Option<String>,
}

pub open spec fn opt_str_view(o: Option<String>) -> Option<Seq<char>> {
    match o {
        Some(s) => Some(s@),
        None => None,
    }
}

impl View for Candidate {
    type V = CandidateView;

    closed spec fn view(&self) -> CandidateView {
        CandidateView {
            condition_id: self.condition_id@,
            close_ns: self.close_ns,
            close_raw: self.close_raw@,
            up: opt_str_view(self.up),
            down: opt_str_view(self.down),
        }
    }
}

spec fn cands_view(v: Seq<Candidate>) -> Seq<CandidateView> {
    v.map_values(|c: Candidate| c@)
}

fn clone_opt_string(o: &Option<String>) -> (r: Option<String>)
    ensures
        opt_str_view(r) == opt_str_view(*o),
{
    match o {
        Some(s) => Some(s.clone()),
        None => None,
    }
}

fn clone_candidate(c: &Candidate) -> (r: Candidate)
    ensures
        r@ == c@,
{
    Candidate {
        condition_id: c.condition_id.clone(),
        close_ns: c.close_ns,
        close_raw: c.close_raw.clone(),
        up: clone_opt_string(&c.up),
        down: clone_opt_string(&c.down),
    }
}

fn find_candidate(cs: &Vec<Candidate>, cid: &String) -> (r: Option<usize>)
    ensures
        match r {
            Some(i) => i < cs@.len() && cs@[i as int].condition_id@ == cid@,
            None => forall|i: int| 0 <= i < cs@.len() ==> cs@[i].condition_id@ != cid@,
        },
{
    let mut i: usize = 0;
    while i < cs.len()
        invariant
            i <= cs@.len(),
            forall|k: int| 0 <= k < i ==> cs@[k].condition_id@ != cid@,
        decreases cs@.len() - i,
    {
        if cs[i].condition_id == *cid {
            return Some(i);
        }
        i = i + 1;
    }
    None
}

/// With unique keys, the entry found at `i` is the entry for its key.
pub(crate) proof fn lemma_token_entry_at<F>(ts: Seq<ClobTokenStats<F>>, i: int, id: Seq<char>)
    requires
        token_keys_unique(ts),
        0 <= i < ts.len(),
        ts[i].token_id@ == id,
    ensures
        has_token(ts, id),
        token_entry(ts, id) == ts[i],
{
    assert(has_token(ts, id));
    let j = choose|j: int| 0 <= j < ts.len() && #[trigger] ts[j].token_id@ == id;
    assert(j == i);
}

pub(crate) fn find_token_index<F>(ts: &Vec<ClobTokenStats<F>>, id: &String) -> (r: Option<usize>)
    ensures
        match r {
            Some(i) => i < ts@.len() && ts@[i as int].token_id@ == id@,
            None => !has_token(ts@, id@),
        },
{
    let mut i: usize = 0;
    while i < ts.len()
        invariant
            i <= ts@.len(),
            forall|k: int| 0 <= k < i ==> ts@[k].token_id@ != id@,
        decreases ts@.len() - i,
    {
        if ts[i].token_id == *id {
            return Some(i);
        }
        i = i + 1;
    }
    None
}

pub(crate) fn find_market_index<F>(ms: &Vec<MarketMeta<F>>, id: &String) -> (r: Option<usize>)
    ensures
        match r {
            Some(i) => i < ms@.len() && ms@[i as int].token_id@ == id@,
            None => forall|i: int| 0 <= i < ms@.len() ==> ms@[i].token_id@ != id@,
        },
{
    let mut i: usize = 0;
    while i < ms.len()
        invariant
            i <= ms@.len(),
            forall|k: int| 0 <= k < i ==> ms@[k].token_id@ != id@,
        decreases ms@.len() - i,
    {
        if ms[i].token_id == *id {
            return Some(i);
        }
        i = i + 1;
    }
    None
}

/// Groups the selected directory entries by condition; see [`build_candidates`].
fn collect_candidates<F>(ms: &Vec<MarketMeta<F>>, asset: &str, timeframe: &str) -> (r: Vec<
    Candidate,
>)
    ensures
        cands_view(r@) == build_candidates(ms@, asset@, timeframe@),
        forall|i: int| 0 <= i < r@.len() ==> close_bounded(#[trigger] cands_view(r@)[i]),
{
    let mut cands: Vec<Candidate> = Vec::new();
    let mut k: usize = 0;
    while k < ms.len()
        invariant
            k <= ms@.len(),
            cands_view(cands@) == build_candidates(ms@.take(k as int), asset@, timeframe@),
            forall|i: int| 0 <= i < cands@.len() ==> close_bounded(#[trigger] cands_view(cands@)[i]),
        decreases ms@.len() - k,
    {
        proof {
            assert(ms@.take(k + 1).drop_last() =~= ms@.take(k as int));
            assert(ms@.take(k + 1).last() == ms@[k as int]);
            lemma_build_unique(ms@.take(k as int), asset@, timeframe@);
        }
        let m = &ms[k];
        if eq_ignore_ascii_case(m.asset.as_str(), asset) && str_eq(
            m.timeframe.as_str(),
            timeframe,
        ) {
            let ghost prev = cands_view(cands@);
            let idx = find_candidate(&cands, &m.condition_id);
            let mut c = match idx {
                Some(i) => clone_candidate(&cands[i]),
                None => Candidate {
                    condition_id: m.condition_id.clone(),
                    close_ns: parse_close_time_to_utc(m.close_time.as_str()),
                    close_raw: m.close_time.clone(),
                    up: None,
                    down: None,
                },
            };
            proof {
                match idx {
                    Some(i) => {
                        assert(prev[i as int].condition_id == m.condition_id@);
                        assert(has_candidate(prev, m.condition_id@));
                        let s = candidate_slot(prev, m.condition_id@);
                        assert(s == i as int);
                    },
                    None => {
                        assert(!has_candidate(prev, m.condition_id@));
                    },
                }
            }
            if eq_ignore_ascii_case(m.side.as_str(), "UP") {
                c.up = Some(m.token_id.clone());
            } else if eq_ignore_ascii_case(m.side.as_str(), "DOWN") {
                c.down = Some(m.token_id.clone());
            }
            match idx {
                Some(i) => {
                    cands.set(i, c);
                },
                None => {
                    cands.push(c);
                },
            }
            proof {
                assert(cands_view(cands@) =~= add_market(prev, ms@[k as int]));
            }
        }
        k = k + 1;
    }
    proof {
        assert(ms@.take(ms@.len() as int) =~= ms@);
    }
    cands
}

fn candidate_delta_exec(c: &Candidate, ref_ts: i128) -> (d: i64)
    requires
        -INSTANT_NS_BOUND <= ref_ts <= INSTANT_NS_BOUND,
        close_bounded(c@),
    ensures
        d == candidate_delta(c@, ref_ts),
{
    match c.close_ns {
        Some(t) => seconds_between(t, ref_ts),
        None => i64::MAX,
    }
}

/// Index of the first closest eligible candidate; see [`pick_candidate`].
fn pick_best(cs: &Vec<Candidate>, ref_ts: i128, window: Option<(i64, i64)>) -> (r: Option<usize>)
    requires
        -INSTANT_NS_BOUND <= ref_ts <= INSTANT_NS_BOUND,
        forall|i: int| 0 <= i < cs@.len() ==> close_bounded(#[trigger] cands_view(cs@)[i]),
        match window {
            Some((_, grace)) => grace > i64::MIN,
            None => true,
        },
    ensures
        match r {
            Some(i) => pick_candidate(cands_view(cs@), ref_ts, window) == Some(i as int),
            None => pick_candidate(cands_view(cs@), ref_ts, window) is None,
        },
{
    let ghost cv = cands_view(cs@);
    let mut best: Option<usize> = None;
    let mut best_score: i128 = 0;
    let mut k: usize = 0;
    while k < cs.len()
        invariant
            k <= cs@.len(),
            cv == cands_view(cs@),
            cv.len() == cs@.len(),
            -INSTANT_NS_BOUND <= ref_ts <= INSTANT_NS_BOUND,
            forall|i: int| 0 <= i < cs@.len() ==> close_bounded(#[trigger] cands_view(cs@)[i]),
            match window {
                Some((_, grace)) => grace > i64::MIN,
                None => true,
            },
            match best {
                Some(b) => is_first_best(cv, k as int, b as int, ref_ts, window) && best_score
                    == candidate_score(cv[b as int], ref_ts),
                None => forall|j: int|
                    0 <= j < k ==> !candidate_eligible(#[trigger] cv[j], ref_ts, window),
            },
        decreases cs@.len() - k,
    {
        let c = &cs[k];
        proof {
            assert(cv[k as int] == c@);
        }
        let complete = c.up.is_some() && c.down.is_some();
        let delta = candidate_delta_exec(c, ref_ts);
        let in_window = match window {
            Some((lookahead, grace)) => !(delta < -grace || delta > lookahead),
            None => true,
        };
        if complete && in_window {
            let score: i128 = if delta < 0 {
                -(delta as i128)
            } else {
                delta as i128
            };
            match best {
                None => {
                    best = Some(k);
                    best_score = score;
                },
                Some(_) => {
                    if score < best_score {
                        best = Some(k);
                        best_score = score;
                    }
                },
            }
        }
        k = k + 1;
    }
    proof {
        match best {
            Some(b) => {
                assert(is_first_best(cv, cv.len() as int, b as int, ref_ts, window));
                let c = choose|i: int| is_first_best(cv, cv.len() as int, i, ref_ts, window);
                lemma_first_best_unique(cv, cv.len() as int, b as int, c, ref_ts, window);
            },
            None => {
                assert forall|i: int| !is_first_best(cv, cv.len() as int, i, ref_ts, window) by {
                    if 0 <= i < cv.len() {
                        assert(!candidate_eligible(cv[i], ref_ts, window));
                    }
                }
            },
        }
    }
    best
}

fn side_quote<F: Copy>(ts: &Vec<ClobTokenStats<F>>, i: usize, id: &String) -> (q: SideQuote<F>)
    requires
        i < ts@.len(),
    ensures
        q.token_id@ == id@,
        q.best_bid == ts@[i as int].best_bid,
        q.best_ask == ts@[i as int].best_ask,
        q.spread == ts@[i as int].spread,
        q.updated_at == ts@[i as int].updated_at,
{
    let t = &ts[i];
    SideQuote {
        token_id: id.clone(),
        best_bid: t.best_bid,
        best_ask: t.best_ask,
        spread: t.spread,
        updated_at: t.updated_at,
    }
}

impl<F: Copy> ClobUiState<F> {
    /// Token keys and market keys each occur at most once.
    pub open spec fn wf(&self) -> bool {
        token_keys_unique(self.tokens@) && market_keys_unique(self.markets@)
    }

    pub open spec fn tokens_view(&self) -> Seq<ClobTokenStats<F>> {
        self.tokens@
    }

    pub open spec fn markets_view(&self) -> Seq<MarketMeta<F>> {
        self.markets@
    }

    /// Picks the round market of `asset` and `preferred_timeframe` whose close is
    /// nearest to `ref_ts`, preferring closes from `past_grace_secs` before to
    /// `max_lookahead_secs` after `ref_ts` and falling back to the nearest of all,
    /// and returns the quotes of its UP and DOWN tokens; `None` when no market has
    /// both tokens or a token has no statistics yet.
    pub fn round_quote_at(
        &self,
        asset: &str,
        preferred_timeframe: &str,
        ref_ts: i128,
        max_lookahead_secs: i64,
        past_grace_secs: i64,
    ) -> (r: Option<RoundQuote<F>>)
        requires
            self.wf(),
            past_grace_secs > i64::MIN,
            -INSTANT_NS_BOUND <= ref_ts <= INSTANT_NS_BOUND,
        ensures
            round_quote_result(
                self.markets_view(),
                self.tokens_view(),
                asset@,
                preferred_timeframe@,
                ref_ts,
                max_lookahead_secs,
                past_grace_secs,
                r,
            ),
            r matches Some(q) ==> {
                &&& files_side(self.markets_view(), asset@, preferred_timeframe@, q.condition_id@, q.up.token_id@, true)
                &&& files_side(self.markets_view(), asset@, preferred_timeframe@, q.condition_id@, q.down.token_id@, false)
                &&& q.up.best_bid == token_entry(self.tokens_view(), q.up.token_id@).best_bid
                &&& q.up.best_ask == token_entry(self.tokens_view(), q.up.token_id@).best_ask
                &&& q.down.best_bid == token_entry(self.tokens_view(), q.down.token_id@).best_bid
                &&& q.down.best_ask == token_entry(self.tokens_view(), q.down.token_id@).best_ask
            },
    {
        let cands = collect_candidates(&self.markets, asset, preferred_timeframe);
        let ghost cv = cands_view(cands@);
        let picked = pick_best(&cands, ref_ts, Some((max_lookahead_secs, past_grace_secs)));
        let chosen = match picked {
            Some(i) => Some(i),
            None => pick_best(&cands, ref_ts, None),
        };
        let i = match chosen {
            Some(i) => i,
            None => {
                return None;
            },
        };
        proof {
            let w = Some((max_lookahead_secs, past_grace_secs));
            let p = pick_candidate(cv, ref_ts, w);
            let pi = if p is Some {
                p.unwrap()
            } else {
                pick_candidate(cv, ref_ts, None).unwrap()
            };
            assert(pi == i as int);
            let wo = if p is Some {
                w
            } else {
                None
            };
            assert(is_first_best(cv, cv.len() as int, pi, ref_ts, wo));
            assert(cv[i as int] == cands@[i as int]@);
        }
        let c = &cands[i];
        let up_id = match &c.up {
            Some(u) => u,
            None => {
                return None;
            },
        };
        let down_id = match &c.down {
            Some(d) => d,
            None => {
                return None;
            },
        };
        let up_i = match find_token_index(&self.tokens, up_id) {
            Some(j) => j,
            None => {
                return None;
            },
        };
        let down_i = match find_token_index(&self.tokens, down_id) {
            Some(j) => j,
            None => {
                return None;
            },
        };
        proof {
            let ts = self.tokens@;
            let cu = choose|k: int| 0 <= k < ts.len() && #[trigger] ts[k].token_id@ == up_id@;
            assert(ts[up_i as int].token_id@ == up_id@);
            assert(cu == up_i as int);
            let cd = choose|k: int| 0 <= k < ts.len() && #[trigger] ts[k].token_id@ == down_id@;
            assert(ts[down_i as int].token_id@ == down_id@);
            assert(cd == down_i as int);
        }
        let up = side_quote(&self.tokens, up_i, up_id);
        let down = side_quote(&self.tokens, down_i, down_id);
        let res = Some(
            RoundQuote {
                condition_id: c.condition_id.clone(),
                close_time: Some(c.close_raw.clone()),
                up,
                down,
            },
        );
        proof {
            assert(round_quote_result(
                self.markets_view(),
                self.tokens_view(),
                asset@,
                preferred_timeframe@,
                ref_ts,
                max_lookahead_secs,
                past_grace_secs,
                res,
            ));
            lemma_round_quote_sides_are_their_tokens(
                self.markets_view(),
                self.tokens_view(),
                asset@,
                preferred_timeframe@,
                ref_ts,
                max_lookahead_secs,
                past_grace_secs,
                res,
            );
        }
        res
    }
}


/// Replaces the directory entry with `m`'s token id, or appends `m`.
pub open spec fn upsert_market<F>(ms: Seq<MarketMeta<F>>, m: MarketMeta<F>) -> Seq<MarketMeta<F>> {
    if exists|i: int| 0 <= i < ms.len() && #[trigger] ms[i].token_id@ == m.token_id@ {
        ms.update(choose|i: int| 0 <= i < ms.len() && #[trigger] ms[i].token_id@ == m.token_id@, m)
    } else {
        ms.push(m)
    }
}

/// Where an entry keyed `id` sits after an upsert into `ts`.
pub open spec fn token_slot_after_upsert<F>(ts: Seq<ClobTokenStats<F>>, id: Seq<char>) -> int {
    if has_token(ts, id) {
        choose|i: int| 0 <= i < ts.len() && #[trigger] ts[i].token_id@ == id
    } else {
        ts.len() as int
    }
}

/// The first `min(5, n)` levels as (price, size) pairs.
pub open spec fn top5_ladder<F>(levels: Seq<DepthLevel<F>>) -> Seq<(F, F)> {
    let n = if levels.len() < 5 {
        levels.len() as int
    } else {
        5
    };
    Seq::new(n as nat, |i: int| (levels[i].price, levels[i].size))
}

/// `t` is the dashboard entry made from `row`.
pub open spec fn entry_from_row<F>(t: ClobTokenStats<F>, row: SnapshotRow<F>) -> bool {
    &&& t.condition_id@ == row.condition_id@
    &&& t.token_id@ == row.token_id@
    &&& t.timeframe@ == "?"@
    &&& t.best_bid == row.best_bid
    &&& t.best_ask == row.best_ask
    &&& t.spread == row.spread
    &&& t.bid_depth_5 == row.bid_depth_5
    &&& t.ask_depth_5 == row.ask_depth_5
    &&& t.depth_imbalance_5 == row.depth_imbalance_5
    &&& t.slippage_100 == row.slippage_100
    &&& t.total_bid_levels == row.total_bid_levels
    &&& t.total_ask_levels == row.total_ask_levels
    &&& t.updated_at == row.ts
    &&& t.bid_ladder@ == top5_ladder(row.bid_levels@)
    &&& t.ask_ladder@ == top5_ladder(row.ask_levels@)
}

/// The counters of `a` and `b` agree.
pub open spec fn same_counters<F>(a: ClobUiState<F>, b: ClobUiState<F>) -> bool {
    &&& a.reconnects == b.reconnects
    &&& a.dropped_rows == b.dropped_rows
    &&& a.enqueued_rows == b.enqueued_rows
    &&& a.malformed_rows == b.malformed_rows
    &&& a.skipped_non_current_rows == b.skipped_non_current_rows
    &&& a.sampler_ingested_rows == b.sampler_ingested_rows
    &&& a.sampler_emitted_rows == b.sampler_emitted_rows
    &&& a.writer_received_rows == b.writer_received_rows
    &&& a.writer_buffered_rows == b.writer_buffered_rows
    &&& a.writer_flush_errors == b.writer_flush_errors
    &&& a.writer_recovered_drops == b.writer_recovered_drops
    &&& a.last_backoff_ms == b.last_backoff_ms
}

fn ladder_top5<F: Copy>(levels: &Vec<DepthLevel<F>>) -> (r: Vec<(F, F)>)
    ensures
        r@ == top5_ladder(levels@),
{
    let mut out: Vec<(F, F)> = Vec::new();
    let n: usize = if levels.len() < 5 {
        levels.len()
    } else {
        5
    };
    let mut i: usize = 0;
    while i < n
        invariant
            n <= levels@.len(),
            n == (if levels@.len() < 5 {
                levels@.len() as int
            } else {
                5
            }),
            i <= n,
            out@.len() == i,
            forall|k: int| 0 <= k < i ==> out@[k] == (levels@[k].price, levels@[k].size),
        decreases n - i,
    {
        let l = &levels[i];
        out.push((l.price, l.size));
        i = i + 1;
    }
    assert(out@ =~= top5_ladder(levels@));
    out
}

impl<F: Copy> ClobUiState<F> {
    /// Zero counters and empty tables.
    pub fn new() -> (s: Self)
        ensures
            s.wf(),
            s.tokens_view().len() == 0,
            s.markets_view().len() == 0,
            s.last_message_at is None,
            s.reconnects == 0 && s.dropped_rows == 0 && s.enqueued_rows == 0,
            s.malformed_rows == 0 && s.skipped_non_current_rows == 0,
            s.sampler_ingested_rows == 0 && s.sampler_emitted_rows == 0,
            s.writer_received_rows == 0 && s.writer_buffered_rows == 0,
            s.writer_flush_errors == 0 && s.writer_recovered_drops == 0,
            s.last_backoff_ms == 0,
    {
        ClobUiState {
            reconnects: 0,
            dropped_rows: 0,
            enqueued_rows: 0,
            malformed_rows: 0,
            skipped_non_current_rows: 0,
            sampler_ingested_rows: 0,
            sampler_emitted_rows: 0,
            writer_received_rows: 0,
            writer_buffered_rows: 0,
            writer_flush_errors: 0,
            writer_recovered_drops: 0,
            last_backoff_ms: 0,
            last_message_at: None,
            tokens: Vec::new(),
            markets: Vec::new(),
        }
    }

    /// A reconnect was scheduled after waiting `backoff_ms`.
    pub fn on_reconnect(&mut self, backoff_ms: u64)
        requires
            old(self).reconnects < u64::MAX,
        ensures
            final(self).reconnects == old(self).reconnects + 1,
            final(self).last_backoff_ms == backoff_ms,
            final(self).dropped_rows == old(self).dropped_rows,
            final(self).enqueued_rows == old(self).enqueued_rows,
            final(self).malformed_rows == old(self).malformed_rows,
            final(self).skipped_non_current_rows == old(self).skipped_non_current_rows,
            final(self).sampler_ingested_rows == old(self).sampler_ingested_rows,
            final(self).sampler_emitted_rows == old(self).sampler_emitted_rows,
            final(self).writer_received_rows == old(self).writer_received_rows,
            final(self).writer_buffered_rows == old(self).writer_buffered_rows,
            final(self).writer_flush_errors == old(self).writer_flush_errors,
            final(self).writer_recovered_drops == old(self).writer_recovered_drops,
            final(self).last_message_at == old(self).last_message_at,
            final(self).tokens_view() == old(self).tokens_view(),
            final(self).markets_view() == old(self).markets_view(),
    {
        self.reconnects = self.reconnects + 1;
        self.last_backoff_ms = backoff_ms;
    }

    /// A sampled row was dropped because the writer queue was full.
    pub fn on_drop(&mut self)
        requires
            old(self).dropped_rows < u64::MAX,
        ensures
            final(self).dropped_rows == old(self).dropped_rows + 1,
            same_counters(*final(self), ClobUiState { dropped_rows: final(self).dropped_rows, ..*old(self) }),
            final(self).last_message_at == old(self).last_message_at,
            final(self).tokens_view() == old(self).tokens_view(),
            final(self).markets_view() == old(self).markets_view(),
    {
        self.dropped_rows = self.dropped_rows + 1;
    }

    /// A sampled row was handed to the writer.
    pub fn on_enqueue(&mut self)
        requires
            old(self).enqueued_rows < u64::MAX,
        ensures
            final(self).enqueued_rows == old(self).enqueued_rows + 1,
            same_counters(*final(self), ClobUiState { enqueued_rows: final(self).enqueued_rows, ..*old(self) }),
            final(self).last_message_at == old(self).last_message_at,
            final(self).tokens_view() == old(self).tokens_view(),
            final(self).markets_view() == old(self).markets_view(),
    {
        self.enqueued_rows = self.enqueued_rows + 1;
    }

    /// A book message carried no usable level or quote.
    pub fn on_malformed(&mut self)
        requires
            old(self).malformed_rows < u64::MAX,
        ensures
            final(self).malformed_rows == old(self).malformed_rows + 1,
            same_counters(*final(self), ClobUiState { malformed_rows: final(self).malformed_rows, ..*old(self) }),
            final(self).last_message_at == old(self).last_message_at,
            final(self).tokens_view() == old(self).tokens_view(),
            final(self).markets_view() == old(self).markets_view(),
    {
        self.malformed_rows = self.malformed_rows + 1;
    }

    /// A book update of a market outside its current window was not persisted.
    pub fn on_skipped_non_current(&mut self)
        requires
            old(self).skipped_non_current_rows < u64::MAX,
        ensures
            final(self).skipped_non_current_rows == old(self).skipped_non_current_rows + 1,
            same_counters(*final(self), ClobUiState { skipped_non_current_rows: final(self).skipped_non_current_rows, ..*old(self) }),
            final(self).last_message_at == old(self).last_message_at,
            final(self).tokens_view() == old(self).tokens_view(),
            final(self).markets_view() == old(self).markets_view(),
    {
        self.skipped_non_current_rows = self.skipped_non_current_rows + 1;
    }

    /// Records the sampler's totals.
    pub fn set_sampler_stats(&mut self, ingested: u64, emitted: u64)
        ensures
            final(self).sampler_ingested_rows == ingested,
            final(self).sampler_emitted_rows == emitted,
            same_counters(*final(self), ClobUiState { sampler_ingested_rows: ingested, sampler_emitted_rows: emitted, ..*old(self) }),
            final(self).last_message_at == old(self).last_message_at,
            final(self).tokens_view() == old(self).tokens_view(),
            final(self).markets_view() == old(self).markets_view(),
    {
        self.sampler_ingested_rows = ingested;
        self.sampler_emitted_rows = emitted;
    }

    /// Records the database writer's totals.
    pub fn set_writer_stats(&mut self, received: u64, buffered: u64, flush_errors: u64, recovered_drops: u64)
        ensures
            final(self).writer_received_rows == received,
            final(self).writer_buffered_rows == buffered,
            final(self).writer_flush_errors == flush_errors,
            final(self).writer_recovered_drops == recovered_drops,
            same_counters(*final(self), ClobUiState {
                writer_received_rows: received,
                writer_buffered_rows: buffered,
                writer_flush_errors: flush_errors,
                writer_recovered_drops: recovered_drops,
                ..*old(self)
            }),
            final(self).last_message_at == old(self).last_message_at,
            final(self).tokens_view() == old(self).tokens_view(),
            final(self).markets_view() == old(self).markets_view(),
    {
        self.writer_received_rows = received;
        self.writer_buffered_rows = buffered;
        self.writer_flush_errors = flush_errors;
        self.writer_recovered_drops = recovered_drops;
    }

    /// Files (or refiles) the directory entry of `token_id`.
    pub fn set_market_meta(
        &mut self,
        token_id: String,
        condition_id: String,
        asset: String,
        timeframe: String,
        close_time: String,
        side: String,
        pivot: Option<F>,
    )
        requires
            old(self).wf(),
        ensures
            final(self).wf(),
            final(self).markets_view() == upsert_market(
                old(self).markets_view(),
                MarketMeta { condition_id, asset, timeframe, close_time, token_id, side, pivot },
            ),
            final(self).tokens_view() == old(self).tokens_view(),
            same_counters(*final(self), *old(self)),
            final(self).last_message_at == old(self).last_message_at,
    {
        let ghost old_ms = self.markets@;
        let ghost m_spec = MarketMeta { condition_id, asset, timeframe, close_time, token_id, side, pivot };
        let idx = find_market_index(&self.markets, &token_id);
        let m = MarketMeta { token_id, condition_id, asset, timeframe, close_time, side, pivot };
        assert(m == m_spec);
        match idx {
            Some(i) => {
                proof {
                    let c = choose|k: int| 0 <= k < old_ms.len() && #[trigger] old_ms[k].token_id@ == m.token_id@;
                    assert(old_ms[i as int].token_id@ == m.token_id@);
                    assert(c == i as int);
                }
                self.markets.set(i, m);
            },
            None => {
                self.markets.push(m);
            },
        }
    }

    /// Empties the market directory.
    pub fn clear_markets(&mut self)
        requires
            old(self).wf(),
        ensures
            final(self).wf(),
            final(self).markets_view().len() == 0,
            final(self).tokens_view() == old(self).tokens_view(),
            same_counters(*final(self), *old(self)),
            final(self).last_message_at == old(self).last_message_at,
    {
        self.markets.clear();
    }

    /// Files the latest statistics of `row`'s token (replacing earlier ones) and
    /// stamps the time of the last message.
    pub fn update_from_row(&mut self, row: &SnapshotRow<F>)
        requires
            old(self).wf(),
        ensures
            final(self).wf(),
            final(self).last_message_at matches Some(t) && t >= 0,
            final(self).tokens_view().len() == if has_token(old(self).tokens_view(), row.token_id@) {
                old(self).tokens_view().len()
            } else {
                old(self).tokens_view().len() + 1
            },
            entry_from_row(
                final(self).tokens_view()[token_slot_after_upsert(old(self).tokens_view(), row.token_id@)],
                *row,
            ),
            forall|j: int|
                0 <= j < old(self).tokens_view().len() && j != token_slot_after_upsert(
                    old(self).tokens_view(),
                    row.token_id@,
                ) ==> #[trigger] final(self).tokens_view()[j] == old(self).tokens_view()[j],
            final(self).markets_view() == old(self).markets_view(),
            same_counters(*final(self), *old(self)),
    {
        self.last_message_at = Some(now_millis());
        let entry = ClobTokenStats {
            condition_id: row.condition_id.clone(),
            token_id: row.token_id.clone(),
            timeframe: String::from_str("?"),
            best_bid: row.best_bid,
            best_ask: row.best_ask,
            spread: row.spread,
            bid_depth_5: row.bid_depth_5,
            ask_depth_5: row.ask_depth_5,
            depth_imbalance_5: row.depth_imbalance_5,
            slippage_100: row.slippage_100,
            total_bid_levels: row.total_bid_levels,
            total_ask_levels: row.total_ask_levels,
            updated_at: row.ts,
            bid_ladder: ladder_top5(&row.bid_levels),
            ask_ladder: ladder_top5(&row.ask_levels),
        };
        let ghost old_ts = self.tokens@;
        let idx = find_token_index(&self.tokens, &row.token_id);
        match idx {
            Some(i) => {
                proof {
                    let c = choose|k: int| 0 <= k < old_ts.len() && #[trigger] old_ts[k].token_id@ == row.token_id@;
                    assert(old_ts[i as int].token_id@ == row.token_id@);
                    assert(c == i as int);
                }
                self.tokens.set(i, entry);
            },
            None => {
                self.tokens.push(entry);
            },
        }
    }

    /// Records the timeframe of a token that has statistics; does nothing otherwise.
    pub fn set_token_timeframe(&mut self, token_id: &String, timeframe: String)
        requires
            old(self).wf(),
        ensures
            final(self).wf(),
            final(self).tokens_view().len() == old(self).tokens_view().len(),
            forall|j: int|
                0 <= j < old(self).tokens_view().len() ==> {
                    let o = #[trigger] old(self).tokens_view()[j];
                    let n = final(self).tokens_view()[j];
                    if o.token_id@ == token_id@ {
                        n == ClobTokenStats { timeframe, ..o }
                    } else {
                        n == o
                    }
                },
            final(self).markets_view() == old(self).markets_view(),
            same_counters(*final(self), *old(self)),
            final(self).last_message_at == old(self).last_message_at,
    {
        let idx = find_token_index(&self.tokens, token_id);
        if let Some(i) = idx {
            let mut t = self.tokens.remove(i);
            t.timeframe = timeframe;
            self.tokens.insert(i, t);
        }
    }

    /// [`round_quote_at`](Self::round_quote_at) at the current time, preferring
    /// closes from 45 s ago to an hour ahead.
    pub fn latest_round_quote(&self, asset: &str, preferred_timeframe: &str) -> (r: Option<RoundQuote<F>>)
        requires
            self.wf(),
        ensures
            exists|now: i128|
                now >= 0 && round_quote_result(
                    self.markets_view(),
                    self.tokens_view(),
                    asset@,
                    preferred_timeframe@,
                    now,
                    3600,
                    45,
                    r,
                ),
            r matches Some(q) ==> {
                &&& files_side(self.markets_view(), asset@, preferred_timeframe@, q.condition_id@, q.up.token_id@, true)
                &&& files_side(self.markets_view(), asset@, preferred_timeframe@, q.condition_id@, q.down.token_id@, false)
                &&& q.up.best_bid == token_entry(self.tokens_view(), q.up.token_id@).best_bid
                &&& q.up.best_ask == token_entry(self.tokens_view(), q.up.token_id@).best_ask
                &&& q.down.best_bid == token_entry(self.tokens_view(), q.down.token_id@).best_bid
                &&& q.down.best_ask == token_entry(self.tokens_view(), q.down.token_id@).best_ask
            },
    {
        let now = now_nanos();
        self.round_quote_at(asset, preferred_timeframe, now, 3600, 45)
    }
}

} // verus!
