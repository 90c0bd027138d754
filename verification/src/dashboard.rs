//! The rows of the CLOB dashboard page: one row per round market of the `5m`
//! and `15m` timeframes, with the book of its UP and DOWN token, ordered by
//! close time, then timeframe rank, then condition id.

use vstd::prelude::*;
use vstd::multiset::Multiset;

use crate::clob_state::{
    find_market_index, has_token, lemma_token_entry_at, market_keys_unique, token_entry,
    token_keys_unique, ClobTokenStats, ClobUiState, MarketMeta,
};
use crate::display::{
    close_time_cuttable, format_close_time_compact, spec_compact_close_time, spec_timeframe_rank,
    timeframe_rank_minutes,
};
use crate::text::str_eq;

verus! {

broadcast use vstd::seq_lib::group_to_multiset_ensures;

// ── Text order ───────────────────────────────────────────────────────────────

/// Lexicographic order by code point, the order of `str` (UTF-8 keeps it).
pub open spec fn text_lt(a: Seq<char>, b: Seq<char>) -> bool
    decreases a.len(),
{
    if a.len() == 0 {
        b.len() > 0
    } else if b.len() == 0 {
        false
    } else if a[0] != b[0] {
        (a[0] as int) < (b[0] as int)
    } else {
        text_lt(a.drop_first(), b.drop_first())
    }
}

proof fn lemma_text_lt_asym(a: Seq<char>, b: Seq<char>)
    ensures
        !(text_lt(a, b) && text_lt(b, a)),
    decreases a.len(),
{
    if a.len() > 0 && b.len() > 0 && a[0] == b[0] {
        lemma_text_lt_asym(a.drop_first(), b.drop_first());
    }
}

proof fn lemma_text_lt_total(a: Seq<char>, b: Seq<char>)
    ensures
        a != b ==> text_lt(a, b) || text_lt(b, a),
    decreases a.len(),
{
    if a.len() > 0 && b.len() > 0 && a[0] == b[0] {
        lemma_text_lt_total(a.drop_first(), b.drop_first());
        if a.drop_first() == b.drop_first() {
            assert(a =~= seq![a[0]] + a.drop_first());
            assert(b =~= seq![b[0]] + b.drop_first());
        }
    } else if a.len() == 0 && b.len() == 0 {
        assert(a =~= b);
    } else if a.len() > 0 && b.len() > 0 {
        assert((a[0] as int) != (b[0] as int));
    }
}

proof fn lemma_text_lt_trans(a: Seq<char>, b: Seq<char>, c: Seq<char>)
    requires
        text_lt(a, b),
        text_lt(b, c),
    ensures
        text_lt(a, c),
    decreases a.len(),
{
    if a.len() > 0 && b.len() > 0 && c.len() > 0 && a[0] == b[0] && b[0] == c[0] {
        lemma_text_lt_trans(a.drop_first(), b.drop_first(), c.drop_first());
    }
}

fn text_lt_exec(a: &str, b: &str) -> (r: bool)
    ensures
        r == text_lt(a@, b@),
{
    let n = a.unicode_len();
    let m = b.unicode_len();
    let mut i: usize = 0;
    proof {
        assert(a@.skip(0) =~= a@);
        assert(b@.skip(0) =~= b@);
    }
    while i < n && i < m
        invariant
            n == a@.len(),
            m == b@.len(),
            i <= n,
            i <= m,
            text_lt(a@, b@) == text_lt(a@.skip(i as int), b@.skip(i as int)),
        decreases n - i,
    {
        let x = a.get_char(i);
        let y = b.get_char(i);
        proof {
            assert(a@.skip(i as int)[0] == x);
            assert(b@.skip(i as int)[0] == y);
        }
        if x != y {
            return (x as u32) < (y as u32);
        }
        proof {
            assert(a@.skip(i as int).drop_first() =~= a@.skip(i + 1));
            assert(b@.skip(i as int).drop_first() =~= b@.skip(i + 1));
        }
        i = i + 1;
    }
    i == n && i < m
}

// ── Rows ─────────────────────────────────────────────────────────────────────

/// The book of one outcome token on the dashboard.
pub struct SideView<F> {
    pub token_id: String,
    pub best_bid: Option<F>,
    pub best_ask: Option<F>,
    pub spread: Option<F>,
    pub bid_depth5: Option<F>,
    pub ask_depth5: Option<F>,
    pub imbalance5: Option<F>,
    pub slip100: Option<F>,
    pub updated_at: i64,
}

/// One round market on the dashboard.
pub struct MarketRow<F> {
    pub close_time: String,
    pub asset: String,
    pub timeframe: String,
    pub condition_id: String,
    pub up: Option<SideView<F>>,
    pub down: Option<SideView<F>>,
}

/// A row with its sides named by token id.
pub struct RowView {
    pub close_time: Seq<char>,
    pub asset: Seq<char>,
    pub timeframe: Seq<char>,
    pub condition_id: Seq<char>,
    pub up: Option<Seq<char>>,
    pub down: Option<Seq<char>>,
}

pub open spec fn side_token<F>(s: Option<SideView<F>>) -> Option<Seq<char>> {
    match s {
        Some(v) => Some(v.token_id@),
        None => None,
    }
}

impl<F> View for MarketRow<F> {
    type V = RowView;

    open spec fn view(&self) -> RowView {
        RowView {
            close_time: self.close_time@,
            asset: self.asset@,
            timeframe: self.timeframe@,
            condition_id: self.condition_id@,
            up: side_token(self.up),
            down: side_token(self.down),
        }
    }
}

pub open spec fn row_views<F>(rs: Seq<MarketRow<F>>) -> Seq<RowView> {
    rs.map_values(|r: MarketRow<F>| r@)
}

/// `s` shows the statistics `t`.
pub open spec fn side_from<F>(s: SideView<F>, t: ClobTokenStats<F>) -> bool {
    &&& s.token_id@ == t.token_id@
    &&& s.best_bid == t.best_bid
    &&& s.best_ask == t.best_ask
    &&& s.spread == t.spread
    &&& s.bid_depth5 == t.bid_depth_5
    &&& s.ask_depth5 == t.ask_depth_5
    &&& s.imbalance5 == t.depth_imbalance_5
    &&& s.slip100 == t.slippage_100
    &&& s.updated_at == t.updated_at
}

/// Each side of `r` shows the statistics of its token.
pub open spec fn sides_match<F>(r: MarketRow<F>, tokens: Seq<ClobTokenStats<F>>) -> bool {
    &&& (r.up matches Some(s) ==> side_from(s, token_entry(tokens, s.token_id@)))
    &&& (r.down matches Some(s) ==> side_from(s, token_entry(tokens, s.token_id@)))
}

/// Each dashboard side shows its own token's book as it is filed: the best bid
/// as the best bid, the best ask as the best ask, and the spread and update
/// time of that token.
pub proof fn lemma_row_sides_show_token_quotes<F>(r: MarketRow<F>, tokens: Seq<ClobTokenStats<F>>)
    requires
        sides_match(r, tokens),
    ensures
        r.up matches Some(s) ==> {
            &&& s.best_bid == token_entry(tokens, s.token_id@).best_bid
            &&& s.best_ask == token_entry(tokens, s.token_id@).best_ask
            &&& s.spread == token_entry(tokens, s.token_id@).spread
            &&& s.updated_at == token_entry(tokens, s.token_id@).updated_at
        },
        r.down matches Some(s) ==> {
            &&& s.best_bid == token_entry(tokens, s.token_id@).best_bid
            &&& s.best_ask == token_entry(tokens, s.token_id@).best_ask
            &&& s.spread == token_entry(tokens, s.token_id@).spread
            &&& s.updated_at == token_entry(tokens, s.token_id@).updated_at
        },
{
}

// ── Gathering (specification) ────────────────────────────────────────────────

pub open spec fn has_market<F>(ms: Seq<MarketMeta<F>>, id: Seq<char>) -> bool {
    exists|i: int| 0 <= i < ms.len() && #[trigger] ms[i].token_id@ == id
}

pub open spec fn market_entry<F>(ms: Seq<MarketMeta<F>>, id: Seq<char>) -> MarketMeta<F> {
    ms[choose|i: int| 0 <= i < ms.len() && #[trigger] ms[i].token_id@ == id]
}

/// What the directory says of a token: (condition, close time, asset, timeframe,
/// side); without a directory entry the token's own condition and timeframe,
/// and `?` for the rest.
pub open spec fn token_fields<F>(ms: Seq<MarketMeta<F>>, t: ClobTokenStats<F>) -> (
    Seq<char>,
    Seq<char>,
    Seq<char>,
    Seq<char>,
    Seq<char>,
) {
    if has_market(ms, t.token_id@) {
        let m = market_entry(ms, t.token_id@);
        (m.condition_id@, m.close_time@, m.asset@, m.timeframe@, m.side@)
    } else {
        (t.condition_id@, seq!['?'], seq!['?'], t.timeframe@, seq!['?'])
    }
}

pub open spec fn dashboard_timeframe(tf: Seq<char>) -> bool {
    tf == seq!['5', 'm'] || tf == seq!['1', '5', 'm']
}

pub open spec fn has_row(rs: Seq<RowView>, cid: Seq<char>) -> bool {
    exists|i: int| 0 <= i < rs.len() && #[trigger] rs[i].condition_id == cid
}

pub open spec fn row_slot(rs: Seq<RowView>, cid: Seq<char>) -> int {
    choose|i: int| 0 <= i < rs.len() && #[trigger] rs[i].condition_id == cid
}

/// Files a token under its condition: the first token of a condition fixes
/// the close time (compacted), asset and timeframe; an `UP` (`DOWN`) token
/// becomes the up (down) side.
pub open spec fn file_token<F>(rs: Seq<RowView>, ms: Seq<MarketMeta<F>>, t: ClobTokenStats<F>) -> Seq<
    RowView,
> {
    let f = token_fields(ms, t);
    let found = has_row(rs, f.0);
    let base = if found {
        rs[row_slot(rs, f.0)]
    } else {
        RowView {
            close_time: spec_compact_close_time(f.1),
            asset: f.2,
            timeframe: f.3,
            condition_id: f.0,
            up: None,
            down: None,
        }
    };
    let filed = if f.4 == seq!['U', 'P'] {
        RowView { up: Some(t.token_id@), ..base }
    } else if f.4 == seq!['D', 'O', 'W', 'N'] {
        RowView { down: Some(t.token_id@), ..base }
    } else {
        base
    };
    if found {
        rs.update(row_slot(rs, f.0), filed)
    } else {
        rs.push(filed)
    }
}

/// The rows of the `5m` and `15m` tokens, in order of first appearance.
pub open spec fn gather_rows<F>(ts: Seq<ClobTokenStats<F>>, ms: Seq<MarketMeta<F>>) -> Seq<RowView>
    decreases ts.len(),
{
    if ts.len() == 0 {
        Seq::empty()
    } else {
        let prev = gather_rows(ts.drop_last(), ms);
        if dashboard_timeframe(token_fields(ms, ts.last()).3) {
            file_token(prev, ms, ts.last())
        } else {
            prev
        }
    }
}

/// Token `id` of `ts` is filed in the directory on side `side` of condition `cid`.
pub open spec fn token_filed_as<F>(
    ts: Seq<ClobTokenStats<F>>,
    ms: Seq<MarketMeta<F>>,
    cid: Seq<char>,
    id: Seq<char>,
    side: Seq<char>,
) -> bool {
    exists|j: int|
        0 <= j < ts.len() && (#[trigger] ts[j]).token_id@ == id && token_fields(ms, ts[j]).0 == cid
            && token_fields(ms, ts[j]).4 == side
}

/// A dashboard row's UP side is a token that the directory files as `UP` of
/// the row's condition, and its DOWN side one filed as `DOWN`: the sides are
/// never exchanged and never taken from another condition.
pub proof fn lemma_row_sides_are_filed_sides<F>(ts: Seq<ClobTokenStats<F>>, ms: Seq<MarketMeta<F>>)
    ensures
        forall|i: int|
            0 <= i < gather_rows(ts, ms).len() ==> {
                let r = #[trigger] gather_rows(ts, ms)[i];
                &&& (r.up matches Some(u) ==> token_filed_as(ts, ms, r.condition_id, u, seq!['U', 'P']))
                &&& (r.down matches Some(d) ==> token_filed_as(ts, ms, r.condition_id, d, seq!['D', 'O', 'W', 'N']))
            },
    decreases ts.len(),
{
    if ts.len() > 0 {
        let init = ts.drop_last();
        lemma_row_sides_are_filed_sides(init, ms);
        let prev = gather_rows(init, ms);
        let rs = gather_rows(ts, ms);
        let t = ts.last();
        let last = ts.len() - 1;
        assert(ts[last] == t);
        assert forall|cid: Seq<char>, id: Seq<char>, side: Seq<char>|
            token_filed_as(init, ms, cid, id, side) implies token_filed_as(ts, ms, cid, id, side) by {
            let j = choose|j: int|
                0 <= j < init.len() && (#[trigger] init[j]).token_id@ == id && token_fields(ms, init[j]).0 == cid
                    && token_fields(ms, init[j]).4 == side;
            assert(ts[j] == init[j]);
        }
        let f = token_fields(ms, t);
        assert forall|i: int| 0 <= i < rs.len() implies {
            let r = #[trigger] rs[i];
            &&& (r.up matches Some(u) ==> token_filed_as(ts, ms, r.condition_id, u, seq!['U', 'P']))
            &&& (r.down matches Some(d) ==> token_filed_as(ts, ms, r.condition_id, d, seq!['D', 'O', 'W', 'N']))
        } by {
            if dashboard_timeframe(f.3) {
                let found = has_row(prev, f.0);
                let slot = if found {
                    row_slot(prev, f.0)
                } else {
                    prev.len() as int
                };
                if i == slot {
                    if found {
                        assert(prev[slot].condition_id == f.0);
                        let p = prev[slot];
                        assert(p.up matches Some(u) ==> token_filed_as(init, ms, p.condition_id, u, seq!['U', 'P']));
                        assert(p.down matches Some(d) ==> token_filed_as(
                            init,
                            ms,
                            p.condition_id,
                            d,
                            seq!['D', 'O', 'W', 'N'],
                        ));
                    }
                    assert(token_filed_as(ts, ms, f.0, t.token_id@, f.4)) by {
                        assert(ts[last] == t);
                    }
                } else {
                    assert(rs[i] == prev[i]);
                    let p = prev[i];
                    assert(p.up matches Some(u) ==> token_filed_as(init, ms, p.condition_id, u, seq!['U', 'P']));
                    assert(p.down matches Some(d) ==> token_filed_as(init, ms, p.condition_id, d, seq!['D', 'O', 'W', 'N']));
                }
            } else {
                let p = prev[i];
                assert(p.up matches Some(u) ==> token_filed_as(init, ms, p.condition_id, u, seq!['U', 'P']));
                assert(p.down matches Some(d) ==> token_filed_as(init, ms, p.condition_id, d, seq!['D', 'O', 'W', 'N']));
            }
        }
    }
}

pub open spec fn row_ids_unique(rs: Seq<RowView>) -> bool {
    forall|i: int, j: int|
        0 <= i < rs.len() && 0 <= j < rs.len() && i != j ==> #[trigger] rs[i].condition_id
            != #[trigger] rs[j].condition_id
}

proof fn lemma_gather_rows_unique<F>(ts: Seq<ClobTokenStats<F>>, ms: Seq<MarketMeta<F>>)
    ensures
        row_ids_unique(gather_rows(ts, ms)),
    decreases ts.len(),
{
    if ts.len() > 0 {
        lemma_gather_rows_unique(ts.drop_last(), ms);
        let prev = gather_rows(ts.drop_last(), ms);
        let f = token_fields(ms, ts.last());
        if dashboard_timeframe(f.3) && has_row(prev, f.0) {
            let k = row_slot(prev, f.0);
            assert(prev[k].condition_id == f.0);
        }
    }
}

/// Every close time of a `5m` or `15m` directory entry can be cut after sixteen bytes.
pub open spec fn close_times_cuttable<F>(ms: Seq<MarketMeta<F>>) -> bool {
    forall|i: int|
        0 <= i < ms.len() && dashboard_timeframe(ms[i].timeframe@) ==> close_time_cuttable(
            #[trigger] ms[i].close_time@,
        )
}

// ── Ordering (specification) ─────────────────────────────────────────────────

/// Row `a` is listed before row `b`: earlier close time, then smaller
/// timeframe rank, then smaller condition id.
pub open spec fn row_before(a: RowView, b: RowView) -> bool {
    ||| text_lt(a.close_time, b.close_time)
    ||| a.close_time == b.close_time && spec_timeframe_rank(a.timeframe) < spec_timeframe_rank(
        b.timeframe,
    )
    ||| a.close_time == b.close_time && spec_timeframe_rank(a.timeframe) == spec_timeframe_rank(
        b.timeframe,
    ) && text_lt(a.condition_id, b.condition_id)
}

pub open spec fn rows_in_order(rs: Seq<RowView>) -> bool {
    forall|i: int, j: int| 0 <= i < j < rs.len() ==> row_before(#[trigger] rs[i], #[trigger] rs[j])
}

proof fn lemma_row_before_total(a: RowView, b: RowView)
    requires
        a.condition_id != b.condition_id,
    ensures
        row_before(a, b) || row_before(b, a),
{
    lemma_text_lt_total(a.close_time, b.close_time);
    lemma_text_lt_total(a.condition_id, b.condition_id);
}

proof fn lemma_row_before_trans(a: RowView, b: RowView, c: RowView)
    requires
        row_before(a, b),
        row_before(b, c),
    ensures
        row_before(a, c),
{
    if text_lt(a.close_time, b.close_time) && text_lt(b.close_time, c.close_time) {
        lemma_text_lt_trans(a.close_time, b.close_time, c.close_time);
    }
    if a.close_time == b.close_time && b.close_time == c.close_time {
        lemma_text_lt_asym(a.close_time, a.close_time);
        if text_lt(a.condition_id, b.condition_id) && text_lt(b.condition_id, c.condition_id) {
            lemma_text_lt_trans(a.condition_id, b.condition_id, c.condition_id);
        }
    }
}

// ── Gathering (code) ─────────────────────────────────────────────────────────

fn find_row<F>(rs: &Vec<MarketRow<F>>, cid: &String) -> (r: Option<usize>)
    ensures
        match r {
            Some(i) => i < rs@.len() && row_views(rs@)[i as int].condition_id == cid@,
            None => !has_row(row_views(rs@), cid@),
        },
{
    let mut i: usize = 0;
    while i < rs.len()
        invariant
            i <= rs@.len(),
            forall|k: int| 0 <= k < i ==> row_views(rs@)[k].condition_id != cid@,
        decreases rs@.len() - i,
    {
        if rs[i].condition_id == *cid {
            return Some(i);
        }
        i = i + 1;
    }
    None
}

fn side_of<F: Copy>(t: &ClobTokenStats<F>) -> (s: SideView<F>)
    ensures
        side_from(s, *t),
{
    SideView {
        token_id: t.token_id.clone(),
        best_bid: t.best_bid,
        best_ask: t.best_ask,
        spread: t.spread,
        bid_depth5: t.bid_depth_5,
        ask_depth5: t.ask_depth_5,
        imbalance5: t.depth_imbalance_5,
        slip100: t.slippage_100,
        updated_at: t.updated_at,
    }
}

fn gather_market_rows<F: Copy>(state: &ClobUiState<F>) -> (r: Vec<MarketRow<F>>)
    requires
        state.wf(),
        close_times_cuttable(state.markets@),
    ensures
        row_views(r@) == gather_rows(state.tokens@, state.markets@),
        forall|k: int| 0 <= k < r@.len() ==> sides_match(#[trigger] r@[k], state.tokens@),
{
    let ghost ts = state.tokens@;
    let ghost ms = state.markets@;
    let mut rows: Vec<MarketRow<F>> = Vec::new();
    let mut k: usize = 0;
    while k < state.tokens.len()
        invariant
            k <= ts.len(),
            ts == state.tokens@,
            ms == state.markets@,
            token_keys_unique(ts),
            market_keys_unique(ms),
            close_times_cuttable(ms),
            row_views(rows@) == gather_rows(ts.take(k as int), ms),
            forall|j: int| 0 <= j < rows@.len() ==> sides_match(#[trigger] rows@[j], ts),
        decreases ts.len() - k,
    {
        proof {
            reveal_strlit("?");
            reveal_strlit("5m");
            reveal_strlit("15m");
            reveal_strlit("UP");
            reveal_strlit("DOWN");
            assert("?"@ =~= seq!['?']);
            assert("5m"@ =~= seq!['5', 'm']);
            assert("15m"@ =~= seq!['1', '5', 'm']);
            assert("UP"@ =~= seq!['U', 'P']);
            assert("DOWN"@ =~= seq!['D', 'O', 'W', 'N']);
            assert(ts.take(k + 1).drop_last() =~= ts.take(k as int));
            assert(ts.take(k + 1).last() == ts[k as int]);
            lemma_gather_rows_unique(ts.take(k as int), ms);
            lemma_token_entry_at(ts, k as int, ts[k as int].token_id@);
        }
        let tok = &state.tokens[k];
        let mi = find_market_index(&state.markets, &tok.token_id);
        let (cid, close_raw, asset, timeframe, side) = match mi {
            Some(i) => {
                let m = &state.markets[i];
                proof {
                    if dashboard_timeframe(ms[i as int].timeframe@) {
                        assert(close_time_cuttable(ms[i as int].close_time@));
                    }
                    assert(has_market(ms, tok.token_id@));
                    let c = choose|c: int| 0 <= c < ms.len() && #[trigger] ms[c].token_id@ == tok.token_id@;
                    assert(ms[c].token_id@ == ms[i as int].token_id@);
                    assert(c == i as int);
                }
                (
                    m.condition_id.clone(),
                    m.close_time.clone(),
                    m.asset.clone(),
                    m.timeframe.clone(),
                    m.side.clone(),
                )
            },
            None => (
                tok.condition_id.clone(),
                String::from_str("?"),
                String::from_str("?"),
                tok.timeframe.clone(),
                String::from_str("?"),
            ),
        };
        let ghost f = token_fields(ms, ts[k as int]);
        assert(cid@ == f.0 && close_raw@ == f.1 && asset@ == f.2 && timeframe@ == f.3 && side@ == f.4);
        proof {
            if mi is None {
                reveal_with_fuel(vstd::utf8::encode_utf8, 2);
                assert(close_time_cuttable(seq!['?']));
            }
        }
        if str_eq(timeframe.as_str(), "5m") || str_eq(timeframe.as_str(), "15m") {
            let ghost prev = row_views(rows@);
            let sv = side_of(tok);
            let is_up = str_eq(side.as_str(), "UP");
            let is_down = str_eq(side.as_str(), "DOWN");
            let ghost tid = ts[k as int].token_id@;
            assert(sv.token_id@ == tid);
            assert(is_up == (f.4 == seq!['U', 'P']));
            assert(is_down == (f.4 == seq!['D', 'O', 'W', 'N']));
            let idx = find_row(&rows, &cid);
            match idx {
                Some(i) => {
                    proof {
                        assert(has_row(prev, f.0));
                        let s = row_slot(prev, f.0);
                        assert(s == i as int);
                    }
                    let ghost rows_before = rows@;
                    if is_up {
                        rows[i].up = Some(sv);
                    } else if is_down {
                        rows[i].down = Some(sv);
                    }
                    proof {
                        let b = prev[i as int];
                        assert(b == rows_before[i as int]@);
                        let filed = if is_up {
                            RowView { up: Some(tid), ..b }
                        } else if is_down {
                            RowView { down: Some(tid), ..b }
                        } else {
                            b
                        };
                        assert(rows@[i as int]@ == filed);
                        assert(row_views(rows@) =~= prev.update(i as int, filed));
                    }
                },
                None => {
                    let close_time = format_close_time_compact(close_raw.as_str());
                    let mut row = MarketRow {
                        close_time,
                        asset,
                        timeframe,
                        condition_id: cid,
                        up: None,
                        down: None,
                    };
                    if is_up {
                        row.up = Some(sv);
                    } else if is_down {
                        row.down = Some(sv);
                    }
                    rows.push(row);
                },
            }
            proof {
                assert(row_views(rows@) =~= file_token(prev, ms, ts[k as int]));
            }
        }
        k = k + 1;
    }
    proof {
        assert(ts.take(ts.len() as int) =~= ts);
    }
    rows
}

// ── Ordering (code) ──────────────────────────────────────────────────────────

fn row_before_exec<F>(a: &MarketRow<F>, b: &MarketRow<F>) -> (r: bool)
    ensures
        r == row_before(a@, b@),
{
    if text_lt_exec(a.close_time.as_str(), b.close_time.as_str()) {
        return true;
    }
    if !str_eq(a.close_time.as_str(), b.close_time.as_str()) {
        return false;
    }
    let ra = timeframe_rank_minutes(a.timeframe.as_str());
    let rb = timeframe_rank_minutes(b.timeframe.as_str());
    if ra < rb {
        return true;
    }
    if ra != rb {
        return false;
    }
    text_lt_exec(a.condition_id.as_str(), b.condition_id.as_str())
}

pub open spec fn ids_unique<F>(rs: Seq<MarketRow<F>>) -> bool {
    forall|i: int, j: int|
        0 <= i < rs.len() && 0 <= j < rs.len() && i != j ==> #[trigger] rs[i].condition_id@
            != #[trigger] rs[j].condition_id@
}

pub open spec fn in_order<F>(rs: Seq<MarketRow<F>>) -> bool {
    forall|i: int, j: int| 0 <= i < j < rs.len() ==> row_before(#[trigger] rs[i]@, #[trigger] rs[j]@)
}

proof fn lemma_insert_keeps_order<F>(out0: Seq<MarketRow<F>>, pos: int, x: MarketRow<F>)
    requires
        0 <= pos <= out0.len(),
        in_order(out0),
        forall|k: int| 0 <= k < pos ==> row_before(#[trigger] out0[k]@, x@),
        forall|k: int| pos <= k < out0.len() ==> row_before(x@, #[trigger] out0[k]@),
    ensures
        in_order(out0.insert(pos, x)),
{
    let o = out0.insert(pos, x);
    out0.insert_ensures(pos, x);
    assert forall|i: int, j: int| 0 <= i < j < o.len() implies row_before(
        #[trigger] o[i]@,
        #[trigger] o[j]@,
    ) by {
        if j < pos {
            assert(o[i] == out0[i] && o[j] == out0[j]);
        } else if j == pos {
            assert(o[i] == out0[i]);
        } else if i < pos {
            assert(o[i] == out0[i] && o[j] == out0[j - 1]);
            lemma_row_before_trans(out0[i]@, x@, out0[j - 1]@);
        } else if i == pos {
            assert(o[j] == out0[j - 1]);
        } else {
            assert(o[i] == out0[i - 1] && o[j] == out0[j - 1]);
        }
    }
}

proof fn lemma_move_keeps_ids<F>(rest0: Seq<MarketRow<F>>, out0: Seq<MarketRow<F>>, pos: int)
    requires
        rest0.len() > 0,
        0 <= pos <= out0.len(),
        ids_unique(rest0 + out0),
    ensures
        ids_unique(rest0.drop_last() + out0.insert(pos, rest0.last())),
{
    let x = rest0.last();
    let o = out0.insert(pos, x);
    out0.insert_ensures(pos, x);
    let rest = rest0.drop_last();
    let c0 = rest0 + out0;
    let c = rest + o;
    let ri = rest.len();
    assert forall|i: int, j: int|
        0 <= i < c.len() && 0 <= j < c.len() && i != j implies #[trigger] c[i].condition_id@
        != #[trigger] c[j].condition_id@ by {
        let pi: int = if i < ri {
            i
        } else if i - ri < pos {
            rest0.len() + (i - ri)
        } else if i - ri == pos {
            rest0.len() - 1
        } else {
            rest0.len() + (i - ri) - 1
        };
        let pj: int = if j < ri {
            j
        } else if j - ri < pos {
            rest0.len() + (j - ri)
        } else if j - ri == pos {
            rest0.len() - 1
        } else {
            rest0.len() + (j - ri) - 1
        };
        assert(c[i] == c0[pi]);
        assert(c[j] == c0[pj]);
    }
}

proof fn lemma_move_keeps_multiset<F>(rest0: Seq<MarketRow<F>>, out0: Seq<MarketRow<F>>, pos: int)
    requires
        rest0.len() > 0,
        0 <= pos <= out0.len(),
    ensures
        out0.insert(pos, rest0.last()).to_multiset().add(rest0.drop_last().to_multiset())
            == out0.to_multiset().add(rest0.to_multiset()),
{
    let x = rest0.last();
    assert(rest0 =~= rest0.drop_last().push(x));
    assert(out0.insert(pos, x).to_multiset() == out0.to_multiset().insert(x));
    assert(rest0.drop_last().push(x).to_multiset() == rest0.drop_last().to_multiset().insert(x));
    assert(out0.insert(pos, x).to_multiset().add(rest0.drop_last().to_multiset())
        =~= out0.to_multiset().add(rest0.to_multiset()));
}

/// Insertion sort by [`row_before`]; rows are moved, not copied.
fn sort_rows<F>(rows: Vec<MarketRow<F>>, Ghost(tokens): Ghost<Seq<ClobTokenStats<F>>>) -> (r: Vec<MarketRow<F>>)
    requires
        ids_unique(rows@),
        forall|k: int| 0 <= k < rows@.len() ==> sides_match(#[trigger] rows@[k], tokens),
    ensures
        in_order(r@),
        r@.to_multiset() == rows@.to_multiset(),
        forall|k: int| 0 <= k < r@.len() ==> sides_match(#[trigger] r@[k], tokens),
{
    let ghost orig = rows@;
    let mut rest = rows;
    let mut out: Vec<MarketRow<F>> = Vec::new();
    while rest.len() > 0
        invariant
            ids_unique(rest@ + out@),
            in_order(out@),
            out@.to_multiset().add(rest@.to_multiset()) == orig.to_multiset(),
            forall|k: int| 0 <= k < rest@.len() ==> sides_match(#[trigger] rest@[k], tokens),
            forall|k: int| 0 <= k < out@.len() ==> sides_match(#[trigger] out@[k], tokens),
        decreases rest@.len(),
    {
        let ghost rest0 = rest@;
        let ghost out0 = out@;
        let x = rest.pop().unwrap();
        proof {
            assert(rest0 =~= rest@.push(x));
            assert(rest@ == rest0.drop_last());
            assert(x == rest0.last());
            assert(rest0[rest0.len() - 1] == x);
            assert forall|k: int| 0 <= k < out0.len() implies #[trigger] out0[k].condition_id@
                != x.condition_id@ by {
                let c = rest0 + out0;
                assert(c[rest0.len() - 1] == x);
                assert(c[rest0.len() + k] == out0[k]);
            }
        }
        let mut pos: usize = 0;
        while pos < out.len() && !row_before_exec(&x, &out[pos])
            invariant
                out@ == out0,
                pos <= out0.len(),
                forall|k: int| 0 <= k < pos ==> !row_before(x@, #[trigger] out0[k]@),
            decreases out0.len() - pos,
        {
            pos = pos + 1;
        }
        proof {
            assert forall|k: int| 0 <= k < pos implies row_before(#[trigger] out0[k]@, x@) by {
                assert(out0[k].condition_id@ != x.condition_id@);
                lemma_row_before_total(out0[k]@, x@);
            }
            assert forall|k: int| pos <= k < out0.len() implies row_before(x@, #[trigger] out0[k]@) by {
                assert(row_before(x@, out0[pos as int]@));
                if k > pos {
                    assert(row_before(out0[pos as int]@, out0[k]@));
                    lemma_row_before_trans(x@, out0[pos as int]@, out0[k]@);
                }
            }
        }
        out.insert(pos, x);
        proof {
            lemma_insert_keeps_order(out0, pos as int, x);
            lemma_move_keeps_ids(rest0, out0, pos as int);
            lemma_move_keeps_multiset(rest0, out0, pos as int);
            let o = out@;
            out0.insert_ensures(pos as int, x);
            assert forall|k: int| 0 <= k < o.len() implies sides_match(#[trigger] o[k], tokens) by {
                if k < pos {
                    assert(o[k] == out0[k]);
                } else if k > pos {
                    assert(o[k] == out0[k - 1]);
                }
            }
        }
    }
    proof {
        assert(rest@.to_multiset() =~= Multiset::empty());
        assert(out@.to_multiset().add(Multiset::empty()) =~= out@.to_multiset());
    }
    out
}

/// Some row of `rs` reads `v`.
pub open spec fn shows_row<F>(rs: Seq<MarketRow<F>>, v: RowView) -> bool {
    exists|k: int| 0 <= k < rs.len() && #[trigger] rs[k]@ == v
}

/// The dashboard rows of `state`: one per round market of the `5m` and `15m`
/// timeframes (timeframe, asset, condition and close time from the directory
/// when the token is filed there), with the statistics of its UP and DOWN
/// tokens, listed by close time, then timeframe rank, then condition id.
pub fn build_clob_market_rows<F: Copy>(state: &ClobUiState<F>) -> (r: Vec<MarketRow<F>>)
    requires
        state.wf(),
        close_times_cuttable(state.markets@),
    ensures
        rows_in_order(row_views(r@)),
        r@.len() == gather_rows(state.tokens@, state.markets@).len(),
        forall|k: int|
            0 <= k < r@.len() ==> gather_rows(state.tokens@, state.markets@).contains(
                #[trigger] r@[k]@,
            ),
        forall|j: int|
            0 <= j < gather_rows(state.tokens@, state.markets@).len() ==> shows_row(
                r@,
                #[trigger] gather_rows(state.tokens@, state.markets@)[j],
            ),
        forall|k: int| 0 <= k < r@.len() ==> sides_match(#[trigger] r@[k], state.tokens@),
        forall|k: int|
            0 <= k < r@.len() ==> ((#[trigger] r@[k]).up matches Some(s) ==> s.best_bid == token_entry(
                state.tokens@,
                s.token_id@,
            ).best_bid && s.best_ask == token_entry(state.tokens@, s.token_id@).best_ask),
        forall|k: int|
            0 <= k < r@.len() ==> ((#[trigger] r@[k]).down matches Some(s) ==> s.best_bid == token_entry(
                state.tokens@,
                s.token_id@,
            ).best_bid && s.best_ask == token_entry(state.tokens@, s.token_id@).best_ask),
        forall|k: int|
            0 <= k < r@.len() ==> ((#[trigger] r@[k]).up matches Some(s) ==> token_filed_as(
                state.tokens@,
                state.markets@,
                r@[k].condition_id@,
                s.token_id@,
                seq!['U', 'P'],
            )),
        forall|k: int|
            0 <= k < r@.len() ==> ((#[trigger] r@[k]).down matches Some(s) ==> token_filed_as(
                state.tokens@,
                state.markets@,
                r@[k].condition_id@,
                s.token_id@,
                seq!['D', 'O', 'W', 'N'],
            )),
{
    let rows = gather_market_rows(state);
    let ghost g = gather_rows(state.tokens@, state.markets@);
    let ghost before = rows@;
    proof {
        lemma_gather_rows_unique(state.tokens@, state.markets@);
        assert forall|i: int, j: int|
            0 <= i < before.len() && 0 <= j < before.len() && i != j implies #[trigger] before[i].condition_id@
            != #[trigger] before[j].condition_id@ by {
            assert(row_views(before)[i] == before[i]@);
            assert(row_views(before)[j] == before[j]@);
            assert(g[i].condition_id != g[j].condition_id);
        }
    }
    let r = sort_rows(rows, Ghost(state.tokens@));
    proof {
        assert(r@.len() == r@.to_multiset().len());
        assert(before.len() == before.to_multiset().len());
        assert forall|i: int, j: int| 0 <= i < j < row_views(r@).len() implies row_before(
            #[trigger] row_views(r@)[i],
            #[trigger] row_views(r@)[j],
        ) by {
            assert(row_before(r@[i]@, r@[j]@));
        }
        assert forall|k: int| 0 <= k < r@.len() implies g.contains(#[trigger] r@[k]@) by {
            assert(r@.to_multiset().count(r@[k]) > 0);
            assert(before.contains(r@[k]));
            let j = choose|j: int| 0 <= j < before.len() && before[j] == r@[k];
            assert(g[j] == before[j]@);
        }
        assert forall|j: int| 0 <= j < g.len() implies shows_row(r@, #[trigger] g[j]) by {
            assert(g[j] == before[j]@);
            assert(before.to_multiset().count(before[j]) > 0);
            assert(r@.contains(before[j]));
            let k = choose|k: int| 0 <= k < r@.len() && r@[k] == before[j];
            assert(r@[k]@ == g[j]);
        }
        lemma_row_sides_are_filed_sides(state.tokens@, state.markets@);
        assert forall|k: int| 0 <= k < r@.len() implies ((#[trigger] r@[k]).up matches Some(s) ==> token_filed_as(
            state.tokens@,
            state.markets@,
            r@[k].condition_id@,
            s.token_id@,
            seq!['U', 'P'],
        )) && (r@[k].down matches Some(s) ==> token_filed_as(
            state.tokens@,
            state.markets@,
            r@[k].condition_id@,
            s.token_id@,
            seq!['D', 'O', 'W', 'N'],
        )) by {
            assert(g.contains(r@[k]@));
            let j = choose|j: int| 0 <= j < g.len() && g[j] == r@[k]@;
            assert(g[j] == r@[k]@);
        }
        assert forall|k: int| 0 <= k < r@.len() implies ((#[trigger] r@[k]).up matches Some(s) ==> s.best_bid
            == token_entry(state.tokens@, s.token_id@).best_bid && s.best_ask == token_entry(
            state.tokens@,
            s.token_id@,
        ).best_ask) && (r@[k].down matches Some(s) ==> s.best_bid == token_entry(state.tokens@, s.token_id@).best_bid
            && s.best_ask == token_entry(state.tokens@, s.token_id@).best_ask) by {
            lemma_row_sides_show_token_quotes(r@[k], state.tokens@);
        }
    }
    r
}

} // verus!
