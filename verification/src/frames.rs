//! What the WebSocket server tells a client: its subscription (assets and
//! timeframes) and, per subscribed round market, the top of both outcome books.

use vstd::prelude::*;

use crate::clob_state::{
    find_token_index, has_token, lemma_token_entry_at, is_down_side, is_up_side, token_entry, token_keys_unique,
    ClobTokenStats, ClobUiState, MarketMeta,
};
use crate::models::{spec_direction_name, RoundDirection};
use crate::text::{
    eq_ignore_ascii_case, to_lowercase, to_uppercase, unicode_lowercase, unicode_uppercase,
};

verus! {

/// `"UP"` or `"DOWN"`, the direction as a signal carries it.
pub fn direction_to_str(d: &RoundDirection) -> (s: &'static str)
    ensures
        s@ == spec_direction_name(*d),
{
    proof {
        reveal_strlit("UP");
        reveal_strlit("DOWN");
    }
    match d {
        RoundDirection::Up => "UP",
        RoundDirection::Down => "DOWN",
    }
}

// ── Subscriptions ────────────────────────────────────────────────────────────

/// Some entry of `v` reads `x`.
pub open spec fn holds(v: Seq<String>, x: Seq<char>) -> bool {
    exists|i: int| 0 <= i < v.len() && #[trigger] v[i]@ == x
}

/// No text occurs twice in `v`.
pub open spec fn distinct_texts(v: Seq<String>) -> bool {
    forall|i: int, j: int|
        0 <= i < v.len() && 0 <= j < v.len() && i != j ==> #[trigger] v[i]@ != #[trigger] v[j]@
}

/// `x` is the normal form (upper case when `upper`, else lower case) of an entry of `v`.
pub open spec fn normal_of(v: Seq<String>, upper: bool, x: Seq<char>) -> bool {
    exists|i: int|
        0 <= i < v.len() && x == (if upper {
            unicode_uppercase(#[trigger] v[i]@)
        } else {
            unicode_lowercase(v[i]@)
        })
}

/// The assets (upper case) and timeframes (lower case) a client follows, each once.
pub struct ClientSub {
    pub assets: Vec<String>,
    pub timeframes: Vec<String>,
}

impl ClientSub {
    pub open spec fn wf(&self) -> bool {
        distinct_texts(self.assets@) && distinct_texts(self.timeframes@)
    }

    /// Markets of `asset` and `timeframe` are sent to the client.
    pub open spec fn spec_covers(&self, asset: Seq<char>, timeframe: Seq<char>) -> bool {
        holds(self.assets@, unicode_uppercase(asset)) && holds(
            self.timeframes@,
            unicode_lowercase(timeframe),
        )
    }
}

/// A new client follows `BTC` in the `5m` and `15m` timeframes.
impl Default for ClientSub {
    fn default() -> (s: Self)
        ensures
            s.wf(),
            s.assets@.len() == 1,
            s.assets@[0]@ == "BTC"@,
            s.timeframes@.len() == 2,
            s.timeframes@[0]@ == "5m"@,
            s.timeframes@[1]@ == "15m"@,
    {
        proof {
            reveal_strlit("BTC");
            reveal_strlit("5m");
            reveal_strlit("15m");
        }
        let mut assets: Vec<String> = Vec::new();
        assets.push(String::from_str("BTC"));
        let mut timeframes: Vec<String> = Vec::new();
        timeframes.push(String::from_str("5m"));
        timeframes.push(String::from_str("15m"));
        proof {
            assert(timeframes@[0]@.len() != timeframes@[1]@.len());
        }
        ClientSub { assets, timeframes }
    }
}

fn holds_exec(v: &Vec<String>, x: &String) -> (r: bool)
    ensures
        r == holds(v@, x@),
{
    let mut i: usize = 0;
    while i < v.len()
        invariant
            i <= v@.len(),
            forall|k: int| 0 <= k < i ==> v@[k]@ != x@,
        decreases v@.len() - i,
    {
        if v[i] == *x {
            return true;
        }
        i = i + 1;
    }
    false
}

/// The normal forms of the entries of `v`, each once, in order of first appearance.
fn normalized(v: &Vec<String>, upper: bool) -> (r: Vec<String>)
    ensures
        distinct_texts(r@),
        forall|x: Seq<char>| holds(r@, x) <==> normal_of(v@, upper, x),
{
    let mut out: Vec<String> = Vec::new();
    let mut k: usize = 0;
    while k < v.len()
        invariant
            k <= v@.len(),
            distinct_texts(out@),
            forall|x: Seq<char>| holds(out@, x) <==> normal_of(v@.take(k as int), upper, x),
        decreases v@.len() - k,
    {
        let n = if upper {
            to_uppercase(v[k].as_str())
        } else {
            to_lowercase(v[k].as_str())
        };
        let ghost before = out@;
        let seen = holds_exec(&out, &n);
        if !seen {
            out.push(n);
        }
        proof {
            let vk = v@.take(k + 1);
            assert forall|x: Seq<char>| holds(out@, x) <==> normal_of(vk, upper, x) by {
                if holds(out@, x) {
                    let i = choose|i: int| 0 <= i < out@.len() && #[trigger] out@[i]@ == x;
                    if i < before.len() {
                        assert(holds(before, x));
                        let j = choose|j: int|
                            0 <= j < k && x == (if upper {
                                unicode_uppercase(#[trigger] v@.take(k as int)[j]@)
                            } else {
                                unicode_lowercase(v@.take(k as int)[j]@)
                            });
                        assert(vk[j] == v@.take(k as int)[j]);
                    } else {
                        assert(vk[k as int] == v@[k as int]);
                    }
                }
                if normal_of(vk, upper, x) {
                    let j = choose|j: int|
                        0 <= j < vk.len() && x == (if upper {
                            unicode_uppercase(#[trigger] vk[j]@)
                        } else {
                            unicode_lowercase(vk[j]@)
                        });
                    if j < k {
                        assert(vk[j] == v@.take(k as int)[j]);
                        assert(normal_of(v@.take(k as int), upper, x));
                        assert(holds(before, x));
                        let i = choose|i: int| 0 <= i < before.len() && #[trigger] before[i]@ == x;
                        assert(out@[i] == before[i]);
                    } else {
                        assert(vk[j] == v@[k as int]);
                        if seen {
                            assert(holds(out@, x));
                        } else {
                            assert(out@[before.len() as int]@ == x);
                        }
                    }
                }
            }
        }
        k = k + 1;
    }
    proof {
        assert(v@.take(v@.len() as int) =~= v@);
    }
    out
}

impl ClientSub {
    /// A subscribe message: a non-empty asset list replaces the assets (upper-cased,
    /// each once), a non-empty timeframe list replaces the timeframes
    /// (lower-cased, each once); an empty list leaves its part as it was.
    pub fn apply_subscribe(&mut self, assets: &Vec<String>, timeframes: &Vec<String>)
        requires
            old(self).wf(),
        ensures
            final(self).wf(),
            assets@.len() == 0 ==> final(self).assets@ == old(self).assets@,
            assets@.len() > 0 ==> forall|x: Seq<char>|
                holds(final(self).assets@, x) <==> normal_of(assets@, true, x),
            timeframes@.len() == 0 ==> final(self).timeframes@ == old(self).timeframes@,
            timeframes@.len() > 0 ==> forall|x: Seq<char>|
                holds(final(self).timeframes@, x) <==> normal_of(timeframes@, false, x),
    {
        if assets.len() > 0 {
            self.assets = normalized(assets, true);
        }
        if timeframes.len() > 0 {
            self.timeframes = normalized(timeframes, false);
        }
    }

    /// Whether markets of `asset` and `timeframe` go to this client.
    pub fn covers(&self, asset: &str, timeframe: &str) -> (r: bool)
        ensures
            r == self.spec_covers(asset@, timeframe@),
    {
        let a = to_uppercase(asset);
        let t = to_lowercase(timeframe);
        holds_exec(&self.assets, &a) && holds_exec(&self.timeframes, &t)
    }
}

// ── Condition frames (specification) ─────────────────────────────────────────

/// One market (condition) as gathered from the directory.
pub struct ConditionView {
    pub condition_id: Seq<char>,
    pub timeframe: Seq<char>,
    pub close_time: Seq<char>,
    pub yes: Seq<char>,
    pub no: Seq<char>,
}

pub open spec fn has_condition(cs: Seq<ConditionView>, cid: Seq<char>) -> bool {
    exists|i: int| 0 <= i < cs.len() && #[trigger] cs[i].condition_id == cid
}

pub open spec fn condition_slot(cs: Seq<ConditionView>, cid: Seq<char>) -> int {
    choose|i: int| 0 <= i < cs.len() && #[trigger] cs[i].condition_id == cid
}

/// Files a directory entry under its condition: its timeframe and close time
/// replace the condition's, and an `UP` (`DOWN`) entry, in any ASCII case, sets
/// the yes (no) token. A new condition starts with empty texts.
pub open spec fn file_market<F>(cs: Seq<ConditionView>, m: MarketMeta<F>) -> Seq<ConditionView> {
    let found = has_condition(cs, m.condition_id@);
    let base = if found {
        cs[condition_slot(cs, m.condition_id@)]
    } else {
        ConditionView {
            condition_id: m.condition_id@,
            timeframe: Seq::empty(),
            close_time: Seq::empty(),
            yes: Seq::empty(),
            no: Seq::empty(),
        }
    };
    let dated = ConditionView { timeframe: m.timeframe@, close_time: m.close_time@, ..base };
    let filed = if is_up_side(m.side@) {
        ConditionView { yes: m.token_id@, ..dated }
    } else if is_down_side(m.side@) {
        ConditionView { no: m.token_id@, ..dated }
    } else {
        dated
    };
    if found {
        cs.update(condition_slot(cs, m.condition_id@), filed)
    } else {
        cs.push(filed)
    }
}

pub open spec fn covered_by<F>(assets: Seq<String>, timeframes: Seq<String>, m: MarketMeta<F>) -> bool {
    holds(assets, unicode_uppercase(m.asset@)) && holds(timeframes, unicode_lowercase(m.timeframe@))
}

/// The conditions of the covered directory entries, in order of first appearance.
pub open spec fn gather_conditions<F>(
    ms: Seq<MarketMeta<F>>,
    assets: Seq<String>,
    timeframes: Seq<String>,
) -> Seq<ConditionView>
    decreases ms.len(),
{
    if ms.len() == 0 {
        Seq::empty()
    } else {
        let prev = gather_conditions(ms.drop_last(), assets, timeframes);
        if covered_by(assets, timeframes, ms.last()) {
            file_market(prev, ms.last())
        } else {
            prev
        }
    }
}

/// Both tokens are named and both have statistics.
pub open spec fn condition_complete<F>(c: ConditionView, tokens: Seq<ClobTokenStats<F>>) -> bool {
    &&& c.yes.len() > 0
    &&& c.no.len() > 0
    &&& has_token(tokens, c.yes)
    &&& has_token(tokens, c.no)
}

/// The complete conditions of `cs`, in order.
pub open spec fn complete_conditions<F>(cs: Seq<ConditionView>, tokens: Seq<ClobTokenStats<F>>) -> Seq<
    ConditionView,
>
    decreases cs.len(),
{
    if cs.len() == 0 {
        Seq::empty()
    } else {
        let prev = complete_conditions(cs.drop_last(), tokens);
        if condition_complete(cs.last(), tokens) {
            prev.push(cs.last())
        } else {
            prev
        }
    }
}

/// Best quotes and top levels of one outcome book.
pub struct BookTop<F> {
    pub best_bid: Option<F>,
    pub best_ask: Option<F>,
    pub spread: Option<F>,
    pub bids: Vec<(F, F)>,
    pub asks: Vec<(F, F)>,
}

/// One subscribed round market with both books.
pub struct ConditionFrame<F> {
    pub condition_id: String,
    pub timeframe: String,
    pub close_time: String,
    pub token_yes_id: String,
    pub token_no_id: String,
    pub yes: BookTop<F>,
    pub no: BookTop<F>,
}

pub open spec fn top_of<F>(b: BookTop<F>, t: ClobTokenStats<F>) -> bool {
    &&& b.best_bid == t.best_bid
    &&& b.best_ask == t.best_ask
    &&& b.spread == t.spread
    &&& b.bids@ == t.bid_ladder@
    &&& b.asks@ == t.ask_ladder@
}

pub open spec fn frame_of<F>(f: ConditionFrame<F>, c: ConditionView, tokens: Seq<ClobTokenStats<F>>) -> bool {
    &&& f.condition_id@ == c.condition_id
    &&& f.timeframe@ == c.timeframe
    &&& f.close_time@ == c.close_time
    &&& f.token_yes_id@ == c.yes
    &&& f.token_no_id@ == c.no
    &&& top_of(f.yes, token_entry(tokens, c.yes))
    &&& top_of(f.no, token_entry(tokens, c.no))
}

/// A covered directory entry files token `id` on the given side of condition `cid`.
pub open spec fn entry_files<F>(
    ms: Seq<MarketMeta<F>>,
    assets: Seq<String>,
    timeframes: Seq<String>,
    cid: Seq<char>,
    id: Seq<char>,
    up: bool,
) -> bool {
    exists|k: int|
        0 <= k < ms.len() && covered_by(assets, timeframes, #[trigger] ms[k]) && ms[k].condition_id@ == cid
            && ms[k].token_id@ == id && (if up {
            is_up_side(ms[k].side@)
        } else {
            is_down_side(ms[k].side@)
        })
}

proof fn lemma_condition_sides_filed<F>(ms: Seq<MarketMeta<F>>, assets: Seq<String>, timeframes: Seq<String>)
    ensures
        forall|i: int|
            0 <= i < gather_conditions(ms, assets, timeframes).len() ==> {
                let c = #[trigger] gather_conditions(ms, assets, timeframes)[i];
                &&& (c.yes.len() > 0 ==> entry_files(ms, assets, timeframes, c.condition_id, c.yes, true))
                &&& (c.no.len() > 0 ==> entry_files(ms, assets, timeframes, c.condition_id, c.no, false))
            },
    decreases ms.len(),
{
    if ms.len() > 0 {
        let init = ms.drop_last();
        lemma_condition_sides_filed(init, assets, timeframes);
        let prev = gather_conditions(init, assets, timeframes);
        let cs = gather_conditions(ms, assets, timeframes);
        let m = ms.last();
        let last = ms.len() - 1;
        assert(ms[last] == m);
        assert forall|cid: Seq<char>, id: Seq<char>, up: bool|
            entry_files(init, assets, timeframes, cid, id, up) implies entry_files(ms, assets, timeframes, cid, id, up) by {
            let k = choose|k: int|
                0 <= k < init.len() && covered_by(assets, timeframes, #[trigger] init[k])
                    && init[k].condition_id@ == cid && init[k].token_id@ == id && (if up {
                    is_up_side(init[k].side@)
                } else {
                    is_down_side(init[k].side@)
                });
            assert(ms[k] == init[k]);
        }
        assert forall|i: int| 0 <= i < cs.len() implies {
            let c = #[trigger] cs[i];
            &&& (c.yes.len() > 0 ==> entry_files(ms, assets, timeframes, c.condition_id, c.yes, true))
            &&& (c.no.len() > 0 ==> entry_files(ms, assets, timeframes, c.condition_id, c.no, false))
        } by {
            if covered_by(assets, timeframes, m) {
                let found = has_condition(prev, m.condition_id@);
                let slot = if found {
                    condition_slot(prev, m.condition_id@)
                } else {
                    prev.len() as int
                };
                if i == slot {
                    if found {
                        assert(prev[slot].condition_id == m.condition_id@);
                        let p = prev[slot];
                        assert(p.yes.len() > 0 ==> entry_files(init, assets, timeframes, p.condition_id, p.yes, true));
                        assert(p.no.len() > 0 ==> entry_files(init, assets, timeframes, p.condition_id, p.no, false));
                    }
                    if is_up_side(m.side@) {
                        assert(entry_files(ms, assets, timeframes, m.condition_id@, m.token_id@, true)) by {
                            assert(ms[last] == m);
                        }
                    }
                    if is_down_side(m.side@) {
                        assert(entry_files(ms, assets, timeframes, m.condition_id@, m.token_id@, false)) by {
                            assert(ms[last] == m);
                        }
                    }
                } else {
                    assert(cs[i] == prev[i]);
                    let p = prev[i];
                    assert(p.yes.len() > 0 ==> entry_files(init, assets, timeframes, p.condition_id, p.yes, true));
                    assert(p.no.len() > 0 ==> entry_files(init, assets, timeframes, p.condition_id, p.no, false));
                }
            } else {
                let p = prev[i];
                assert(p.yes.len() > 0 ==> entry_files(init, assets, timeframes, p.condition_id, p.yes, true));
                assert(p.no.len() > 0 ==> entry_files(init, assets, timeframes, p.condition_id, p.no, false));
            }
        }
    }
}

proof fn lemma_complete_from<F>(cs: Seq<ConditionView>, tokens: Seq<ClobTokenStats<F>>)
    ensures
        forall|k: int|
            0 <= k < complete_conditions(cs, tokens).len() ==> exists|j: int|
                0 <= j < cs.len() && cs[j] == #[trigger] complete_conditions(cs, tokens)[k],
    decreases cs.len(),
{
    if cs.len() > 0 {
        let init = cs.drop_last();
        lemma_complete_from(init, tokens);
        let prev = complete_conditions(init, tokens);
        let out = complete_conditions(cs, tokens);
        assert forall|k: int| 0 <= k < out.len() implies exists|j: int|
            0 <= j < cs.len() && cs[j] == #[trigger] out[k] by {
            if k < prev.len() {
                assert(out[k] == prev[k]);
                let j = choose|j: int| 0 <= j < init.len() && init[j] == #[trigger] prev[k];
                assert(cs[j] == init[j]);
            } else {
                assert(out[k] == cs[cs.len() - 1]);
            }
        }
    }
}

/// The YES token of every frame is filed in the directory as the `UP` side of
/// the frame's condition, and its NO token as the `DOWN` side, both by entries
/// the subscription covers: the two sides are never exchanged.
pub proof fn lemma_frame_sides_are_filed_sides<F>(
    ms: Seq<MarketMeta<F>>,
    assets: Seq<String>,
    timeframes: Seq<String>,
    tokens: Seq<ClobTokenStats<F>>,
)
    ensures
        forall|k: int|
            0 <= k < complete_conditions(gather_conditions(ms, assets, timeframes), tokens).len() ==> {
                let c = #[trigger] complete_conditions(gather_conditions(ms, assets, timeframes), tokens)[k];
                &&& entry_files(ms, assets, timeframes, c.condition_id, c.yes, true)
                &&& entry_files(ms, assets, timeframes, c.condition_id, c.no, false)
            },
{
    let g = gather_conditions(ms, assets, timeframes);
    lemma_condition_sides_filed(ms, assets, timeframes);
    lemma_complete_from(g, tokens);
    lemma_complete_only_complete(g, tokens);
    assert forall|k: int| 0 <= k < complete_conditions(g, tokens).len() implies {
        let c = #[trigger] complete_conditions(g, tokens)[k];
        &&& entry_files(ms, assets, timeframes, c.condition_id, c.yes, true)
        &&& entry_files(ms, assets, timeframes, c.condition_id, c.no, false)
    } by {
        let c = complete_conditions(g, tokens)[k];
        let j = choose|j: int| 0 <= j < g.len() && g[j] == #[trigger] complete_conditions(g, tokens)[k];
        assert(g[j] == c);
        assert(condition_complete(c, tokens));
    }
}

proof fn lemma_complete_only_complete<F>(cs: Seq<ConditionView>, tokens: Seq<ClobTokenStats<F>>)
    ensures
        forall|k: int|
            0 <= k < complete_conditions(cs, tokens).len() ==> condition_complete(
                #[trigger] complete_conditions(cs, tokens)[k],
                tokens,
            ),
    decreases cs.len(),
{
    if cs.len() > 0 {
        lemma_complete_only_complete(cs.drop_last(), tokens);
        let prev = complete_conditions(cs.drop_last(), tokens);
        let out = complete_conditions(cs, tokens);
        assert forall|k: int| 0 <= k < out.len() implies condition_complete(#[trigger] out[k], tokens) by {
            if k < prev.len() {
                assert(out[k] == prev[k]);
            }
        }
    }
}

/// A frame shows each token's own book: the YES side carries the best quotes
/// and the bid and ask ladders filed under the YES token's id, bids as bids and
/// asks as asks, and the NO side those of the NO token.
pub proof fn lemma_frame_shows_token_books<F>(
    f: ConditionFrame<F>,
    c: ConditionView,
    tokens: Seq<ClobTokenStats<F>>,
)
    requires
        frame_of(f, c, tokens),
    ensures
        f.yes.best_bid == token_entry(tokens, f.token_yes_id@).best_bid,
        f.yes.best_ask == token_entry(tokens, f.token_yes_id@).best_ask,
        f.yes.bids@ == token_entry(tokens, f.token_yes_id@).bid_ladder@,
        f.yes.asks@ == token_entry(tokens, f.token_yes_id@).ask_ladder@,
        f.no.best_bid == token_entry(tokens, f.token_no_id@).best_bid,
        f.no.best_ask == token_entry(tokens, f.token_no_id@).best_ask,
        f.no.bids@ == token_entry(tokens, f.token_no_id@).bid_ladder@,
        f.no.asks@ == token_entry(tokens, f.token_no_id@).ask_ladder@,
{
}

pub open spec fn conditions_unique(cs: Seq<ConditionView>) -> bool {
    forall|i: int, j: int|
        0 <= i < cs.len() && 0 <= j < cs.len() && i != j ==> #[trigger] cs[i].condition_id
            != #[trigger] cs[j].condition_id
}

proof fn lemma_gather_unique<F>(ms: Seq<MarketMeta<F>>, assets: Seq<String>, timeframes: Seq<String>)
    ensures
        conditions_unique(gather_conditions(ms, assets, timeframes)),
    decreases ms.len(),
{
    if ms.len() > 0 {
        lemma_gather_unique(ms.drop_last(), assets, timeframes);
        let prev = gather_conditions(ms.drop_last(), assets, timeframes);
        let m = ms.last();
        if covered_by(assets, timeframes, m) && has_condition(prev, m.condition_id@) {
            let k = condition_slot(prev, m.condition_id@);
            assert(prev[k].condition_id == m.condition_id@);
        }
    }
}

// ── Condition frames (code) ──────────────────────────────────────────────────

struct CondAcc {
    condition_id: String,
    timeframe: String,
    close_time: String,
    yes: String,
    no: String,
}

impl View for CondAcc {
    type V = ConditionView;

    closed spec fn view(&self) -> ConditionView {
        ConditionView {
            condition_id: self.condition_id@,
            timeframe: self.timeframe@,
            close_time: self.close_time@,
            yes: self.yes@,
            no: self.no@,
        }
    }
}

spec fn accs_view(v: Seq<CondAcc>) -> Seq<ConditionView> {
    v.map_values(|c: CondAcc| c@)
}

fn find_condition(cs: &Vec<CondAcc>, cid: &String) -> (r: Option<usize>)
    ensures
        match r {
            Some(i) => i < cs@.len() && accs_view(cs@)[i as int].condition_id == cid@,
            None => !has_condition(accs_view(cs@), cid@),
        },
{
    let mut i: usize = 0;
    while i < cs.len()
        invariant
            i <= cs@.len(),
            forall|k: int| 0 <= k < i ==> accs_view(cs@)[k].condition_id != cid@,
        decreases cs@.len() - i,
    {
        if cs[i].condition_id == *cid {
            return Some(i);
        }
        i = i + 1;
    }
    None
}

fn gather<F>(ms: &Vec<MarketMeta<F>>, sub: &ClientSub) -> (r: Vec<CondAcc>)
    ensures
        accs_view(r@) == gather_conditions(ms@, sub.assets@, sub.timeframes@),
{
    let mut accs: Vec<CondAcc> = Vec::new();
    let mut k: usize = 0;
    while k < ms.len()
        invariant
            k <= ms@.len(),
            accs_view(accs@) == gather_conditions(ms@.take(k as int), sub.assets@, sub.timeframes@),
        decreases ms@.len() - k,
    {
        proof {
            assert(ms@.take(k + 1).drop_last() =~= ms@.take(k as int));
            assert(ms@.take(k + 1).last() == ms@[k as int]);
            lemma_gather_unique(ms@.take(k as int), sub.assets@, sub.timeframes@);
        }
        let m = &ms[k];
        if sub.covers(m.asset.as_str(), m.timeframe.as_str()) {
            let ghost prev = accs_view(accs@);
            let idx = find_condition(&accs, &m.condition_id);
            let mut c = match idx {
                Some(i) => CondAcc {
                    condition_id: accs[i].condition_id.clone(),
                    timeframe: m.timeframe.clone(),
                    close_time: m.close_time.clone(),
                    yes: accs[i].yes.clone(),
                    no: accs[i].no.clone(),
                },
                None => CondAcc {
                    condition_id: m.condition_id.clone(),
                    timeframe: m.timeframe.clone(),
                    close_time: m.close_time.clone(),
                    yes: String::new(),
                    no: String::new(),
                },
            };
            proof {
                match idx {
                    Some(i) => {
                        assert(has_condition(prev, m.condition_id@));
                        let s = condition_slot(prev, m.condition_id@);
                        assert(s == i as int);
                    },
                    None => {},
                }
            }
            if eq_ignore_ascii_case(m.side.as_str(), "UP") {
                c.yes = m.token_id.clone();
            } else if eq_ignore_ascii_case(m.side.as_str(), "DOWN") {
                c.no = m.token_id.clone();
            }
            match idx {
                Some(i) => {
                    accs.set(i, c);
                },
                None => {
                    accs.push(c);
                },
            }
            proof {
                assert(accs_view(accs@) =~= file_market(prev, ms@[k as int]));
            }
        }
        k = k + 1;
    }
    proof {
        assert(ms@.take(ms@.len() as int) =~= ms@);
    }
    accs
}

fn copy_ladder<F: Copy>(v: &Vec<(F, F)>) -> (r: Vec<(F, F)>)
    ensures
        r@ == v@,
{
    let mut out: Vec<(F, F)> = Vec::new();
    let mut i: usize = 0;
    while i < v.len()
        invariant
            i <= v@.len(),
            out@ == v@.take(i as int),
        decreases v@.len() - i,
    {
        out.push(v[i]);
        proof {
            assert(v@.take(i + 1) =~= v@.take(i as int).push(v@[i as int]));
        }
        i = i + 1;
    }
    proof {
        assert(v@.take(v@.len() as int) =~= v@);
    }
    out
}

fn book_top<F: Copy>(t: &ClobTokenStats<F>) -> (b: BookTop<F>)
    ensures
        top_of(b, *t),
{
    BookTop {
        best_bid: t.best_bid,
        best_ask: t.best_ask,
        spread: t.spread,
        bids: copy_ladder(&t.bid_ladder),
        asks: copy_ladder(&t.ask_ladder),
    }
}

/// The subscribed round markets that name both tokens, both with statistics,
/// each with the top of both books, in order of first appearance in the
/// market directory.
pub fn build_conditions<F: Copy>(clob: &ClobUiState<F>, sub: &ClientSub) -> (r: Vec<ConditionFrame<F>>)
    requires
        clob.wf(),
    ensures
        r@.len() == complete_conditions(
            gather_conditions(clob.markets@, sub.assets@, sub.timeframes@),
            clob.tokens@,
        ).len(),
        forall|k: int|
            0 <= k < r@.len() ==> frame_of(
                #[trigger] r@[k],
                complete_conditions(
                    gather_conditions(clob.markets@, sub.assets@, sub.timeframes@),
                    clob.tokens@,
                )[k],
                clob.tokens@,
            ),
        forall|k: int|
            0 <= k < r@.len() ==> {
                &&& (#[trigger] r@[k]).yes.bids@ == token_entry(clob.tokens@, r@[k].token_yes_id@).bid_ladder@
                &&& r@[k].yes.asks@ == token_entry(clob.tokens@, r@[k].token_yes_id@).ask_ladder@
                &&& r@[k].no.bids@ == token_entry(clob.tokens@, r@[k].token_no_id@).bid_ladder@
                &&& r@[k].no.asks@ == token_entry(clob.tokens@, r@[k].token_no_id@).ask_ladder@
            },
        forall|k: int|
            0 <= k < r@.len() ==> {
                &&& entry_files(
                    clob.markets@,
                    sub.assets@,
                    sub.timeframes@,
                    (#[trigger] r@[k]).condition_id@,
                    r@[k].token_yes_id@,
                    true,
                )
                &&& entry_files(
                    clob.markets@,
                    sub.assets@,
                    sub.timeframes@,
                    r@[k].condition_id@,
                    r@[k].token_no_id@,
                    false,
                )
            },
{
    let accs = gather(&clob.markets, sub);
    let ghost cs = accs_view(accs@);
    let mut out: Vec<ConditionFrame<F>> = Vec::new();
    let mut k: usize = 0;
    while k < accs.len()
        invariant
            k <= accs@.len(),
            cs == accs_view(accs@),
            token_keys_unique(clob.tokens@),
            out@.len() == complete_conditions(cs.take(k as int), clob.tokens@).len(),
            forall|j: int|
                0 <= j < out@.len() ==> frame_of(
                    #[trigger] out@[j],
                    complete_conditions(cs.take(k as int), clob.tokens@)[j],
                    clob.tokens@,
                ),
        decreases accs@.len() - k,
    {
        proof {
            assert(cs.take(k + 1).drop_last() =~= cs.take(k as int));
            assert(cs.take(k + 1).last() == cs[k as int]);
        }
        let a = &accs[k];
        let ghost c = cs[k as int];
        assert(c == a@);
        if !a.yes.as_str().is_empty() && !a.no.as_str().is_empty() {
            let yi = find_token_index(&clob.tokens, &a.yes);
            let ni = find_token_index(&clob.tokens, &a.no);
            match (yi, ni) {
                (Some(y), Some(n)) => {
                    proof {
                        lemma_token_entry_at(clob.tokens@, y as int, c.yes);
                        lemma_token_entry_at(clob.tokens@, n as int, c.no);
                    }
                    let f = ConditionFrame {
                        condition_id: a.condition_id.clone(),
                        timeframe: a.timeframe.clone(),
                        close_time: a.close_time.clone(),
                        token_yes_id: a.yes.clone(),
                        token_no_id: a.no.clone(),
                        yes: book_top(&clob.tokens[y]),
                        no: book_top(&clob.tokens[n]),
                    };
                    out.push(f);
                },
                _ => {},
            }
        }
        k = k + 1;
    }
    proof {
        assert(cs.take(cs.len() as int) =~= cs);
        assert forall|k: int| 0 <= k < out@.len() implies {
            &&& (#[trigger] out@[k]).yes.bids@ == token_entry(clob.tokens@, out@[k].token_yes_id@).bid_ladder@
            &&& out@[k].yes.asks@ == token_entry(clob.tokens@, out@[k].token_yes_id@).ask_ladder@
            &&& out@[k].no.bids@ == token_entry(clob.tokens@, out@[k].token_no_id@).bid_ladder@
            &&& out@[k].no.asks@ == token_entry(clob.tokens@, out@[k].token_no_id@).ask_ladder@
        } by {
            lemma_frame_shows_token_books(out@[k], complete_conditions(cs, clob.tokens@)[k], clob.tokens@);
        }
        lemma_frame_sides_are_filed_sides(clob.markets@, sub.assets@, sub.timeframes@, clob.tokens@);
        assert forall|k: int| 0 <= k < out@.len() implies {
            &&& entry_files(
                clob.markets@,
                sub.assets@,
                sub.timeframes@,
                (#[trigger] out@[k]).condition_id@,
                out@[k].token_yes_id@,
                true,
            )
            &&& entry_files(clob.markets@, sub.assets@, sub.timeframes@, out@[k].condition_id@, out@[k].token_no_id@, false)
        } by {
            let c = complete_conditions(cs, clob.tokens@)[k];
            assert(frame_of(out@[k], c, clob.tokens@));
        }
    }
    out
}


// ── Signals and frame numbering of a connection ──────────────────────────────

/// Kinds of the events broadcast to WebSocket clients.
#[derive(Clone, Copy, Debug, PartialEq, Eq, Structural)]
pub enum EventKind {
    Tick,
    RoundTriggered,
    RoundSettled,
    DeviationApproach,
    BbBreakout,
    PreTriggerAlert,
}

/// The `event_type` of the signal that an event adds to a frame; a tick adds none.
pub open spec fn spec_signal_name(k: EventKind) -> Option<Seq<char>> {
    match k {
        EventKind::Tick => None,
        EventKind::RoundTriggered => Some("round_triggered"@),
        EventKind::RoundSettled => Some("round_settled"@),
        EventKind::DeviationApproach => Some("deviation_approach"@),
        EventKind::BbBreakout => Some("bb_breakout"@),
        EventKind::PreTriggerAlert => Some("pre_trigger_alert"@),
    }
}

/// See [`spec_signal_name`].
pub fn signal_name(k: EventKind) -> (r: Option<&'static str>)
    ensures
        match r {
            Some(n) => spec_signal_name(k) == Some(n@),
            None => spec_signal_name(k) is None,
        },
{
    match k {
        EventKind::Tick => None,
        EventKind::RoundTriggered => Some("round_triggered"),
        EventKind::RoundSettled => Some("round_settled"),
        EventKind::DeviationApproach => Some("deviation_approach"),
        EventKind::BbBreakout => Some("bb_breakout"),
        EventKind::PreTriggerAlert => Some("pre_trigger_alert"),
    }
}

/// The frame numbering of one connection: `next` is the number the next frame gets.
pub struct FrameCounter {
    pub next: u64,
}

impl FrameCounter {
    /// A new connection: its first frame is number 0.
    pub fn new() -> (c: Self)
        ensures
            c.next == 0,
    {
        FrameCounter { next: 0 }
    }

    /// One event of the connection: when a frame is sent (`sends`), it gets the
    /// next number and the counter moves on by one; otherwise nothing changes.
    pub fn step(&mut self, sends: bool) -> (r: Option<u64>)
        requires
            sends ==> old(self).next < u64::MAX,
        ensures
            sends ==> r == Some(old(self).next) && final(self).next == old(self).next + 1,
            !sends ==> r is None && final(self).next == old(self).next,
    {
        if sends {
            let n = self.next;
            self.next = n + 1;
            Some(n)
        } else {
            None
        }
    }
}

/// Where a connection's counter stands after `events` (whether each event sent
/// a frame), starting from a new connection: one step of [`FrameCounter::step`] each.
pub open spec fn counter_after(events: Seq<bool>) -> int
    decreases events.len(),
{
    if events.len() == 0 {
        0
    } else {
        counter_after(events.drop_last()) + if events.last() {
            1int
        } else {
            0int
        }
    }
}

/// The numbers that the frames sent over `events` carry, in order: each sent
/// frame takes the counter as it stood before its event.
pub open spec fn frame_numbers(events: Seq<bool>) -> Seq<int>
    decreases events.len(),
{
    if events.len() == 0 {
        Seq::empty()
    } else if events.last() {
        frame_numbers(events.drop_last()).push(counter_after(events.drop_last()))
    } else {
        frame_numbers(events.drop_last())
    }
}

/// The frames of a connection are numbered 0, 1, 2, … in the order they are
/// sent, with no gap and no repeat, whatever events without a frame come in between.
pub proof fn lemma_frames_numbered_in_order(events: Seq<bool>)
    ensures
        frame_numbers(events).len() == counter_after(events),
        forall|k: int| 0 <= k < frame_numbers(events).len() ==> #[trigger] frame_numbers(events)[k] == k,
    decreases events.len(),
{
    if events.len() > 0 {
        lemma_frames_numbered_in_order(events.drop_last());
    }
}

} // verus!
