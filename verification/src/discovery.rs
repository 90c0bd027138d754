//! Discovery of the live round markets: reading a market listing of the
//! discovery API into token records, and keeping one record per token.

use vstd::prelude::*;

verus! {

/// One outcome token of a round market.
pub struct TokenRec {
    pub condition_id: String,
    pub token_id: String,
    pub asset: String,
    pub timeframe: String,
    pub close_time: String,
    /// `UP` for the first token of a market, `DOWN` for the second.
    pub side: String,
}

pub struct TokenRecView {
    pub condition_id: Seq<char>,
    pub token_id: Seq<char>,
    pub asset: Seq<char>,
    pub timeframe: Seq<char>,
    pub close_time: Seq<char>,
    pub side: Seq<char>,
}

impl View for TokenRec {
    type V = TokenRecView;

    open spec fn view(&self) -> TokenRecView {
        TokenRecView {
            condition_id: self.condition_id@,
            token_id: self.token_id@,
            asset: self.asset@,
            timeframe: self.timeframe@,
            close_time: self.close_time@,
            side: self.side@,
        }
    }
}

pub open spec fn rec_views(v: Seq<TokenRec>) -> Seq<TokenRecView> {
    v.map_values(|r: TokenRec| r@)
}

fn clone_rec(t: &TokenRec) -> (r: TokenRec)
    ensures
        r@ == t@,
{
    TokenRec {
        condition_id: t.condition_id.clone(),
        token_id: t.token_id.clone(),
        asset: t.asset.clone(),
        timeframe: t.timeframe.clone(),
        close_time: t.close_time.clone(),
        side: t.side.clone(),
    }
}

// ── Market listings ──────────────────────────────────────────────────────────

/// A field of a JSON object, as far as the discovery logic reads it.
pub enum JsonField {
    Absent,
    Text(String),
    /// An array; each element as text when it is a JSON string.
    List(Vec<Option<String>>),
    /// Present, but neither a string nor an array.
    Other,
}

/// The fields of one market of the discovery API that the logic reads.
pub struct MarketListing {
    /// `conditionId`, and `condition_id`, read when the former is absent.
    pub condition_id: JsonField,
    pub condition_id_snake: JsonField,
    /// `endDate`, and `end_date`, read when the former is absent.
    pub end_date: JsonField,
    pub end_date_snake: JsonField,
    /// `clobTokenIds`: a list, or a string that holds a JSON list.
    pub clob_token_ids: JsonField,
}

pub open spec fn text_views(v: Seq<Option<String>>) -> Seq<Option<Seq<char>>> {
    v.map_values(
        |o: Option<String>|
            match o {
                Some(t) => Some(t@),
                None => None,
            },
    )
}

/// What `serde_json::from_str::<Value>(s)` gives, read as a list: `None` when
/// `s` is not JSON or not an array, else each element, as text when it is a
/// JSON string.
pub uninterp spec fn json_text_list(s: Seq<char>) -> Option<Seq<Option<Seq<char>>>>;

/// Calls `serde_json::from_str` and reads the value as a list of texts; the
/// result is named by [`json_text_list`], fixed by `s` alone.
#[verifier::external_body]
fn parse_text_list(s: &str) -> (r: Option<Vec<Option<String>>>)
    ensures
        match r {
            None => json_text_list(s@) is None,
            Some(v) => json_text_list(s@) == Some(text_views(v@)),
        },
{
    let v: serde_json::Value = serde_json::from_str(s).ok()?;
    let a = v.as_array()?;
    Some(a.iter().map(|x| x.as_str().map(|t| t.to_string())).collect())
}

pub open spec fn text_of(f: JsonField) -> Option<Seq<char>> {
    match f {
        JsonField::Text(s) => Some(s@),
        _ => None,
    }
}

/// The text of `primary`, or of `fallback` when `primary` is absent.
pub open spec fn field_text(primary: JsonField, fallback: JsonField) -> Option<Seq<char>> {
    match primary {
        JsonField::Absent => text_of(fallback),
        _ => text_of(primary),
    }
}

/// The first two elements, when both are texts.
pub open spec fn first_two_texts(l: Seq<Option<Seq<char>>>) -> Option<(Seq<char>, Seq<char>)> {
    if l.len() >= 2 && l[0] is Some && l[1] is Some {
        Some((l[0].unwrap(), l[1].unwrap()))
    } else {
        None
    }
}

/// The (yes, no) token ids of a `clobTokenIds` field.
pub open spec fn spec_extract_tokens(f: JsonField) -> Option<(Seq<char>, Seq<char>)> {
    match f {
        JsonField::Text(s) => match json_text_list(s@) {
            Some(l) => first_two_texts(l),
            None => None,
        },
        JsonField::List(l) => first_two_texts(text_views(l@)),
        _ => None,
    }
}

fn first_two(l: &Vec<Option<String>>) -> (r: Option<(String, String)>)
    ensures
        match r {
            Some((a, b)) => first_two_texts(text_views(l@)) == Some((a@, b@)),
            None => first_two_texts(text_views(l@)) is None,
        },
{
    if l.len() >= 2 {
        match (&l[0], &l[1]) {
            (Some(a), Some(b)) => Some((a.clone(), b.clone())),
            _ => None,
        }
    } else {
        None
    }
}

pub fn extract_tokens(f: &JsonField) -> (r: Option<(String, String)>)
    ensures
        match r {
            Some((a, b)) => spec_extract_tokens(*f) == Some((a@, b@)),
            None => spec_extract_tokens(*f) is None,
        },
{
    match f {
        JsonField::Text(s) => match parse_text_list(s.as_str()) {
            Some(l) => first_two(&l),
            None => None,
        },
        JsonField::List(l) => first_two(l),
        _ => None,
    }
}

fn read_field_text(primary: &JsonField, fallback: &JsonField) -> (r: Option<String>)
    ensures
        match r {
            Some(t) => field_text(*primary, *fallback) == Some(t@),
            None => field_text(*primary, *fallback) is None,
        },
{
    let f = match primary {
        JsonField::Absent => fallback,
        _ => primary,
    };
    match f {
        JsonField::Text(t) => Some(t.clone()),
        _ => None,
    }
}

pub open spec fn rec_view_of(
    cid: Seq<char>,
    token: Seq<char>,
    asset: Seq<char>,
    timeframe: Seq<char>,
    close_time: Seq<char>,
    side: Seq<char>,
) -> TokenRecView {
    TokenRecView { condition_id: cid, token_id: token, asset, timeframe, close_time, side }
}

/// The token records of one listing of `asset` / `timeframe`: none when the
/// condition id is missing or empty or the token ids cannot be read, else the
/// first token as `UP` and the second as `DOWN`, with the end date (or `?`) as
/// close time.
pub open spec fn spec_listing_records(l: MarketListing, asset: Seq<char>, timeframe: Seq<char>) -> Seq<
    TokenRecView,
> {
    let cid = match field_text(l.condition_id, l.condition_id_snake) {
        Some(t) => t,
        None => Seq::empty(),
    };
    let close = match field_text(l.end_date, l.end_date_snake) {
        Some(t) => t,
        None => seq!['?'],
    };
    if cid.len() == 0 {
        Seq::empty()
    } else {
        match spec_extract_tokens(l.clob_token_ids) {
            Some((yes, no)) => seq![
                rec_view_of(cid, yes, asset, timeframe, close, seq!['U', 'P']),
                rec_view_of(cid, no, asset, timeframe, close, seq!['D', 'O', 'W', 'N']),
            ],
            None => Seq::empty(),
        }
    }
}

pub fn listing_records(l: &MarketListing, asset: &str, timeframe: &str) -> (r: Vec<TokenRec>)
    ensures
        rec_views(r@) == spec_listing_records(*l, asset@, timeframe@),
{
    proof {
        reveal_strlit("?");
        reveal_strlit("UP");
        reveal_strlit("DOWN");
    }
    let cid = match read_field_text(&l.condition_id, &l.condition_id_snake) {
        Some(t) => t,
        None => String::new(),
    };
    let close = match read_field_text(&l.end_date, &l.end_date_snake) {
        Some(t) => t,
        None => String::from_str("?"),
    };
    let mut out: Vec<TokenRec> = Vec::new();
    if cid.as_str().is_empty() {
        return out;
    }
    match extract_tokens(&l.clob_token_ids) {
        Some((yes, no)) => {
            out.push(
                TokenRec {
                    condition_id: cid.clone(),
                    token_id: yes,
                    asset: String::from_str(asset),
                    timeframe: String::from_str(timeframe),
                    close_time: close.clone(),
                    side: String::from_str("UP"),
                },
            );
            out.push(
                TokenRec {
                    condition_id: cid,
                    token_id: no,
                    asset: String::from_str(asset),
                    timeframe: String::from_str(timeframe),
                    close_time: close,
                    side: String::from_str("DOWN"),
                },
            );
            proof {
                let ghost spec_cid = match field_text(l.condition_id, l.condition_id_snake) {
                    Some(t) => t,
                    None => Seq::empty(),
                };
                assert(cid@ == spec_cid);
                let ghost spec_close = match field_text(l.end_date, l.end_date_snake) {
                    Some(t) => t,
                    None => seq!['?'],
                };
                assert(out@[0].close_time@ == spec_close);
                assert(out@[0].side@ == seq!['U', 'P']);
                assert(out@[0].condition_id@ == spec_cid);
                assert(out@[0].asset@ == asset@);
                assert(spec_extract_tokens(l.clob_token_ids) == Some((yes@, no@)));
                assert(out@[1].close_time@ == spec_close);
                assert(out@[1].side@ == seq!['D', 'O', 'W', 'N']);
                assert(out@[1].condition_id@ == spec_cid);
                assert(out@[0]@ == spec_listing_records(*l, asset@, timeframe@)[0]);
                assert(out@[1]@ == spec_listing_records(*l, asset@, timeframe@)[1]);
                assert(rec_views(out@) =~= spec_listing_records(*l, asset@, timeframe@));
            }
        },
        None => {},
    }
    out
}

// ── One record per token ─────────────────────────────────────────────────────

pub open spec fn token_seen(v: Seq<TokenRecView>, id: Seq<char>) -> bool {
    exists|i: int| 0 <= i < v.len() && #[trigger] v[i].token_id == id
}

/// The records of `v` whose token id did not occur earlier, in order.
pub open spec fn first_per_token(v: Seq<TokenRecView>) -> Seq<TokenRecView>
    decreases v.len(),
{
    if v.len() == 0 {
        Seq::empty()
    } else {
        let prev = first_per_token(v.drop_last());
        if token_seen(v.drop_last(), v.last().token_id) {
            prev
        } else {
            prev.push(v.last())
        }
    }
}

pub open spec fn tokens_distinct(v: Seq<TokenRecView>) -> bool {
    forall|i: int, j: int|
        0 <= i < v.len() && 0 <= j < v.len() && i != j ==> #[trigger] v[i].token_id
            != #[trigger] v[j].token_id
}

proof fn lemma_first_per_token(v: Seq<TokenRecView>)
    ensures
        tokens_distinct(first_per_token(v)),
        forall|id: Seq<char>| token_seen(first_per_token(v), id) <==> token_seen(v, id),
        forall|i: int|
            0 <= i < first_per_token(v).len() ==> v.contains(#[trigger] first_per_token(v)[i]),
    decreases v.len(),
{
    if v.len() > 0 {
        let w = v.drop_last();
        lemma_first_per_token(w);
        let prev = first_per_token(w);
        assert forall|id: Seq<char>| token_seen(w, id) implies token_seen(v, id) by {
            if token_seen(w, id) {
                let i = choose|i: int| 0 <= i < w.len() && #[trigger] w[i].token_id == id;
                assert(v[i] == w[i]);
            }
        }
        assert forall|id: Seq<char>| token_seen(v, id) implies (token_seen(w, id) || id == v.last().token_id) by {
            if token_seen(v, id) {
                let i = choose|i: int| 0 <= i < v.len() && #[trigger] v[i].token_id == id;
                if i < w.len() {
                    assert(w[i] == v[i]);
                }
            }
        }
        assert forall|i: int| 0 <= i < first_per_token(v).len() implies v.contains(
            #[trigger] first_per_token(v)[i],
        ) by {
            if i < prev.len() {
                assert(first_per_token(v)[i] == prev[i]);
                assert(w.contains(prev[i]));
                let j = choose|j: int| 0 <= j < w.len() && w[j] == prev[i];
                assert(v[j] == w[j]);
            } else {
                assert(v[v.len() - 1] == v.last());
            }
        }
        if !token_seen(w, v.last().token_id) {
            let r = first_per_token(v);
            assert forall|id: Seq<char>| token_seen(r, id) <==> token_seen(v, id) by {
                if token_seen(prev, id) {
                    let i = choose|i: int| 0 <= i < prev.len() && #[trigger] prev[i].token_id == id;
                    assert(r[i] == prev[i]);
                }
                if id == v.last().token_id {
                    assert(r[prev.len() as int].token_id == id);
                }
                if token_seen(r, id) {
                    let i = choose|i: int| 0 <= i < r.len() && #[trigger] r[i].token_id == id;
                    if i < prev.len() {
                        assert(prev[i] == r[i]);
                    }
                }
            }
            assert forall|i: int, j: int|
                0 <= i < r.len() && 0 <= j < r.len() && i != j implies #[trigger] r[i].token_id
                != #[trigger] r[j].token_id by {
                if i == prev.len() && j < prev.len() {
                    assert(r[j] == prev[j]);
                    assert(token_seen(prev, prev[j].token_id));
                } else if j == prev.len() && i < prev.len() {
                    assert(r[i] == prev[i]);
                    assert(token_seen(prev, prev[i].token_id));
                } else if i < prev.len() && j < prev.len() {
                    assert(r[i] == prev[i]);
                    assert(r[j] == prev[j]);
                }
            }
        }
    }
}

/// No token id twice after de-duplication, and no token id lost: the first
/// record of every token of `v` is kept, each kept record comes from `v`.
pub proof fn lemma_deduped_tokens(v: Seq<TokenRecView>)
    ensures
        tokens_distinct(first_per_token(v)),
        forall|id: Seq<char>| token_seen(first_per_token(v), id) <==> token_seen(v, id),
        forall|i: int|
            0 <= i < first_per_token(v).len() ==> v.contains(#[trigger] first_per_token(v)[i]),
{
    lemma_first_per_token(v);
}

fn seen_exec(out: &Vec<TokenRec>, id: &String) -> (r: bool)
    ensures
        r == token_seen(rec_views(out@), id@),
{
    let ghost vs = rec_views(out@);
    let mut i: usize = 0;
    while i < out.len()
        invariant
            i <= out@.len(),
            vs == rec_views(out@),
            forall|k: int| 0 <= k < i ==> vs[k].token_id != id@,
        decreases out@.len() - i,
    {
        if out[i].token_id == *id {
            assert(vs[i as int].token_id == id@);
            return true;
        }
        i = i + 1;
    }
    false
}

/// Keeps the first record of every token id, in order.
pub fn dedupe_token_records(recs: &Vec<TokenRec>) -> (r: Vec<TokenRec>)
    ensures
        rec_views(r@) == first_per_token(rec_views(recs@)),
{
    let ghost vs = rec_views(recs@);
    let mut out: Vec<TokenRec> = Vec::new();
    let mut i: usize = 0;
    while i < recs.len()
        invariant
            i <= recs@.len(),
            vs == rec_views(recs@),
            rec_views(out@) == first_per_token(vs.take(i as int)),
        decreases recs@.len() - i,
    {
        proof {
            assert(vs.take(i + 1).drop_last() =~= vs.take(i as int));
            assert(vs.take(i + 1).last() == vs[i as int]);
            lemma_first_per_token(vs.take(i as int));
        }
        let seen = seen_exec(&out, &recs[i].token_id);
        if !seen {
            let ghost before = rec_views(out@);
            out.push(clone_rec(&recs[i]));
            proof {
                assert(rec_views(out@) =~= before.push(vs[i as int]));
            }
        }
        i = i + 1;
    }
    proof {
        assert(vs.take(vs.len() as int) =~= vs);
    }
    out
}

/// Index of the first record of token `asset_id`.
pub fn find_token_record(recs: &Vec<TokenRec>, asset_id: &str) -> (r: Option<usize>)
    ensures
        match r {
            Some(i) => i < recs@.len() && recs@[i as int].token_id@ == asset_id@ && forall|k: int|
                0 <= k < i ==> recs@[k].token_id@ != asset_id@,
            None => forall|k: int| 0 <= k < recs@.len() ==> recs@[k].token_id@ != asset_id@,
        },
{
    let id = String::from_str(asset_id);
    let mut i: usize = 0;
    while i < recs.len()
        invariant
            i <= recs@.len(),
            id@ == asset_id@,
            forall|k: int| 0 <= k < i ==> recs@[k].token_id@ != asset_id@,
        decreases recs@.len() - i,
    {
        if recs[i].token_id == id {
            return Some(i);
        }
        i = i + 1;
    }
    None
}

/// The token ids of `recs`, in order (the subscription list of the book feed).
pub fn token_ids(recs: &Vec<TokenRec>) -> (r: Vec<String>)
    ensures
        r@.len() == recs@.len(),
        forall|k: int| 0 <= k < r@.len() ==> #[trigger] r@[k]@ == recs@[k].token_id@,
{
    let mut out: Vec<String> = Vec::new();
    let mut i: usize = 0;
    while i < recs.len()
        invariant
            i <= recs@.len(),
            out@.len() == i,
            forall|k: int| 0 <= k < i ==> #[trigger] out@[k]@ == recs@[k].token_id@,
        decreases recs@.len() - i,
    {
        out.push(recs[i].token_id.clone());
        i = i + 1;
    }
    out
}

} // verus!
