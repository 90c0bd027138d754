//! Reading the WebSocket messages of the feeds. serde_json parses the text;
//! the library decides which exchange messages carry a trade price and which
//! order-book items carry a book update. Prices and sizes stay text here: they
//! are read as floats by the caller.

use vstd::prelude::*;

use serde_json::Value;

use crate::text::str_eq;

verus! {

/// The view of an optional text.
pub open spec fn opt_text(o: Option<String>) -> Option<Seq<char>> {
    match o {
        Some(t) => Some(t@),
        None => None,
    }
}

// ── Exchange trades ──────────────────────────────────────────────────────────

/// The exchanges whose trade feeds are read.
#[derive(Clone, Copy, Debug, PartialEq, Eq, Structural)]
pub enum Exchange {
    Binance,
    Coinbase,
    Kraken,
}

/// What `serde_json::from_str::<Value>(s)` gives, read at the keys `a`, `b`
/// and `c`: `None` when `s` is not JSON, else each key's value as text when it
/// is present and a JSON string (a value that is not an object has no keys).
pub uninterp spec fn json_object_texts(s: Seq<char>, a: Seq<char>, b: Seq<char>, c: Seq<char>) -> Option<
    (Option<Seq<char>>, Option<Seq<char>>, Option<Seq<char>>),
>;

/// Calls `serde_json::from_str` and reads three keys of the value as texts;
/// the result is named by [`json_object_texts`], fixed by the arguments alone.
#[verifier::external_body]
fn object_texts(s: &str, a: &str, b: &str, c: &str) -> (r: Option<
    (Option<String>, Option<String>, Option<String>),
>)
    ensures
        match r {
            None => json_object_texts(s@, a@, b@, c@) is None,
            Some((x, y, z)) => json_object_texts(s@, a@, b@, c@) == Some(
                (opt_text(x), opt_text(y), opt_text(z)),
            ),
        },
{
    let v: serde_json::Value = serde_json::from_str(s).ok()?;
    let text = |k: &str| v.get(k).and_then(|t| t.as_str()).map(|t| t.to_string());
    Some((text(a), text(b), text(c)))
}

/// What `serde_json::from_str::<Value>(s)` gives, read as a Kraken ticker
/// frame: `None` when `s` is not JSON, `Some(None)` when it is not an array,
/// else the array's length, its element 2 as text when a JSON string, and the
/// first element of the `c` array of element 1 as text when a JSON string.
pub uninterp spec fn json_kraken_parts(s: Seq<char>) -> Option<
    Option<(usize, Option<Seq<char>>, Option<Seq<char>>)>,
>;

/// Calls `serde_json::from_str` and reads the parts of a Kraken ticker frame;
/// the result is named by [`json_kraken_parts`], fixed by `s` alone.
#[verifier::external_body]
fn kraken_parts(s: &str) -> (r: Option<Option<(usize, Option<String>, Option<String>)>>)
    ensures
        match r {
            None => json_kraken_parts(s@) is None,
            Some(None) => json_kraken_parts(s@) == Some(
                None::<(usize, Option<Seq<char>>, Option<Seq<char>>)>,
            ),
            Some(Some((n, name, close))) => json_kraken_parts(s@) == Some(
                Some((n, opt_text(name), opt_text(close))),
            ),
        },
{
    let v: serde_json::Value = serde_json::from_str(s).ok()?;
    let Some(arr) = v.as_array() else { return Some(None) };
    let name = arr.get(2).and_then(|x| x.as_str()).map(|t| t.to_string());
    let close = arr.get(1).and_then(|x| x.get("c")).and_then(|c| c.as_array()).and_then(|c| c.first());
    Some(Some((arr.len(), name, close.and_then(|x| x.as_str()).map(|t| t.to_string()))))
}

/// An object message whose kind field reads `kind` and whose price field is
/// text: its price text and size text.
pub open spec fn spec_object_trade(
    kind: Seq<char>,
    fields: (Option<Seq<char>>, Option<Seq<char>>, Option<Seq<char>>),
) -> Option<(Seq<char>, Option<Seq<char>>)> {
    if fields.0 == Some(kind) && fields.1 is Some {
        Some((fields.1.unwrap(), fields.2))
    } else {
        None
    }
}

/// A Kraken frame that is an array of four elements named `ticker`, with a
/// last-trade close price as text: that price, and no size.
pub open spec fn spec_kraken_trade(parts: Option<(usize, Option<Seq<char>>, Option<Seq<char>>)>) -> Option<
    (Seq<char>, Option<Seq<char>>),
> {
    match parts {
        Some((n, name, close)) => if n == 4 && name == Some("ticker"@) && close is Some {
            Some((close.unwrap(), None))
        } else {
            None
        },
        None => None,
    }
}

pub open spec fn trade_view(t: Option<(String, Option<String>)>) -> Option<(Seq<char>, Option<Seq<char>>)> {
    match t {
        Some((p, q)) => Some((p@, opt_text(q))),
        None => None,
    }
}

/// See [`spec_object_trade`].
pub fn object_trade(kind: &str, fields: (Option<String>, Option<String>, Option<String>)) -> (r: Option<
    (String, Option<String>),
>)
    ensures
        trade_view(r) == spec_object_trade(
            kind@,
            (opt_text(fields.0), opt_text(fields.1), opt_text(fields.2)),
        ),
{
    let (k, p, q) = fields;
    let kind_ok = match &k {
        Some(t) => str_eq(t.as_str(), kind),
        None => false,
    };
    if !kind_ok {
        return None;
    }
    match p {
        Some(price) => Some((price, q)),
        None => None,
    }
}

/// See [`spec_kraken_trade`].
pub fn kraken_trade(parts: Option<(usize, Option<String>, Option<String>)>) -> (r: Option<
    (String, Option<String>),
>)
    ensures
        trade_view(r) == spec_kraken_trade(
            match parts {
                Some((n, name, close)) => Some((n, opt_text(name), opt_text(close))),
                None => None,
            },
        ),
{
    match parts {
        Some((n, name, close)) => {
            let named = match &name {
                Some(t) => str_eq(t.as_str(), "ticker"),
                None => false,
            };
            if n == 4 && named {
                match close {
                    Some(c) => Some((c, None)),
                    None => None,
                }
            } else {
                None
            }
        },
        None => None,
    }
}

/// The trade in the feed message `s` of exchange `feed`: its price text and
/// size text, or `None` when `s` is not JSON or not a trade message. Binance
/// trades are `aggTrade` events (`p`, `q`); Coinbase trades are `ticker`
/// messages (`price`, `last_size`); Kraken trades are `ticker` frames.
pub open spec fn spec_trade_fields(feed: Exchange, s: Seq<char>) -> Option<(Seq<char>, Option<Seq<char>>)> {
    match feed {
        Exchange::Binance => match json_object_texts(s, "e"@, "p"@, "q"@) {
            Some(f) => spec_object_trade("aggTrade"@, f),
            None => None,
        },
        Exchange::Coinbase => match json_object_texts(s, "type"@, "price"@, "last_size"@) {
            Some(f) => spec_object_trade("ticker"@, f),
            None => None,
        },
        Exchange::Kraken => match json_kraken_parts(s) {
            Some(parts) => spec_kraken_trade(parts),
            None => None,
        },
    }
}

/// A trade's price is the text at the feed's price key and its size the text
/// at its size key, and a message whose kind field names a trade and whose
/// price is text always gives one: Binance `aggTrade` events (`p`, `q`),
/// Coinbase `ticker` messages (`price`, `last_size`), Kraken `ticker` frames of
/// four elements (the first close price, no size).
pub proof fn lemma_trades_read_their_fields(s: Seq<char>, p: Seq<char>, q: Option<Seq<char>>)
    ensures
        spec_trade_fields(Exchange::Binance, s) == Some((p, q)) <==> json_object_texts(
            s,
            "e"@,
            "p"@,
            "q"@,
        ) == Some((Some("aggTrade"@), Some(p), q)),
        spec_trade_fields(Exchange::Coinbase, s) == Some((p, q)) <==> json_object_texts(
            s,
            "type"@,
            "price"@,
            "last_size"@,
        ) == Some((Some("ticker"@), Some(p), q)),
        spec_trade_fields(Exchange::Kraken, s) == Some((p, q)) <==> (q is None && json_kraken_parts(s)
            == Some(Some((4usize, Some("ticker"@), Some(p))))),
{
}

/// Price and size texts of the trade in the feed message `txt`; see
/// [`spec_trade_fields`].
pub fn trade_fields(feed: Exchange, txt: &str) -> (r: Option<(String, Option<String>)>)
    ensures
        trade_view(r) == spec_trade_fields(feed, txt@),
{
    match feed {
        Exchange::Binance => match object_texts(txt, "e", "p", "q") {
            Some(f) => object_trade("aggTrade", f),
            None => None,
        },
        Exchange::Coinbase => match object_texts(txt, "type", "price", "last_size") {
            Some(f) => object_trade("ticker", f),
            None => None,
        },
        Exchange::Kraken => match kraken_parts(txt) {
            Some(parts) => kraken_trade(parts),
            None => None,
        },
    }
}

// ── Order-book messages ──────────────────────────────────────────────────────

/// One item of a book message as serde_json reads it.
pub struct RawBookItem {
    /// `asset_id`: `None` when absent, else its text when a JSON string.
    pub asset_id: Option<Option<String>>,
    /// `market`, read the same way.
    pub market: Option<Option<String>>,
    /// `bids`, when an array: each level's `price` and `size` as text when
    /// they are JSON strings.
    pub bids: Option<Vec<(Option<String>, Option<String>)>>,
    pub asks: Option<Vec<(Option<String>, Option<String>)>>,
    /// `timestamp`, when a JSON integer that fits in an `i64`.
    pub timestamp: Option<i64>,
    /// `last_trade_price`, when a JSON string.
    pub last_trade_price: Option<String>,
}

pub struct RawBookItemView {
    pub asset_id: Option<Option<Seq<char>>>,
    pub market: Option<Option<Seq<char>>>,
    pub bids: Option<Seq<(Option<Seq<char>>, Option<Seq<char>>)>>,
    pub asks: Option<Seq<(Option<Seq<char>>, Option<Seq<char>>)>>,
    pub timestamp: Option<i64>,
    pub last_trade_price: Option<Seq<char>>,
}

/// A book update for one token: the levels stay text.
pub struct BookItem {
    pub asset_id: String,
    pub bids: Option<Vec<(Option<String>, Option<String>)>>,
    pub asks: Option<Vec<(Option<String>, Option<String>)>>,
    pub timestamp: Option<i64>,
    pub last_trade_price: Option<String>,
}

pub struct BookItemView {
    pub asset_id: Seq<char>,
    pub bids: Option<Seq<(Option<Seq<char>>, Option<Seq<char>>)>>,
    pub asks: Option<Seq<(Option<Seq<char>>, Option<Seq<char>>)>>,
    pub timestamp: Option<i64>,
    pub last_trade_price: Option<Seq<char>>,
}

pub open spec fn opt_opt_text(o: Option<Option<String>>) -> Option<Option<Seq<char>>> {
    match o {
        Some(t) => Some(opt_text(t)),
        None => None,
    }
}

pub open spec fn levels_view(v: Option<Vec<(Option<String>, Option<String>)>>) -> Option<
    Seq<(Option<Seq<char>>, Option<Seq<char>>)>,
> {
    match v {
        Some(l) => Some(
            l@.map_values(|x: (Option<String>, Option<String>)| (opt_text(x.0), opt_text(x.1))),
        ),
        None => None,
    }
}

impl View for RawBookItem {
    type V = RawBookItemView;

    open spec fn view(&self) -> RawBookItemView {
        RawBookItemView {
            asset_id: opt_opt_text(self.asset_id),
            market: opt_opt_text(self.market),
            bids: levels_view(self.bids),
            asks: levels_view(self.asks),
            timestamp: self.timestamp,
            last_trade_price: opt_text(self.last_trade_price),
        }
    }
}

impl View for BookItem {
    type V = BookItemView;

    open spec fn view(&self) -> BookItemView {
        BookItemView {
            asset_id: self.asset_id@,
            bids: levels_view(self.bids),
            asks: levels_view(self.asks),
            timestamp: self.timestamp,
            last_trade_price: opt_text(self.last_trade_price),
        }
    }
}

pub open spec fn raw_views(v: Seq<RawBookItem>) -> Seq<RawBookItemView> {
    v.map_values(|r: RawBookItem| r@)
}

pub open spec fn book_views(v: Seq<BookItem>) -> Seq<BookItemView> {
    v.map_values(|b: BookItem| b@)
}

// Reading JSON values. Each value is handed on as its JSON text, as
// `Value::to_string` writes it, and read again by the next step.

pub open spec fn texts_view(v: Seq<String>) -> Seq<Seq<char>> {
    v.map_values(|t: String| t@)
}

/// `serde_json::from_str::<Value>(s)`, then the elements of an array, or the
/// one value when it is not an array, each written back as JSON text; `None`
/// when `s` is not JSON.
pub uninterp spec fn json_values(s: Seq<char>) -> Option<Seq<Seq<char>>>;

/// Calls `serde_json::from_str` and writes back the elements; the result is
/// named by [`json_values`], fixed by `s` alone.
#[verifier::external_body]
fn values_of(s: &str) -> (r: Option<Vec<String>>)
    ensures
        match r {
            None => json_values(s@) is None,
            Some(v) => json_values(s@) == Some(texts_view(v@)),
        },
{
    let items = match serde_json::from_str::<Value>(s).ok()? {
        Value::Array(a) => a,
        other => vec![other],
    };
    Some(items.iter().map(|x| x.to_string()).collect())
}

/// Member `key` of the JSON value `s` (`Value::get`), written back as JSON
/// text: `None` when `s` is not JSON, `Some(None)` when `s` has no such member
/// (it is not an object, or lacks the key).
pub uninterp spec fn json_member(s: Seq<char>, key: Seq<char>) -> Option<Option<Seq<char>>>;

/// Calls `serde_json::from_str` and `Value::get`; the result is named by
/// [`json_member`], fixed by the arguments alone.
#[verifier::external_body]
fn member_of(s: &str, key: &str) -> (r: Option<Option<String>>)
    ensures
        match r {
            None => json_member(s@, key@) is None,
            Some(m) => json_member(s@, key@) == Some(opt_text(m)),
        },
{
    let v: Value = serde_json::from_str(s).ok()?;
    Some(v.get(key).map(|x| x.to_string()))
}

/// The JSON value `s` as a string (`Value::as_str`): `None` when `s` is not
/// JSON, `Some(None)` when it is not a string.
pub uninterp spec fn json_string(s: Seq<char>) -> Option<Option<Seq<char>>>;

/// Calls `serde_json::from_str` and `Value::as_str`; named by [`json_string`].
#[verifier::external_body]
fn string_of(s: &str) -> (r: Option<Option<String>>)
    ensures
        match r {
            None => json_string(s@) is None,
            Some(t) => json_string(s@) == Some(opt_text(t)),
        },
{
    let v: Value = serde_json::from_str(s).ok()?;
    Some(v.as_str().map(|t| t.to_string()))
}

/// The JSON value `s` as an `i64` (`Value::as_i64`): `None` when `s` is not
/// JSON, `Some(None)` when it is not an integer that fits.
pub uninterp spec fn json_integer(s: Seq<char>) -> Option<Option<i64>>;

/// Calls `serde_json::from_str` and `Value::as_i64`; named by [`json_integer`].
#[verifier::external_body]
fn integer_of(s: &str) -> (r: Option<Option<i64>>)
    ensures
        r == json_integer(s@),
{
    let v: Value = serde_json::from_str(s).ok()?;
    Some(v.as_i64())
}

/// The elements of the JSON array `s` (`Value::as_array`), each written back as
/// JSON text: `None` when `s` is not JSON, `Some(None)` when it is not an array.
pub uninterp spec fn json_elements(s: Seq<char>) -> Option<Option<Seq<Seq<char>>>>;

/// Calls `serde_json::from_str` and `Value::as_array`; named by [`json_elements`].
#[verifier::external_body]
fn elements_of(s: &str) -> (r: Option<Option<Vec<String>>>)
    ensures
        match r {
            None => json_elements(s@) is None,
            Some(None) => json_elements(s@) == Some(None::<Seq<Seq<char>>>),
            Some(Some(v)) => json_elements(s@) == Some(Some(texts_view(v@))),
        },
{
    let v: Value = serde_json::from_str(s).ok()?;
    Some(v.as_array().map(|a| a.iter().map(|x| x.to_string()).collect()))
}

pub open spec fn flat(o: Option<Option<Seq<char>>>) -> Option<Seq<char>> {
    match o {
        Some(x) => x,
        None => None,
    }
}

/// Member `key` of `s`: `None` when absent, else its text when a JSON string.
pub open spec fn spec_member_str(s: Seq<char>, key: Seq<char>) -> Option<Option<Seq<char>>> {
    match json_member(s, key) {
        Some(Some(m)) => Some(
            match json_string(m) {
                Some(o) => o,
                None => None,
            },
        ),
        _ => None,
    }
}

/// Member `key` of `s` when it is an integer that fits in an `i64`.
pub open spec fn spec_member_i64(s: Seq<char>, key: Seq<char>) -> Option<i64> {
    match json_member(s, key) {
        Some(Some(m)) => match json_integer(m) {
            Some(o) => o,
            None => None,
        },
        _ => None,
    }
}

/// The elements of member `key` of `s`, when it is an array.
pub open spec fn spec_member_list(s: Seq<char>, key: Seq<char>) -> Option<Seq<Seq<char>>> {
    match json_member(s, key) {
        Some(Some(m)) => match json_elements(m) {
            Some(o) => o,
            None => None,
        },
        _ => None,
    }
}

/// The `price` and `size` of a level, as text when they are JSON strings.
pub open spec fn spec_level(l: Seq<char>) -> (Option<Seq<char>>, Option<Seq<char>>) {
    (flat(spec_member_str(l, "price"@)), flat(spec_member_str(l, "size"@)))
}

pub open spec fn spec_levels(s: Seq<char>, key: Seq<char>) -> Option<
    Seq<(Option<Seq<char>>, Option<Seq<char>>)>,
> {
    match spec_member_list(s, key) {
        Some(ls) => Some(ls.map_values(|l: Seq<char>| spec_level(l))),
        None => None,
    }
}

/// The fields of one book item `t` that the logic reads.
pub open spec fn spec_raw_item(t: Seq<char>) -> RawBookItemView {
    RawBookItemView {
        asset_id: spec_member_str(t, "asset_id"@),
        market: spec_member_str(t, "market"@),
        bids: spec_levels(t, "bids"@),
        asks: spec_levels(t, "asks"@),
        timestamp: spec_member_i64(t, "timestamp"@),
        last_trade_price: flat(spec_member_str(t, "last_trade_price"@)),
    }
}

/// The items of the book message `s`, or `None` when it is not JSON.
pub open spec fn spec_raw_items(s: Seq<char>) -> Option<Seq<RawBookItemView>> {
    match json_values(s) {
        Some(ts) => Some(ts.map_values(|t: Seq<char>| spec_raw_item(t))),
        None => None,
    }
}

fn member_str(s: &str, key: &str) -> (r: Option<Option<String>>)
    ensures
        opt_opt_text(r) == spec_member_str(s@, key@),
{
    match member_of(s, key) {
        Some(Some(m)) => match string_of(m.as_str()) {
            Some(o) => Some(o),
            None => Some(None),
        },
        _ => None,
    }
}

fn flatten_text(o: Option<Option<String>>) -> (r: Option<String>)
    ensures
        opt_text(r) == flat(opt_opt_text(o)),
{
    match o {
        Some(x) => x,
        None => None,
    }
}

fn member_i64(s: &str, key: &str) -> (r: Option<i64>)
    ensures
        r == spec_member_i64(s@, key@),
{
    match member_of(s, key) {
        Some(Some(m)) => match integer_of(m.as_str()) {
            Some(o) => o,
            None => None,
        },
        _ => None,
    }
}

fn level_of(l: &str) -> (r: (Option<String>, Option<String>))
    ensures
        (opt_text(r.0), opt_text(r.1)) == spec_level(l@),
{
    (flatten_text(member_str(l, "price")), flatten_text(member_str(l, "size")))
}

fn member_levels(s: &str, key: &str) -> (r: Option<Vec<(Option<String>, Option<String>)>>)
    ensures
        levels_view(r) == spec_levels(s@, key@),
{
    let ls: Vec<String> = match member_of(s, key) {
        Some(Some(m)) => match elements_of(m.as_str()) {
            Some(Some(v)) => v,
            _ => {
                return None;
            },
        },
        _ => {
            return None;
        },
    };
    let ghost want = texts_view(ls@).map_values(|l: Seq<char>| spec_level(l));
    let mut out: Vec<(Option<String>, Option<String>)> = Vec::new();
    let mut i: usize = 0;
    while i < ls.len()
        invariant
            i <= ls@.len(),
            want == texts_view(ls@).map_values(|l: Seq<char>| spec_level(l)),
            out@.len() == i,
            forall|k: int|
                0 <= k < i ==> (opt_text(#[trigger] out@[k].0), opt_text(out@[k].1)) == want[k],
        decreases ls@.len() - i,
    {
        let lv = level_of(ls[i].as_str());
        out.push(lv);
        i = i + 1;
    }
    proof {
        let got = out@.map_values(
            |x: (Option<String>, Option<String>)| (opt_text(x.0), opt_text(x.1)),
        );
        assert forall|k: int| 0 <= k < got.len() implies got[k] == want[k] by {
            assert((opt_text(out@[k].0), opt_text(out@[k].1)) == want[k]);
        }
        assert(got =~= want);
    }
    Some(out)
}

fn raw_item(t: &str) -> (r: RawBookItem)
    ensures
        r@ == spec_raw_item(t@),
{
    RawBookItem {
        asset_id: member_str(t, "asset_id"),
        market: member_str(t, "market"),
        bids: member_levels(t, "bids"),
        asks: member_levels(t, "asks"),
        timestamp: member_i64(t, "timestamp"),
        last_trade_price: flatten_text(member_str(t, "last_trade_price")),
    }
}

/// Reads the items of the book message `s`; see [`spec_raw_items`].
pub fn read_book_json(s: &str) -> (r: Option<Vec<RawBookItem>>)
    ensures
        match r {
            None => spec_raw_items(s@) is None,
            Some(v) => spec_raw_items(s@) == Some(raw_views(v@)),
        },
{
    let ts = match values_of(s) {
        Some(v) => v,
        None => {
            return None;
        },
    };
    let ghost want = texts_view(ts@).map_values(|t: Seq<char>| spec_raw_item(t));
    let mut out: Vec<RawBookItem> = Vec::new();
    let mut i: usize = 0;
    while i < ts.len()
        invariant
            i <= ts@.len(),
            want == texts_view(ts@).map_values(|t: Seq<char>| spec_raw_item(t)),
            out@.len() == i,
            forall|k: int| 0 <= k < i ==> #[trigger] out@[k]@ == want[k],
        decreases ts@.len() - i,
    {
        let item = raw_item(ts[i].as_str());
        out.push(item);
        i = i + 1;
    }
    proof {
        assert(raw_views(out@) =~= want);
    }
    Some(out)
}

/// The token of an item: `asset_id` when present, else `market`; its text when
/// a JSON string, else empty.
pub open spec fn item_token(r: RawBookItemView) -> Seq<char> {
    match r.asset_id {
        Some(a) => match a {
            Some(t) => t,
            None => Seq::empty(),
        },
        None => match r.market {
            Some(Some(t)) => t,
            _ => Seq::empty(),
        },
    }
}

/// An item counts when it has bids or asks and names a token.
pub open spec fn item_counts(r: RawBookItemView) -> bool {
    (r.bids is Some || r.asks is Some) && item_token(r).len() > 0
}

pub open spec fn book_of(r: RawBookItemView) -> BookItemView {
    BookItemView {
        asset_id: item_token(r),
        bids: r.bids,
        asks: r.asks,
        timestamp: r.timestamp,
        last_trade_price: r.last_trade_price,
    }
}

/// The items that count, in order, as book updates.
pub open spec fn spec_book_items(items: Seq<RawBookItemView>) -> Seq<BookItemView>
    decreases items.len(),
{
    if items.len() == 0 {
        Seq::empty()
    } else {
        let prev = spec_book_items(items.drop_last());
        if item_counts(items.last()) {
            prev.push(book_of(items.last()))
        } else {
            prev
        }
    }
}

/// `b` is the book update of item `r`: same levels, timestamp and last trade
/// price, and filed under the item's `asset_id` when it has one as text, under
/// its `market` only when `asset_id` is absent.
pub open spec fn update_of_item(b: BookItemView, r: RawBookItemView) -> bool {
    &&& r.bids is Some || r.asks is Some
    &&& b.bids == r.bids
    &&& b.asks == r.asks
    &&& b.timestamp == r.timestamp
    &&& b.last_trade_price == r.last_trade_price
    &&& b.asset_id.len() > 0
    &&& r.asset_id != Some(None::<Seq<char>>)
    &&& (r.asset_id matches Some(Some(t)) ==> b.asset_id == t)
    &&& (r.asset_id is None ==> r.market == Some(Some(b.asset_id)))
}

/// Every book update comes from an item of the message, with that item's
/// levels, filed under the item's `asset_id` (its `market` only when `asset_id`
/// is absent); every item with
/// bids or asks and a non-empty text `asset_id` gives an update under that id.
pub proof fn lemma_book_updates_keyed_by_asset_id(items: Seq<RawBookItemView>)
    ensures
        forall|k: int|
            0 <= k < spec_book_items(items).len() ==> exists|j: int|
                0 <= j < items.len() && update_of_item(#[trigger] spec_book_items(items)[k], items[j]),
        forall|j: int|
            #![trigger items[j]]
            0 <= j < items.len() && (items[j].bids is Some || items[j].asks is Some) && items[j].asset_id is Some
                && items[j].asset_id->0 is Some && items[j].asset_id->0->0.len() > 0 ==> exists|k: int|
                0 <= k < spec_book_items(items).len() && #[trigger] spec_book_items(items)[k].asset_id
                    == items[j].asset_id->0->0,
    decreases items.len(),
{
    if items.len() > 0 {
        let init = items.drop_last();
        lemma_book_updates_keyed_by_asset_id(init);
        let prev = spec_book_items(init);
        let out = spec_book_items(items);
        assert forall|k: int|
            0 <= k < out.len() implies exists|j: int|
                0 <= j < items.len() && update_of_item(#[trigger] out[k], items[j]) by {
            if k < prev.len() {
                assert(out[k] == prev[k]);
                let j = choose|j: int| 0 <= j < init.len() && update_of_item(#[trigger] prev[k], init[j]);
                assert(init[j] == items[j]);
            } else {
                assert(update_of_item(out[k], items[items.len() - 1]));
            }
        }
        assert forall|j: int|
            #![trigger items[j]]
            0 <= j < items.len() && (items[j].bids is Some || items[j].asks is Some) && items[j].asset_id is Some
                && items[j].asset_id->0 is Some && items[j].asset_id->0->0.len() > 0 implies exists|k: int|
                0 <= k < out.len() && #[trigger] out[k].asset_id == items[j].asset_id->0->0 by {
            if j < init.len() {
                assert(init[j] == items[j]);
                let t = items[j].asset_id->0->0;
                let k = choose|k: int| 0 <= k < prev.len() && #[trigger] prev[k].asset_id == t;
                assert(out[k] == prev[k]);
            } else {
                assert(out[out.len() - 1].asset_id == items[j].asset_id->0->0);
            }
        }
    }
}

/// Keeps the items that count, in order; see [`spec_book_items`].
pub fn select_book_items(raw: Vec<RawBookItem>) -> (r: Vec<BookItem>)
    ensures
        book_views(r@) == spec_book_items(raw_views(raw@)),
        forall|k: int|
            0 <= k < r@.len() ==> exists|j: int|
                0 <= j < raw@.len() && update_of_item(#[trigger] book_views(r@)[k], raw_views(raw@)[j]),
{
    let ghost all = raw_views(raw@);
    let total: usize = raw.len();
    let mut rest = raw;
    let mut out: Vec<BookItem> = Vec::new();
    let mut n: usize = 0;
    while rest.len() > 0
        invariant
            n <= all.len() == total,
            raw_views(rest@) == all.subrange(n as int, all.len() as int),
            book_views(out@) == spec_book_items(all.take(n as int)),
        decreases rest@.len(),
    {
        let ghost r0 = rest@;
        assert(raw_views(r0).len() == r0.len());
        assert(n < all.len());
        let item = rest.remove(0);
        assert(item@ == all[n as int]) by {
            assert(raw_views(r0)[0] == r0[0]@);
            assert(all.subrange(n as int, all.len() as int)[0] == all[n as int]);
        }
        let RawBookItem { asset_id, market, bids, asks, timestamp, last_trade_price } = item;
        let token: String = match asset_id {
            Some(a) => match a {
                Some(t) => t,
                None => String::new(),
            },
            None => match market {
                Some(Some(t)) => t,
                _ => String::new(),
            },
        };
        let has_side = bids.is_some() || asks.is_some();
        let named = token.as_str().unicode_len() > 0;
        proof {
            assert(all.take(n + 1).drop_last() =~= all.take(n as int));
            assert(all.take(n + 1).last() == all[n as int]);
        }
        if has_side && named {
            let b = BookItem { asset_id: token, bids, asks, timestamp, last_trade_price };
            out.push(b);
            proof {
                assert(book_views(out@) =~= spec_book_items(all.take(n as int)).push(
                    book_of(all[n as int]),
                ));
            }
        }
        n = n + 1;
        proof {
            assert forall|k: int| 0 <= k < rest@.len() implies #[trigger] raw_views(rest@)[k] == all[n + k] by {
                assert(rest@[k] == r0[k + 1]);
                assert(raw_views(r0)[k + 1] == all.subrange(n - 1, all.len() as int)[k + 1]);
            }
            assert(raw_views(rest@) =~= all.subrange(n as int, all.len() as int));
        }
    }
    proof {
        assert(all.take(all.len() as int) =~= all);
        lemma_book_updates_keyed_by_asset_id(all);
    }
    out
}

/// The book updates of the book message `txt`: `None` when it is not JSON,
/// else the items (the elements of an array, or the one value) that have bids
/// or asks and name a token, in order.
pub fn book_items(txt: &str) -> (r: Option<Vec<BookItem>>)
    ensures
        match r {
            None => spec_raw_items(txt@) is None,
            Some(v) => spec_raw_items(txt@) matches Some(items) && book_views(v@) == spec_book_items(
                items,
            ),
        },
{
    match read_book_json(txt) {
        Some(raw) => Some(select_book_items(raw)),
        None => None,
    }
}

} // verus!
