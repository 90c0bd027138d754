//! The order-book sampler: keeps the latest row of every token and emits a
//! token's row by the rule of [`spec_should_emit`]. Whether a book changed
//! noticeably since its last emitted row is judged by the caller and handed in.

use vstd::prelude::*;

use crate::clob_state::{DepthLevel, SnapshotRow};
use crate::writer::{sampler_period_ms, should_emit_sample, spec_should_emit};

verus! {

/// The sampling state of one token.
pub struct SampleSlot<F> {
    pub token_id: String,
    pub latest: Option<SnapshotRow<F>>,
    pub last_emitted: Option<SnapshotRow<F>>,
}

/// Latest and last emitted rows per token, with ingest and emission totals.
pub struct L2Sampler<F> {
    pub slots: Vec<SampleSlot<F>>,
    pub sample_interval_ms: i64,
    pub force_emit_ms: i64,
    pub ingested_rows: u64,
    pub emitted_rows: u64,
}

/// No token has two slots.
pub open spec fn slot_ids_unique<F>(s: Seq<SampleSlot<F>>) -> bool {
    forall|i: int, j: int|
        0 <= i < s.len() && 0 <= j < s.len() && i != j ==> #[trigger] s[i].token_id@
            != #[trigger] s[j].token_id@
}

/// `a` is a copy of `b`.
pub open spec fn same_row<F>(a: SnapshotRow<F>, b: SnapshotRow<F>) -> bool {
    &&& a.ts == b.ts
    &&& a.condition_id == b.condition_id
    &&& a.token_id == b.token_id
    &&& a.best_bid == b.best_bid
    &&& a.best_ask == b.best_ask
    &&& a.mid_price == b.mid_price
    &&& a.spread == b.spread
    &&& a.bid_depth_1 == b.bid_depth_1
    &&& a.ask_depth_1 == b.ask_depth_1
    &&& a.bid_depth_5 == b.bid_depth_5
    &&& a.ask_depth_5 == b.ask_depth_5
    &&& a.bid_depth_10 == b.bid_depth_10
    &&& a.ask_depth_10 == b.ask_depth_10
    &&& a.depth_imbalance_5 == b.depth_imbalance_5
    &&& a.depth_imbalance_10 == b.depth_imbalance_10
    &&& a.slippage_100 == b.slippage_100
    &&& a.slippage_1000 == b.slippage_1000
    &&& a.total_bid_levels == b.total_bid_levels
    &&& a.total_ask_levels == b.total_ask_levels
    &&& a.book_timestamp == b.book_timestamp
    &&& a.source == b.source
    &&& a.last_trade_price == b.last_trade_price
    &&& a.last_trade_size == b.last_trade_size
    &&& a.bid_levels@ == b.bid_levels@
    &&& a.ask_levels@ == b.ask_levels@
}

fn copy_levels<F: Copy>(v: &Vec<DepthLevel<F>>) -> (r: Vec<DepthLevel<F>>)
    ensures
        r@ == v@,
{
    let mut out: Vec<DepthLevel<F>> = Vec::new();
    let mut i: usize = 0;
    while i < v.len()
        invariant
            i <= v@.len(),
            out@ == v@.take(i as int),
        decreases v@.len() - i,
    {
        let l = &v[i];
        out.push(DepthLevel { price: l.price, size: l.size });
        proof {
            assert(v@.take(i + 1) =~= v@.take(i as int).push(v@[i as int]));
        }
        i = i + 1;
    }
    proof {
        assert(v@.take(v@.len() as int) =~= v@);
    }
    out
}

fn copy_row<F: Copy>(r: &SnapshotRow<F>) -> (c: SnapshotRow<F>)
    ensures
        same_row(c, *r),
{
    SnapshotRow {
        ts: r.ts,
        condition_id: r.condition_id.clone(),
        token_id: r.token_id.clone(),
        best_bid: r.best_bid,
        best_ask: r.best_ask,
        mid_price: r.mid_price,
        spread: r.spread,
        bid_depth_1: r.bid_depth_1,
        ask_depth_1: r.ask_depth_1,
        bid_depth_5: r.bid_depth_5,
        ask_depth_5: r.ask_depth_5,
        bid_depth_10: r.bid_depth_10,
        ask_depth_10: r.ask_depth_10,
        depth_imbalance_5: r.depth_imbalance_5,
        depth_imbalance_10: r.depth_imbalance_10,
        slippage_100: r.slippage_100,
        slippage_1000: r.slippage_1000,
        total_bid_levels: r.total_bid_levels,
        total_ask_levels: r.total_ask_levels,
        book_timestamp: r.book_timestamp,
        source: r.source.clone(),
        last_trade_price: r.last_trade_price,
        last_trade_size: r.last_trade_size,
        bid_levels: copy_levels(&r.bid_levels),
        ask_levels: copy_levels(&r.ask_levels),
    }
}

/// The slot emits its latest row now.
pub open spec fn slot_emits<F>(s: SampleSlot<F>, changed: bool, now: i64, interval_ms: i64, force_ms: i64) -> bool {
    &&& s.latest is Some
    &&& spec_should_emit(
        match s.last_emitted {
            Some(p) => Some(p.ts),
            None => None,
        },
        now,
        changed,
        interval_ms,
        force_ms,
    )
}

/// The latest rows of the emitting slots among the first `n`, in slot order.
pub open spec fn emitted_prefix<F>(
    slots: Seq<SampleSlot<F>>,
    changed: Seq<bool>,
    n: int,
    now: i64,
    interval_ms: i64,
    force_ms: i64,
) -> Seq<SnapshotRow<F>>
    decreases n,
{
    if n <= 0 {
        Seq::empty()
    } else {
        let prev = emitted_prefix(slots, changed, n - 1, now, interval_ms, force_ms);
        if slot_emits(slots[n - 1], changed[n - 1], now, interval_ms, force_ms) {
            prev.push(slots[n - 1].latest.unwrap())
        } else {
            prev
        }
    }
}

proof fn lemma_emitted_prefix_len<F>(
    slots: Seq<SampleSlot<F>>,
    changed: Seq<bool>,
    n: int,
    now: i64,
    interval_ms: i64,
    force_ms: i64,
)
    requires
        n >= 0,
    ensures
        emitted_prefix(slots, changed, n, now, interval_ms, force_ms).len() <= n,
    decreases n,
{
    if n > 0 {
        lemma_emitted_prefix_len(slots, changed, n - 1, now, interval_ms, force_ms);
    }
}

impl<F: Copy> L2Sampler<F> {
    /// No slots yet; the periods are the configured ones, at least 1 ms.
    pub fn new(sample_interval_ms: u64, force_emit_ms: u64) -> (s: Self)
        ensures
            s.slots@.len() == 0,
            s.sample_interval_ms == (if sample_interval_ms < 1 {
                1u64
            } else {
                sample_interval_ms
            }) as i64,
            s.force_emit_ms == (if force_emit_ms < 1 {
                1u64
            } else {
                force_emit_ms
            }) as i64,
            s.ingested_rows == 0,
            s.emitted_rows == 0,
    {
        L2Sampler {
            slots: Vec::new(),
            sample_interval_ms: sampler_period_ms(sample_interval_ms),
            force_emit_ms: sampler_period_ms(force_emit_ms),
            ingested_rows: 0,
            emitted_rows: 0,
        }
    }

    /// Records `row` as the latest row of its token.
    pub fn ingest(&mut self, row: SnapshotRow<F>)
        requires
            old(self).ingested_rows < u64::MAX,
            slot_ids_unique(old(self).slots@),
        ensures
            slot_ids_unique(final(self).slots@),
            final(self).ingested_rows == old(self).ingested_rows + 1,
            final(self).emitted_rows == old(self).emitted_rows,
            final(self).sample_interval_ms == old(self).sample_interval_ms,
            final(self).force_emit_ms == old(self).force_emit_ms,
            match find_slot(old(self).slots@, row.token_id@) {
                Some(i) => final(self).slots@ == old(self).slots@.update(
                    i,
                    SampleSlot { latest: Some(row), ..old(self).slots@[i] },
                ),
                None => final(self).slots@ == old(self).slots@.push(
                    SampleSlot { token_id: row.token_id, latest: Some(row), last_emitted: None },
                ),
            },
    {
        self.ingested_rows = self.ingested_rows + 1;
        let ghost s0 = self.slots@;
        let mut i: usize = 0;
        while i < self.slots.len()
            invariant
                self.slots@ == s0,
                s0 == old(self).slots@,
                slot_ids_unique(s0),
                self.ingested_rows == old(self).ingested_rows + 1,
                self.emitted_rows == old(self).emitted_rows,
                self.sample_interval_ms == old(self).sample_interval_ms,
                self.force_emit_ms == old(self).force_emit_ms,
                i <= self.slots@.len(),
                forall|k: int| 0 <= k < i ==> self.slots@[k].token_id@ != row.token_id@,
            decreases self.slots@.len() - i,
        {
            if self.slots[i].token_id == row.token_id {
                proof {
                    assert(find_slot(self.slots@, row.token_id@) == Some(i as int)) by {
                        let j = choose|j: int|
                            0 <= j < self.slots@.len() && #[trigger] self.slots@[j].token_id@
                                == row.token_id@;
                        assert(self.slots@[j].token_id@ == self.slots@[i as int].token_id@);
                    }
                }
                let ghost before = self.slots@;
                self.slots[i].latest = Some(row);
                proof {
                    assert(self.slots@ =~= before.update(
                        i as int,
                        SampleSlot { latest: Some(row), ..before[i as int] },
                    ));
                    assert forall|a: int, b: int|
                        0 <= a < self.slots@.len() && 0 <= b < self.slots@.len() && a != b implies
                        #[trigger] self.slots@[a].token_id@ != #[trigger] self.slots@[b].token_id@ by {
                        assert(before[a].token_id@ != before[b].token_id@);
                    }
                }
                return;
            }
            i = i + 1;
        }
        let ghost before = self.slots@;
        let id = row.token_id.clone();
        self.slots.push(SampleSlot { token_id: id, latest: Some(row), last_emitted: None });
        proof {
            assert(!(exists|j: int| 0 <= j < before.len() && #[trigger] before[j].token_id@ == row.token_id@));
            assert forall|a: int, b: int|
                0 <= a < self.slots@.len() && 0 <= b < self.slots@.len() && a != b implies
                #[trigger] self.slots@[a].token_id@ != #[trigger] self.slots@[b].token_id@ by {
                if a < before.len() && b < before.len() {
                    assert(before[a].token_id@ != before[b].token_id@);
                }
            }
        }
    }

    /// Emits, in slot order, the latest row of every slot that
    /// [`slot_emits`] now (`changed[i]` tells whether slot `i`'s book moved
    /// noticeably since its last emitted row), and remembers it as emitted.
    pub fn take_ready(&mut self, now: i64, changed: &Vec<bool>) -> (r: Vec<SnapshotRow<F>>)
        requires
            changed@.len() == old(self).slots@.len(),
            old(self).emitted_rows + old(self).slots@.len() <= u64::MAX,
        ensures
            final(self).slots@.len() == old(self).slots@.len(),
            final(self).ingested_rows == old(self).ingested_rows,
            final(self).sample_interval_ms == old(self).sample_interval_ms,
            final(self).force_emit_ms == old(self).force_emit_ms,
            forall|i: int|
                0 <= i < old(self).slots@.len() ==> {
                    let o = #[trigger] old(self).slots@[i];
                    let n = final(self).slots@[i];
                    &&& n.token_id == o.token_id
                    &&& n.latest == o.latest
                    &&& if slot_emits(
                        o,
                        changed@[i],
                        now,
                        old(self).sample_interval_ms,
                        old(self).force_emit_ms,
                    ) {
                        n.last_emitted matches Some(e) && same_row(e, o.latest.unwrap())
                    } else {
                        n.last_emitted == o.last_emitted
                    }
                },
            r@.len() == emitted_prefix(
                old(self).slots@,
                changed@,
                old(self).slots@.len() as int,
                now,
                old(self).sample_interval_ms,
                old(self).force_emit_ms,
            ).len(),
            forall|k: int|
                0 <= k < r@.len() ==> same_row(
                    #[trigger] r@[k],
                    emitted_prefix(
                        old(self).slots@,
                        changed@,
                        old(self).slots@.len() as int,
                        now,
                        old(self).sample_interval_ms,
                        old(self).force_emit_ms,
                    )[k],
                ),
            final(self).emitted_rows == old(self).emitted_rows + r@.len(),
    {
        let ghost s0 = self.slots@;
        let ghost e0 = self.emitted_rows;
        let interval = self.sample_interval_ms;
        let force = self.force_emit_ms;
        let mut out: Vec<SnapshotRow<F>> = Vec::new();
        let mut i: usize = 0;
        while i < self.slots.len()
            invariant
                self.slots@.len() == s0.len(),
                self.ingested_rows == old(self).ingested_rows,
                changed@.len() == s0.len(),
                i <= s0.len(),
                interval == self.sample_interval_ms,
                force == self.force_emit_ms,
                e0 + s0.len() <= u64::MAX,
                self.emitted_rows == e0 + out@.len(),
                out@.len() == emitted_prefix(s0, changed@, i as int, now, interval, force).len(),
                forall|k: int|
                    0 <= k < out@.len() ==> same_row(
                        #[trigger] out@[k],
                        emitted_prefix(s0, changed@, i as int, now, interval, force)[k],
                    ),
                forall|j: int| i <= j < s0.len() ==> #[trigger] self.slots@[j] == s0[j],
                forall|j: int|
                    0 <= j < i ==> {
                        let o = #[trigger] s0[j];
                        let n = self.slots@[j];
                        &&& n.token_id == o.token_id
                        &&& n.latest == o.latest
                        &&& if slot_emits(o, changed@[j], now, interval, force) {
                            n.last_emitted matches Some(e) && same_row(e, o.latest.unwrap())
                        } else {
                            n.last_emitted == o.last_emitted
                        }
                    },
            decreases s0.len() - i,
        {
            proof {
                lemma_emitted_prefix_len(s0, changed@, i as int, now, interval, force);
            }
            let decision = match &self.slots[i].latest {
                Some(l) => {
                    let prev_ts = match &self.slots[i].last_emitted {
                        Some(p) => Some(p.ts),
                        None => None,
                    };
                    if should_emit_sample(prev_ts, now, changed[i], interval, force) {
                        Some((copy_row(l), copy_row(l)))
                    } else {
                        None
                    }
                },
                None => None,
            };
            let ghost before = self.slots@;
            let ghost out_before = out@;
            match decision {
                Some((kept, sent)) => {
                    self.slots[i].last_emitted = Some(kept);
                    out.push(sent);
                    self.emitted_rows = self.emitted_rows + 1;
                },
                None => {},
            }
            proof {
                assert(before[i as int] == s0[i as int]);
                let ep = emitted_prefix(s0, changed@, i + 1, now, interval, force);
                assert forall|k: int| 0 <= k < out@.len() implies same_row(#[trigger] out@[k], ep[k]) by {
                    if k < out_before.len() {
                        assert(out@[k] == out_before[k]);
                    }
                }
                assert forall|j: int| 0 <= j < i + 1 implies {
                    let o = #[trigger] s0[j];
                    let n = self.slots@[j];
                    &&& n.token_id == o.token_id
                    &&& n.latest == o.latest
                    &&& if slot_emits(o, changed@[j], now, interval, force) {
                        n.last_emitted matches Some(e) && same_row(e, o.latest.unwrap())
                    } else {
                        n.last_emitted == o.last_emitted
                    }
                } by {
                    if j < i {
                        assert(self.slots@[j] == before[j]);
                    }
                }
                assert forall|j: int| i + 1 <= j < s0.len() implies #[trigger] self.slots@[j] == s0[j] by {
                    assert(self.slots@[j] == before[j]);
                }
            }
            i = i + 1;
        }
        out
    }
}

/// The slot of `id`, if any.
pub open spec fn find_slot<F>(s: Seq<SampleSlot<F>>, id: Seq<char>) -> Option<int> {
    if exists|j: int| 0 <= j < s.len() && #[trigger] s[j].token_id@ == id {
        Some(choose|j: int| 0 <= j < s.len() && #[trigger] s[j].token_id@ == id)
    } else {
        None
    }
}

} // verus!
