//! The queue of pre-signed transactions: entries keyed by
//! `market|SIDE|version|nonce`, pruned once expired, and served oldest first
//! per (market, side, version) bucket. Whether an entry's reference price is
//! still close enough to the current price is judged by the caller.

use vstd::prelude::*;

use crate::text::{eq_ignore_ascii_case, spec_eq_ignore_ascii_case};

verus! {

/// One queued transaction with the fields the queue is organised by.
pub struct QueuedTx<T> {
    pub key: String,
    pub market_id: String,
    pub side: String,
    pub version: String,
    /// Nanoseconds since the epoch.
    pub expires_at: i128,
    /// Nanoseconds since the epoch.
    pub queued_at: i128,
    pub tx: T,
}

/// The queued transactions, each key at most once.
pub struct PresignQueue<T> {
    pub entries: Vec<QueuedTx<T>>,
}

pub open spec fn keys_unique<T>(es: Seq<QueuedTx<T>>) -> bool {
    forall|i: int, j: int|
        0 <= i < es.len() && 0 <= j < es.len() && i != j ==> #[trigger] es[i].key@
            != #[trigger] es[j].key@
}

/// The entries at the positions that `keep` selects, in order.
pub open spec fn kept<T>(es: Seq<QueuedTx<T>>, keep: spec_fn(int) -> bool, n: int) -> Seq<QueuedTx<T>>
    decreases n,
{
    if n <= 0 {
        Seq::empty()
    } else {
        let prev = kept(es, keep, n - 1);
        if keep(n - 1) {
            prev.push(es[n - 1])
        } else {
            prev
        }
    }
}

#[verifier::spinoff_prover]
proof fn lemma_kept_from<T>(es: Seq<QueuedTx<T>>, keep: spec_fn(int) -> bool, n: int)
    requires
        0 <= n <= es.len(),
    ensures
        forall|a: int|
            0 <= a < kept(es, keep, n).len() ==> exists|j: int|
                0 <= j < n && keep(j) && #[trigger] kept(es, keep, n)[a] == es[j],
        keys_unique(es) ==> keys_unique(kept(es, keep, n)),
    decreases n,
{
    if n > 0 {
        lemma_kept_from(es, keep, n - 1);
        let prev = kept(es, keep, n - 1);
        let cur = kept(es, keep, n);
        assert forall|a: int| 0 <= a < cur.len() implies exists|j: int|
            0 <= j < n && keep(j) && #[trigger] cur[a] == es[j] by {
            if a < prev.len() {
                assert(cur[a] == prev[a]);
                let j = choose|j: int| 0 <= j < n - 1 && keep(j) && #[trigger] prev[a] == es[j];
                assert(cur[a] == es[j]);
            } else {
                assert(cur[a] == es[n - 1]);
            }
        }
        if keys_unique(es) && keep(n - 1) {
            assert forall|a: int, b: int|
                0 <= a < cur.len() && 0 <= b < cur.len() && a != b implies #[trigger] cur[a].key@
                != #[trigger] cur[b].key@ by {
                if a < prev.len() && b < prev.len() {
                    assert(cur[a] == prev[a] && cur[b] == prev[b]);
                } else if a < prev.len() {
                    let j = choose|j: int| 0 <= j < n - 1 && keep(j) && #[trigger] prev[a] == es[j];
                    assert(cur[a] == es[j]);
                    assert(cur[b] == es[n - 1]);
                } else if b < prev.len() {
                    let j = choose|j: int| 0 <= j < n - 1 && keep(j) && #[trigger] prev[b] == es[j];
                    assert(cur[b] == es[j]);
                    assert(cur[a] == es[n - 1]);
                }
            }
        }
    }
}

/// Upserting `e`: it replaces the entry with its key, or is appended.
pub open spec fn upsert_entry<T>(es: Seq<QueuedTx<T>>, e: QueuedTx<T>) -> Seq<QueuedTx<T>> {
    if exists|i: int| 0 <= i < es.len() && #[trigger] es[i].key@ == e.key@ {
        es.update(choose|i: int| 0 <= i < es.len() && #[trigger] es[i].key@ == e.key@, e)
    } else {
        es.push(e)
    }
}

/// `e` belongs to the bucket of market `market`, side `side` (any ASCII case)
/// and version `version`.
pub open spec fn spec_in_bucket<T>(e: QueuedTx<T>, market: Seq<char>, side: Seq<char>, version: Seq<char>) -> bool {
    &&& e.market_id@ == market
    &&& spec_eq_ignore_ascii_case(e.side@, side)
    &&& e.version@ == version
}

/// Entry `i` is served before entry `k`: queued earlier, or at the same time
/// and listed first.
pub open spec fn served_before<T>(es: Seq<QueuedTx<T>>, i: int, k: int) -> bool {
    es[i].queued_at < es[k].queued_at || (es[i].queued_at == es[k].queued_at && i < k)
}

/// Entry `i` is the first entry of the bucket, in serving order, whose price
/// is still close enough.
pub open spec fn is_pick<T>(
    es: Seq<QueuedTx<T>>,
    fresh: Seq<bool>,
    market: Seq<char>,
    side: Seq<char>,
    version: Seq<char>,
    i: int,
) -> bool {
    &&& 0 <= i < es.len()
    &&& spec_in_bucket(es[i], market, side, version)
    &&& fresh[i]
    &&& forall|k: int|
        0 <= k < es.len() && k != i && spec_in_bucket(#[trigger] es[k], market, side, version)
            && fresh[k] ==> served_before(es, i, k)
}

pub open spec fn pick<T>(
    es: Seq<QueuedTx<T>>,
    fresh: Seq<bool>,
    market: Seq<char>,
    side: Seq<char>,
    version: Seq<char>,
) -> Option<int> {
    if exists|i: int| is_pick(es, fresh, market, side, version, i) {
        Some(choose|i: int| is_pick(es, fresh, market, side, version, i))
    } else {
        None
    }
}

/// Entry `b` is the first fresh entry of the bucket, in serving order,
/// among the first `n` entries.
spec fn pick_upto<T>(
    es: Seq<QueuedTx<T>>,
    fresh: Seq<bool>,
    market: Seq<char>,
    side: Seq<char>,
    version: Seq<char>,
    n: int,
    b: int,
) -> bool {
    &&& 0 <= b < n
    &&& spec_in_bucket(es[b], market, side, version)
    &&& fresh[b]
    &&& forall|k: int|
        0 <= k < n && k != b && spec_in_bucket(#[trigger] es[k], market, side, version)
            && fresh[k] ==> served_before(es, b, k)
}

/// Entry `i` leaves the queue on a dequeue: it is in the bucket and is the
/// picked entry or served before it (stale entries met on the way are
/// dropped); with no pick the whole bucket leaves.
pub open spec fn leaves<T>(
    es: Seq<QueuedTx<T>>,
    fresh: Seq<bool>,
    market: Seq<char>,
    side: Seq<char>,
    version: Seq<char>,
    i: int,
) -> bool {
    &&& spec_in_bucket(es[i], market, side, version)
    &&& match pick(es, fresh, market, side, version) {
        Some(p) => i == p || served_before(es, i, p),
        None => true,
    }
}

proof fn lemma_pick_unique<T>(
    es: Seq<QueuedTx<T>>,
    fresh: Seq<bool>,
    market: Seq<char>,
    side: Seq<char>,
    version: Seq<char>,
    i: int,
    k: int,
)
    requires
        is_pick(es, fresh, market, side, version, i),
        is_pick(es, fresh, market, side, version, k),
    ensures
        i == k,
{
    if i != k {
        assert(served_before(es, i, k));
        assert(served_before(es, k, i));
    }
}

/// An enqueued transaction is held by the queue afterwards: the upsert holds
/// `e`, replaces the entry with its key when there is one and otherwise
/// grows the queue by one.
pub proof fn lemma_upsert_holds<T>(es: Seq<QueuedTx<T>>, e: QueuedTx<T>)
    ensures
        upsert_entry(es, e).contains(e),
        (exists|i: int| 0 <= i < es.len() && #[trigger] es[i].key@ == e.key@) ==> upsert_entry(
            es,
            e,
        ).len() == es.len(),
        !(exists|i: int| 0 <= i < es.len() && #[trigger] es[i].key@ == e.key@) ==> upsert_entry(
            es,
            e,
        ).len() == es.len() + 1,
{
    if exists|i: int| 0 <= i < es.len() && #[trigger] es[i].key@ == e.key@ {
        let c = choose|i: int| 0 <= i < es.len() && #[trigger] es[i].key@ == e.key@;
        assert(upsert_entry(es, e)[c] == e);
    } else {
        assert(upsert_entry(es, e)[es.len() as int] == e);
    }
}

/// A served transaction leaves the queue: no entry left after the dequeue
/// carries the key of the entry that was served.
pub proof fn lemma_served_entry_leaves<T>(
    es: Seq<QueuedTx<T>>,
    fresh: Seq<bool>,
    market: Seq<char>,
    side: Seq<char>,
    version: Seq<char>,
)
    requires
        keys_unique(es),
        pick(es, fresh, market, side, version) is Some,
    ensures
        ({
            let p = pick(es, fresh, market, side, version)->0;
            let rest = kept(es, |i: int| !leaves(es, fresh, market, side, version, i), es.len() as int);
            forall|a: int| 0 <= a < rest.len() ==> #[trigger] rest[a].key@ != es[p].key@
        }),
{
    let p = pick(es, fresh, market, side, version)->0;
    let keep = |i: int| !leaves(es, fresh, market, side, version, i);
    let rest = kept(es, keep, es.len() as int);
    lemma_kept_from(es, keep, es.len() as int);
    assert(is_pick(es, fresh, market, side, version, p));
    assert forall|a: int| 0 <= a < rest.len() implies #[trigger] rest[a].key@ != es[p].key@ by {
        let j = choose|j: int| 0 <= j < es.len() && keep(j) && #[trigger] rest[a] == es[j];
        if j != p {
            assert(es[j].key@ != es[p].key@);
        }
    }
}

/// Whether `e` belongs to the bucket of `market`, `side` and `version`.
pub fn in_bucket<T>(e: &QueuedTx<T>, market: &str, side: &str, version: &str) -> (b: bool)
    ensures
        b == spec_in_bucket(*e, market@, side@, version@),
{
    let m = String::from_str(market);
    let v = String::from_str(version);
    e.market_id == m && eq_ignore_ascii_case(e.side.as_str(), side) && e.version == v
}

impl<T> PresignQueue<T> {
    pub open spec fn wf(&self) -> bool {
        keys_unique(self.entries@)
    }

    /// An empty queue.
    pub fn new() -> (q: Self)
        ensures
            q.wf(),
            q.entries@.len() == 0,
    {
        PresignQueue { entries: Vec::new() }
    }

    /// Number of queued transactions.
    pub fn len(&self) -> (n: usize)
        ensures
            n == self.entries@.len(),
    {
        self.entries.len()
    }

    /// Drops the entries that expired at `now` or earlier, keeping the order.
    pub fn prune_expired(&mut self, now: i128)
        requires
            old(self).wf(),
        ensures
            final(self).wf(),
            final(self).entries@ == kept(
                old(self).entries@,
                |i: int| old(self).entries@[i].expires_at > now,
                old(self).entries@.len() as int,
            ),
    {
        let ghost es = self.entries@;
        let ghost keep = |i: int| es[i].expires_at > now;
        let total: usize = self.entries.len();
        let mut rest: Vec<QueuedTx<T>> = Vec::new();
        std::mem::swap(&mut rest, &mut self.entries);
        let mut out: Vec<QueuedTx<T>> = Vec::new();
        let mut n: usize = 0;
        while rest.len() > 0
            invariant
                n <= es.len() == total,
                keep == (|i: int| es[i].expires_at > now),
                rest@ == es.subrange(n as int, es.len() as int),
                out@ == kept(es, keep, n as int),
            decreases rest@.len(),
        {
            let e = rest.remove(0);
            assert(e == es[n as int]);
            assert(keep(n as int) == (e.expires_at > now));
            if e.expires_at > now {
                out.push(e);
            }
            assert(out@ == kept(es, keep, n + 1));
            n = n + 1;
            assert(rest@ =~= es.subrange(n as int, es.len() as int));
        }
        self.entries = out;
        proof {
            lemma_kept_from(es, keep, es.len() as int);
        }
    }

    /// Queues `e`, replacing a queued transaction with the same key.
    pub fn insert(&mut self, e: QueuedTx<T>)
        requires
            old(self).wf(),
        ensures
            final(self).wf(),
            final(self).entries@ == upsert_entry(old(self).entries@, e),
    {
        let ghost es = self.entries@;
        let mut i: usize = 0;
        while i < self.entries.len()
            invariant
                self.entries@ == es,
                es == old(self).entries@,
                keys_unique(es),
                i <= es.len(),
                forall|k: int| 0 <= k < i ==> es[k].key@ != e.key@,
            decreases es.len() - i,
        {
            if self.entries[i].key == e.key {
                proof {
                    assert(es[i as int].key@ == e.key@);
                    let c = choose|k: int| 0 <= k < es.len() && #[trigger] es[k].key@ == e.key@;
                    assert(es[c].key@ == es[i as int].key@);
                    assert(c == i as int);
                }
                self.entries.set(i, e);
                proof {
                    assert forall|a: int, b: int|
                        0 <= a < self.entries@.len() && 0 <= b < self.entries@.len() && a != b implies
                        #[trigger] self.entries@[a].key@ != #[trigger] self.entries@[b].key@ by {
                        assert(es[a].key@ != es[b].key@);
                    }
                }
                return;
            }
            i = i + 1;
        }
        self.entries.push(e);
        proof {
            assert forall|a: int, b: int|
                0 <= a < self.entries@.len() && 0 <= b < self.entries@.len() && a != b implies
                #[trigger] self.entries@[a].key@ != #[trigger] self.entries@[b].key@ by {
                if a < es.len() && b < es.len() {
                    assert(es[a].key@ != es[b].key@);
                }
            }
        }
    }

    /// Position of the entry that a dequeue of the bucket serves, if any.
    fn pick_index(&self, market: &str, side: &str, version: &str, fresh: &Vec<bool>) -> (r: Option<usize>)
        requires
            fresh@.len() == self.entries@.len(),
        ensures
            match r {
                Some(b) => pick(self.entries@, fresh@, market@, side@, version@) == Some(b as int),
                None => pick(self.entries@, fresh@, market@, side@, version@) is None,
            },
    {
        let ghost es = self.entries@;
        let ghost f = fresh@;
        let mut best: Option<usize> = None;
        let mut i: usize = 0;
        while i < self.entries.len()
            invariant
                es == self.entries@,
                f == fresh@,
                f.len() == es.len(),
                i <= es.len(),
                match best {
                    Some(b) => pick_upto(es, f, market@, side@, version@, i as int, b as int),
                    None => forall|k: int|
                        0 <= k < i ==> !(spec_in_bucket(#[trigger] es[k], market@, side@, version@)
                            && f[k]),
                },
            decreases es.len() - i,
        {
            let candidate = in_bucket(&self.entries[i], market, side, version) && fresh[i];
            if candidate {
                match best {
                    Some(b) => {
                        if self.entries[i].queued_at < self.entries[b].queued_at {
                            best = Some(i);
                        }
                    },
                    None => {
                        best = Some(i);
                    },
                }
            }
            i = i + 1;
        }
        match best {
            Some(b) => {
                proof {
                    assert(is_pick(es, f, market@, side@, version@, b as int));
                    let c = choose|c: int| is_pick(es, f, market@, side@, version@, c);
                    lemma_pick_unique(es, f, market@, side@, version@, b as int, c);
                }
            },
            None => {
                proof {
                    assert forall|c: int| !is_pick(es, f, market@, side@, version@, c) by {
                        if is_pick(es, f, market@, side@, version@, c) {
                            assert(spec_in_bucket(es[c], market@, side@, version@) && f[c]);
                        }
                    }
                }
            },
        }
        best
    }

    /// Serves the bucket of `market`, `side` and `version`: takes out the
    /// oldest entry whose price is still close enough (`fresh[i]` for entry
    /// `i`), dropping the stale entries of the bucket served before it; with
    /// no such entry the whole bucket is dropped.
    pub fn dequeue(&mut self, market: &str, side: &str, version: &str, fresh: &Vec<bool>) -> (r: Option<T>)
        requires
            old(self).wf(),
            fresh@.len() == old(self).entries@.len(),
        ensures
            final(self).wf(),
            r == match pick(old(self).entries@, fresh@, market@, side@, version@) {
                Some(p) => Some(old(self).entries@[p].tx),
                None => None::<T>,
            },
            final(self).entries@ == kept(
                old(self).entries@,
                |i: int| !leaves(old(self).entries@, fresh@, market@, side@, version@, i),
                old(self).entries@.len() as int,
            ),
    {
        let ghost es = self.entries@;
        let ghost f = fresh@;
        let best = self.pick_index(market, side, version, fresh);
        let qb: i128 = match best {
            Some(b) => self.entries[b].queued_at,
            None => 0,
        };
        let ghost keep = |i: int| !leaves(es, f, market@, side@, version@, i);
        let total: usize = self.entries.len();
        let mut rest: Vec<QueuedTx<T>> = Vec::new();
        std::mem::swap(&mut rest, &mut self.entries);
        let mut out: Vec<QueuedTx<T>> = Vec::new();
        let mut result: Option<T> = None;
        let mut n: usize = 0;
        while rest.len() > 0
            invariant
                n <= es.len() == total,
                keep == (|i: int| !leaves(es, f, market@, side@, version@, i)),
                f.len() == es.len(),
                rest@ == es.subrange(n as int, es.len() as int),
                out@ == kept(es, keep, n as int),
                match best {
                    Some(b) => pick(es, f, market@, side@, version@) == Some(b as int) && b < es.len()
                        && qb == es[b as int].queued_at
                        && (b < n ==> result == Some(es[b as int].tx)) && (b >= n ==> result is None),
                    None => pick(es, f, market@, side@, version@) is None && result is None,
                },
            decreases rest@.len(),
        {
            let e = rest.remove(0);
            assert(e == es[n as int]);
            let bucket = in_bucket(&e, market, side, version);
            let goes = bucket && match best {
                Some(b) => n == b || e.queued_at < qb || (e.queued_at == qb && n < b),
                None => true,
            };
            assert(goes == leaves(es, f, market@, side@, version@, n as int));
            assert(keep(n as int) == !goes);
            if goes {
                match best {
                    Some(b) => {
                        if n == b {
                            result = Some(e.tx);
                        }
                    },
                    None => {},
                }
            } else {
                out.push(e);
            }
            assert(out@ == kept(es, keep, n + 1));
            n = n + 1;
            assert(rest@ =~= es.subrange(n as int, es.len() as int));
        }
        self.entries = out;
        proof {
            lemma_kept_from(es, keep, es.len() as int);
        }
        result
    }
}

} // verus!
