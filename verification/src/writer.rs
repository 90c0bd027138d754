//! Buffering rules of the database writers and of the order-book sampler:
//! what is buffered, when a batch is flushed, what is dropped to get past a
//! failing flush, and which sampled rows are emitted.

use vstd::prelude::*;

use crate::text::{eq_ignore_ascii_case, parse_u64, spec_eq_ignore_ascii_case, spec_parse_u64};

verus! {

/// A switch given in the environment is on when it reads `1`, `true`, `yes`
/// or `on` (any ASCII case).
pub open spec fn spec_flag_on(v: Seq<char>) -> bool {
    spec_eq_ignore_ascii_case(v, "1"@) || spec_eq_ignore_ascii_case(v, "true"@)
        || spec_eq_ignore_ascii_case(v, "yes"@) || spec_eq_ignore_ascii_case(v, "on"@)
}

/// The switch `value`, or `default` when it is not set.
pub fn env_flag(value: Option<&str>, default: bool) -> (b: bool)
    ensures
        b == match value {
            Some(v) => spec_flag_on(v@),
            None => default,
        },
{
    match value {
        Some(v) => eq_ignore_ascii_case(v, "1") || eq_ignore_ascii_case(v, "true")
            || eq_ignore_ascii_case(v, "yes") || eq_ignore_ascii_case(v, "on"),
        None => default,
    }
}

/// The number `value`, or `default` when it is not set or not a `u64`.
pub fn env_u64_or(value: Option<&str>, default: u64) -> (n: u64)
    ensures
        n == match value {
            Some(v) => match spec_parse_u64(v@) {
                Some(x) => x,
                None => default,
            },
            None => default,
        },
{
    match value {
        Some(v) => match parse_u64(v) {
            Some(x) => x,
            None => default,
        },
        None => default,
    }
}

/// A queued database operation.
pub enum DbOp<S, E, M> {
    Snapshot(S),
    OracleEvent(E),
    MarketUpserts(Vec<M>),
}

/// Buffers and totals of the CLOB database writer.
pub struct WriterBuffers<S, E, M> {
    pub snapshots: Vec<S>,
    pub oracle_events: Vec<E>,
    pub market_batches: Vec<Vec<M>>,
    pub received_rows: u64,
    pub tick_seen: u64,
    /// Only every `tick_every_n`-th tick event is kept; at least 1.
    pub tick_every_n: u64,
    pub flush_errors: u64,
    pub recovered_drops: u64,
}

/// Snapshot or oracle batches of this size, or this many market batches, are flushed at once.
pub const SNAPSHOT_FLUSH_ROWS: usize = 1000;

pub const MARKET_FLUSH_BATCHES: usize = 8;

pub open spec fn spec_flush_due(snapshots: nat, events: nat, batches: nat) -> bool {
    snapshots >= SNAPSHOT_FLUSH_ROWS || events >= SNAPSHOT_FLUSH_ROWS || batches
        >= MARKET_FLUSH_BATCHES
}

/// What a failed flush gave up to make progress.
#[derive(Clone, Copy, Debug, PartialEq, Eq, Structural)]
pub enum RecoveryDrop {
    Snapshot,
    OracleEvent,
    Nothing,
}

impl<S, E, M> WriterBuffers<S, E, M> {
    /// Empty buffers; `tick_every_n` counts as at least 1.
    pub fn new(tick_every_n: u64) -> (w: Self)
        ensures
            w.snapshots@.len() == 0,
            w.oracle_events@.len() == 0,
            w.market_batches@.len() == 0,
            w.received_rows == 0,
            w.tick_seen == 0,
            w.tick_every_n == if tick_every_n < 1 {
                1
            } else {
                tick_every_n
            },
            w.flush_errors == 0,
            w.recovered_drops == 0,
    {
        WriterBuffers {
            snapshots: Vec::new(),
            oracle_events: Vec::new(),
            market_batches: Vec::new(),
            received_rows: 0,
            tick_seen: 0,
            tick_every_n: if tick_every_n < 1 {
                1
            } else {
                tick_every_n
            },
            flush_errors: 0,
            recovered_drops: 0,
        }
    }

    /// Buffers `op` (`is_tick` tells whether an oracle event is a tick) and
    /// returns whether a flush is due. Ticks are thinned to every
    /// `tick_every_n`-th one; empty market batches are ignored.
    pub fn accept(&mut self, op: DbOp<S, E, M>, is_tick: bool) -> (flush: bool)
        requires
            old(self).received_rows < u64::MAX,
            old(self).tick_seen < u64::MAX,
            old(self).tick_every_n >= 1,
        ensures
            final(self).received_rows == old(self).received_rows + 1,
            final(self).tick_every_n == old(self).tick_every_n,
            final(self).flush_errors == old(self).flush_errors,
            final(self).recovered_drops == old(self).recovered_drops,
            match op {
                DbOp::Snapshot(s) => {
                    &&& final(self).snapshots@ == old(self).snapshots@.push(s)
                    &&& final(self).oracle_events@ == old(self).oracle_events@
                    &&& final(self).market_batches@ == old(self).market_batches@
                    &&& final(self).tick_seen == old(self).tick_seen
                },
                DbOp::OracleEvent(e) => {
                    let seen = if is_tick {
                        old(self).tick_seen + 1
                    } else {
                        old(self).tick_seen as int
                    };
                    let keep = !is_tick || seen % (old(self).tick_every_n as int) == 0;
                    &&& final(self).tick_seen == seen
                    &&& final(self).oracle_events@ == if keep {
                        old(self).oracle_events@.push(e)
                    } else {
                        old(self).oracle_events@
                    }
                    &&& final(self).snapshots@ == old(self).snapshots@
                    &&& final(self).market_batches@ == old(self).market_batches@
                },
                DbOp::MarketUpserts(rows) => {
                    &&& final(self).market_batches@ == if rows@.len() > 0 {
                        old(self).market_batches@.push(rows)
                    } else {
                        old(self).market_batches@
                    }
                    &&& final(self).snapshots@ == old(self).snapshots@
                    &&& final(self).oracle_events@ == old(self).oracle_events@
                    &&& final(self).tick_seen == old(self).tick_seen
                },
            },
            flush == spec_flush_due(
                final(self).snapshots@.len(),
                final(self).oracle_events@.len(),
                final(self).market_batches@.len(),
            ),
    {
        self.received_rows = self.received_rows + 1;
        match op {
            DbOp::Snapshot(s) => {
                self.snapshots.push(s);
            },
            DbOp::OracleEvent(e) => {
                let keep = if is_tick {
                    self.tick_seen = self.tick_seen + 1;
                    self.tick_seen % self.tick_every_n == 0
                } else {
                    true
                };
                if keep {
                    self.oracle_events.push(e);
                }
            },
            DbOp::MarketUpserts(rows) => {
                if rows.len() > 0 {
                    self.market_batches.push(rows);
                }
            },
        }
        self.snapshots.len() >= SNAPSHOT_FLUSH_ROWS || self.oracle_events.len() >= SNAPSHOT_FLUSH_ROWS
            || self.market_batches.len() >= MARKET_FLUSH_BATCHES
    }

    /// After a failed flush: counts the error and drops the oldest buffered
    /// snapshot, or else the oldest oracle event, so that a row that cannot be
    /// written does not block the queue forever.
    pub fn on_flush_failed(&mut self) -> (dropped: RecoveryDrop)
        requires
            old(self).flush_errors < u64::MAX,
            old(self).recovered_drops < u64::MAX,
        ensures
            final(self).flush_errors == old(self).flush_errors + 1,
            final(self).market_batches@ == old(self).market_batches@,
            final(self).received_rows == old(self).received_rows,
            final(self).tick_seen == old(self).tick_seen,
            final(self).tick_every_n == old(self).tick_every_n,
            old(self).snapshots@.len() > 0 ==> {
                &&& dropped == RecoveryDrop::Snapshot
                &&& final(self).snapshots@ == old(self).snapshots@.drop_first()
                &&& final(self).oracle_events@ == old(self).oracle_events@
            },
            old(self).snapshots@.len() == 0 && old(self).oracle_events@.len() > 0 ==> {
                &&& dropped == RecoveryDrop::OracleEvent
                &&& final(self).snapshots@ == old(self).snapshots@
                &&& final(self).oracle_events@ == old(self).oracle_events@.drop_first()
            },
            old(self).snapshots@.len() == 0 && old(self).oracle_events@.len() == 0 ==> {
                &&& dropped == RecoveryDrop::Nothing
                &&& final(self).snapshots@ == old(self).snapshots@
                &&& final(self).oracle_events@ == old(self).oracle_events@
            },
            final(self).recovered_drops == old(self).recovered_drops + if dropped
                == RecoveryDrop::Nothing {
                0int
            } else {
                1int
            },
    {
        self.flush_errors = self.flush_errors + 1;
        if self.snapshots.len() > 0 {
            let ghost before = self.snapshots@;
            let _ = self.snapshots.remove(0);
            assert(self.snapshots@ =~= before.drop_first());
            self.recovered_drops = self.recovered_drops + 1;
            RecoveryDrop::Snapshot
        } else if self.oracle_events.len() > 0 {
            let ghost before = self.oracle_events@;
            let _ = self.oracle_events.remove(0);
            assert(self.oracle_events@ =~= before.drop_first());
            self.recovered_drops = self.recovered_drops + 1;
            RecoveryDrop::OracleEvent
        } else {
            RecoveryDrop::Nothing
        }
    }

    /// Rows waiting to be written (snapshots and oracle events).
    pub fn buffered_rows(&self) -> (n: u64)
        requires
            self.snapshots@.len() + self.oracle_events@.len() <= usize::MAX,
        ensures
            n == self.snapshots@.len() + self.oracle_events@.len(),
    {
        (self.snapshots.len() + self.oracle_events.len()) as u64
    }
}

/// The oracle event writer flushes once this many events are buffered.
pub const ORACLE_FLUSH_EVENTS: usize = 256;

/// Drops the oldest buffered item after a failed flush; `false` when there was none.
pub fn drop_oldest<T>(buf: &mut Vec<T>) -> (dropped: bool)
    ensures
        dropped == (old(buf)@.len() > 0),
        final(buf)@ == if dropped {
            old(buf)@.drop_first()
        } else {
            old(buf)@
        },
{
    if buf.len() > 0 {
        let ghost before = buf@;
        let _ = buf.remove(0);
        assert(buf@ =~= before.drop_first());
        true
    } else {
        false
    }
}

// ── Order-book sampler ───────────────────────────────────────────────────────

/// A token's latest row is emitted when nothing was emitted for it yet, or when
/// at least `interval_ms` passed since the last emitted row and either the book
/// changed noticeably or `force_ms` passed.
pub open spec fn spec_should_emit(
    last_emitted_ts: Option<i64>,
    now: i64,
    changed: bool,
    interval_ms: i64,
    force_ms: i64,
) -> bool {
    match last_emitted_ts {
        None => true,
        Some(prev) => {
            let elapsed = now - prev;
            elapsed >= interval_ms && (changed || elapsed >= force_ms)
        },
    }
}

/// See [`spec_should_emit`]; instants in milliseconds since the epoch.
pub fn should_emit_sample(
    last_emitted_ts: Option<i64>,
    now: i64,
    changed: bool,
    interval_ms: i64,
    force_ms: i64,
) -> (b: bool)
    ensures
        b == spec_should_emit(last_emitted_ts, now, changed, interval_ms, force_ms),
{
    match last_emitted_ts {
        None => true,
        Some(prev) => {
            let elapsed: i128 = now as i128 - prev as i128;
            elapsed >= interval_ms as i128 && (changed || elapsed >= force_ms as i128)
        },
    }
}

/// Sampler period from its configured value: at least 1 ms, read as `i64`
/// the way `as i64` reads a `u64`.
pub fn sampler_period_ms(configured: u64) -> (r: i64)
    ensures
        r == (if configured < 1 {
            1u64
        } else {
            configured
        }) as i64,
{
    let v: u64 = if configured < 1 {
        1
    } else {
        configured
    };
    v as i64
}

/// Law: once a row has been emitted for a token, a second one follows no
/// sooner than the sampling interval, however much the book changes.
pub proof fn lemma_sampler_respects_interval(
    prev: i64,
    now: i64,
    changed: bool,
    interval_ms: i64,
    force_ms: i64,
)
    requires
        now - prev < interval_ms,
    ensures
        !spec_should_emit(Some(prev), now, changed, interval_ms, force_ms),
{
}

/// Law: an unchanged book is still re-emitted once the force period has passed
/// (and the interval too).
pub proof fn lemma_sampler_forces_refresh(prev: i64, now: i64, interval_ms: i64, force_ms: i64)
    requires
        now - prev >= interval_ms,
        now - prev >= force_ms,
    ensures
        spec_should_emit(Some(prev), now, false, interval_ms, force_ms),
{
}

} // verus!
