//! Reconnect pacing of the streaming feeds.

use vstd::prelude::*;

verus! {

/// Longest wait between reconnect attempts of an exchange feed, in seconds.
pub const MAX_BACKOFF_SECS: u64 = 60;

/// Binance aggregated-trade feed.
pub struct BinanceClient;

/// Coinbase Exchange ticker feed.
pub struct CoinbaseClient;

/// Kraken ticker feed.
pub struct KrakenClient;

/// How a feed connection ended.
#[derive(Clone, Copy, Debug, PartialEq, Eq, Structural)]
pub enum StreamOutcome {
    /// The stream closed cleanly (or its consumer went away).
    Ended,
    /// Connecting or reading failed.
    Failed,
}

/// What to do before reconnecting, and the backoff to carry on.
#[derive(Clone, Copy, Debug, PartialEq, Eq, Structural)]
pub struct ReconnectStep {
    /// Seconds to wait before the next attempt; `None` to reconnect at once.
    pub sleep_secs: Option<u64>,
    pub next_backoff: u64,
}

pub open spec fn spec_exchange_step(backoff: u64, outcome: StreamOutcome) -> ReconnectStep {
    match outcome {
        StreamOutcome::Ended => ReconnectStep { sleep_secs: None, next_backoff: 1 },
        StreamOutcome::Failed => ReconnectStep {
            sleep_secs: Some(backoff),
            next_backoff: if 2 * backoff < MAX_BACKOFF_SECS {
                (2 * backoff) as u64
            } else {
                MAX_BACKOFF_SECS
            },
        },
    }
}

/// An exchange feed reconnects at once after a clean end and resets its
/// backoff to one second; after a failure it waits the current backoff and
/// doubles it, up to [`MAX_BACKOFF_SECS`].
pub fn exchange_reconnect_step(backoff: u64, outcome: StreamOutcome) -> (r: ReconnectStep)
    requires
        backoff <= u64::MAX / 2,
    ensures
        r == spec_exchange_step(backoff, outcome),
{
    match outcome {
        StreamOutcome::Ended => ReconnectStep { sleep_secs: None, next_backoff: 1 },
        StreamOutcome::Failed => {
            let doubled = backoff * 2;
            ReconnectStep {
                sleep_secs: Some(backoff),
                next_backoff: if doubled < MAX_BACKOFF_SECS {
                    doubled
                } else {
                    MAX_BACKOFF_SECS
                },
            }
        },
    }
}

/// Law: starting from one second, the exchange backoff stays between one
/// second and [`MAX_BACKOFF_SECS`], so no wait ever exceeds the cap.
pub proof fn lemma_exchange_backoff_bounded(backoff: u64, outcome: StreamOutcome)
    requires
        1 <= backoff <= MAX_BACKOFF_SECS,
    ensures
        1 <= spec_exchange_step(backoff, outcome).next_backoff <= MAX_BACKOFF_SECS,
        spec_exchange_step(backoff, outcome).sleep_secs matches Some(s) ==> 1 <= s
            <= MAX_BACKOFF_SECS,
{
}

/// Law: consecutive failures double the wait until it reaches the cap.
pub proof fn lemma_exchange_backoff_doubles(backoff: u64)
    requires
        1 <= backoff,
        2 * backoff <= MAX_BACKOFF_SECS,
    ensures
        spec_exchange_step(backoff, StreamOutcome::Failed).next_backoff == 2 * backoff,
{
}

/// Wait (ms) before the CLOB stream reconnects, and the backoff after it:
/// the wait is the current backoff, which then doubles up to the larger of
/// `max_backoff_ms` and the current backoff.
pub open spec fn spec_clob_step(backoff: u64, max_backoff_ms: u64) -> (u64, u64) {
    let cap = if max_backoff_ms > backoff {
        max_backoff_ms
    } else {
        backoff
    };
    let sleep = if backoff < cap {
        backoff
    } else {
        cap
    };
    let doubled = 2 * backoff;
    (sleep, if doubled < cap {
        doubled as u64
    } else {
        cap
    })
}

/// See [`spec_clob_step`].
pub fn clob_reconnect_step(backoff: u64, max_backoff_ms: u64) -> (r: (u64, u64))
    requires
        backoff <= u64::MAX / 2,
    ensures
        r == spec_clob_step(backoff, max_backoff_ms),
{
    let cap = if max_backoff_ms > backoff {
        max_backoff_ms
    } else {
        backoff
    };
    let sleep = if backoff < cap {
        backoff
    } else {
        cap
    };
    let doubled = backoff * 2;
    (sleep, if doubled < cap {
        doubled
    } else {
        cap
    })
}

/// Initial CLOB reconnect backoff: the configured one, at least 100 ms.
pub fn clob_initial_backoff(configured_ms: u64) -> (r: u64)
    ensures
        r == if configured_ms > 100 {
            configured_ms
        } else {
            100
        },
{
    if configured_ms > 100 {
        configured_ms
    } else {
        100
    }
}

/// Law: the CLOB stream always waits exactly its current backoff, the backoff
/// never shrinks, and once within the configured maximum it stays there.
pub proof fn lemma_clob_backoff_shape(backoff: u64, max_backoff_ms: u64)
    requires
        backoff <= u64::MAX / 2,
    ensures
        spec_clob_step(backoff, max_backoff_ms).0 == backoff,
        spec_clob_step(backoff, max_backoff_ms).1 >= backoff,
        backoff <= max_backoff_ms ==> spec_clob_step(backoff, max_backoff_ms).1 <= max_backoff_ms,
{
}

} // verus!
