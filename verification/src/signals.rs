//! Rising-edge detection of the oracle alert events.
//!
//! Every aggregation tick the numeric side (prices, deviation, bands) is
//! reduced to a handful of flags; this module turns the flags of the current
//! tick and the flags remembered from the previous tick into the alert events
//! to emit. Each alert fires once per transition into its condition, never on
//! every tick that the condition holds.

use vstd::prelude::*;

use crate::models::RoundDirection;
use crate::time::{secs_between, INSTANT_NS_BOUND};

verus! {

/// What the numeric side of one aggregation tick found.
#[derive(Clone, Copy, Debug)]
pub struct TickFlags {
    /// The tick's wall-clock time, in nanoseconds since the epoch.
    pub now_ns: i128,
    /// The committed Chainlink price differs from the one seen on the previous tick.
    pub baseline_changed: bool,
    /// Deviation from the baseline reached the round trigger threshold.
    pub round_imminent: bool,
    /// Side of the baseline the market price is on; `None` while no baseline is known.
    pub deviation_direction: Option<RoundDirection>,
    /// Deviation lies in the approach zone below the trigger threshold.
    pub deviation_approaching: bool,
    /// Side on which the price left its Bollinger band, if it did.
    pub bb_breakout: Option<RoundDirection>,
    /// Upper band, lower band and band width are all available.
    pub bb_details: bool,
    /// At least two pre-trigger signals agree.
    pub pre_trigger_active: bool,
}

/// Flags remembered between ticks.
#[derive(Clone, Copy, Debug)]
pub struct EdgeState {
    pub prev_round_imminent: bool,
    pub prev_deviation_approaching: bool,
    pub prev_bb_breakout_dir: Option<RoundDirection>,
    pub prev_pre_trigger: bool,
    /// Time of the last round trigger not yet followed by a settlement.
    pub round_imminent_since: Option<i128>,
}

/// Alert events decided for one tick. A tick event is always emitted besides these.
#[derive(Clone, Copy, Debug)]
pub struct TickEvents {
    /// `Some(duration)` when the round settled; the duration is known only if a
    /// trigger preceded the settlement.
    pub round_settled: Option<Option<u64>>,
    pub round_triggered: Option<RoundDirection>,
    pub deviation_approach: Option<RoundDirection>,
    pub bb_breakout: Option<RoundDirection>,
    pub pre_trigger_alert: bool,
}

impl EdgeState {
    /// Nothing seen yet.
    pub fn new() -> (s: Self)
        ensures
            s == Self::initial(),
    {
        EdgeState {
            prev_round_imminent: false,
            prev_deviation_approaching: false,
            prev_bb_breakout_dir: None,
            prev_pre_trigger: false,
            round_imminent_since: None,
        }
    }

    pub open spec fn initial() -> Self {
        EdgeState {
            prev_round_imminent: false,
            prev_deviation_approaching: false,
            prev_bb_breakout_dir: None,
            prev_pre_trigger: false,
            round_imminent_since: None,
        }
    }
}

/// Seconds elapsed since `since`, counted as zero when `since` lies in the future.
pub open spec fn elapsed_secs_clamped(now: i128, since: i128) -> u64 {
    let s = secs_between(now, since);
    if s < 0 {
        0
    } else {
        s as u64
    }
}

/// Alert events owed for `flags` after the state `s`.
pub open spec fn spec_events(s: EdgeState, flags: TickFlags) -> TickEvents {
    let details = flags.deviation_direction is Some;
    TickEvents {
        round_settled: if flags.baseline_changed {
            Some(
                match s.round_imminent_since {
                    Some(t) => Some(elapsed_secs_clamped(flags.now_ns, t)),
                    None => None,
                },
            )
        } else {
            None
        },
        round_triggered: if flags.round_imminent && !s.prev_round_imminent && details {
            flags.deviation_direction
        } else {
            None
        },
        deviation_approach: if flags.deviation_approaching && !s.prev_deviation_approaching
            && details {
            flags.deviation_direction
        } else {
            None
        },
        bb_breakout: if flags.bb_breakout is Some && s.prev_bb_breakout_dir is None
            && flags.bb_details {
            flags.bb_breakout
        } else {
            None
        },
        pre_trigger_alert: flags.pre_trigger_active && !s.prev_pre_trigger && details,
    }
}

/// State remembered after `flags`.
pub open spec fn spec_next_state(s: EdgeState, flags: TickFlags) -> EdgeState {
    let after_settle = if flags.baseline_changed {
        None
    } else {
        s.round_imminent_since
    };
    let since = if flags.round_imminent && !s.prev_round_imminent
        && flags.deviation_direction is Some {
        Some(flags.now_ns)
    } else {
        after_settle
    };
    EdgeState {
        prev_round_imminent: flags.round_imminent,
        prev_deviation_approaching: flags.deviation_approaching,
        prev_bb_breakout_dir: flags.bb_breakout,
        prev_pre_trigger: flags.pre_trigger_active,
        round_imminent_since: since,
    }
}

fn elapsed_secs(now: i128, since: i128) -> (r: u64)
    requires
        -INSTANT_NS_BOUND <= now <= INSTANT_NS_BOUND,
        -INSTANT_NS_BOUND <= since <= INSTANT_NS_BOUND,
    ensures
        r == elapsed_secs_clamped(now, since),
{
    let d: i128 = now - since;
    if d >= 0 {
        let q: i128 = d / 1_000_000_000;
        q as u64
    } else {
        0
    }
}

/// Advances the edge detector by one tick and returns the alert events to emit,
/// in the order settled, triggered, approach, breakout, pre-trigger.
pub fn detect_tick_events(state: &mut EdgeState, flags: TickFlags) -> (ev: TickEvents)
    requires
        -INSTANT_NS_BOUND <= flags.now_ns <= INSTANT_NS_BOUND,
        old(state).round_imminent_since matches Some(t) ==> -INSTANT_NS_BOUND <= t <= INSTANT_NS_BOUND,
    ensures
        ev.round_triggered matches Some(d) ==> flags.deviation_direction == Some(d),
        ev.deviation_approach matches Some(d) ==> flags.deviation_direction == Some(d),
        ev.bb_breakout matches Some(d) ==> flags.bb_breakout == Some(d),
        ev == spec_events(*old(state), flags),
        *final(state) == spec_next_state(*old(state), flags),
{
    let details = flags.deviation_direction.is_some();

    let mut round_settled: Option<Option<u64>> = None;
    if flags.baseline_changed {
        let duration = match state.round_imminent_since {
            Some(t) => Some(elapsed_secs(flags.now_ns, t)),
            None => None,
        };
        round_settled = Some(duration);
        state.round_imminent_since = None;
    }

    let mut round_triggered: Option<RoundDirection> = None;
    if flags.round_imminent && !state.prev_round_imminent {
        if details {
            round_triggered = flags.deviation_direction;
            state.round_imminent_since = Some(flags.now_ns);
        }
    }
    state.prev_round_imminent = flags.round_imminent;

    let mut deviation_approach: Option<RoundDirection> = None;
    if flags.deviation_approaching && !state.prev_deviation_approaching {
        if details {
            deviation_approach = flags.deviation_direction;
        }
    }
    state.prev_deviation_approaching = flags.deviation_approaching;

    let mut bb_breakout: Option<RoundDirection> = None;
    if flags.bb_breakout.is_some() && state.prev_bb_breakout_dir.is_none() {
        if flags.bb_details {
            bb_breakout = flags.bb_breakout;
        }
    }
    state.prev_bb_breakout_dir = flags.bb_breakout;

    let mut pre_trigger_alert = false;
    if flags.pre_trigger_active && !state.prev_pre_trigger {
        if details {
            pre_trigger_alert = true;
        }
    }
    state.prev_pre_trigger = flags.pre_trigger_active;

    TickEvents { round_settled, round_triggered, deviation_approach, bb_breakout, pre_trigger_alert }
}

// ── Laws ─────────────────────────────────────────────────────────────────────

/// An alert fires only on the tick where its condition becomes true: the
/// condition holds now and did not hold on the previous tick.
pub proof fn lemma_alerts_fire_on_rising_edge(s: EdgeState, flags: TickFlags)
    ensures
        spec_events(s, flags).round_triggered is Some ==> flags.round_imminent
            && !s.prev_round_imminent,
        spec_events(s, flags).deviation_approach is Some ==> flags.deviation_approaching
            && !s.prev_deviation_approaching,
        spec_events(s, flags).bb_breakout is Some ==> flags.bb_breakout is Some
            && s.prev_bb_breakout_dir is None,
        spec_events(s, flags).pre_trigger_alert ==> flags.pre_trigger_active
            && !s.prev_pre_trigger,
        spec_events(s, flags).round_settled is Some <==> flags.baseline_changed,
{
}

/// An alert that fires points to the side the market is on: a round trigger
/// and a deviation approach carry the tick's deviation direction (UP when the
/// market is above the Chainlink baseline), and a band breakout carries the
/// side on which the price left its band.
pub proof fn lemma_alerts_carry_their_side(s: EdgeState, flags: TickFlags)
    ensures
        spec_events(s, flags).round_triggered matches Some(d) ==> flags.deviation_direction == Some(d),
        spec_events(s, flags).deviation_approach matches Some(d) ==> flags.deviation_direction == Some(
            d,
        ),
        spec_events(s, flags).bb_breakout matches Some(d) ==> flags.bb_breakout == Some(d),
{
}

/// Repeating the same observation on the next tick raises no alert again:
/// while a condition persists its alert stays silent.
pub proof fn lemma_steady_conditions_stay_silent(s: EdgeState, f1: TickFlags, f2: TickFlags)
    requires
        f2.round_imminent == f1.round_imminent,
        f2.deviation_approaching == f1.deviation_approaching,
        f2.bb_breakout is Some <==> f1.bb_breakout is Some,
        f2.pre_trigger_active == f1.pre_trigger_active,
    ensures
        ({
            let e = spec_events(spec_next_state(s, f1), f2);
            &&& e.round_triggered is None
            &&& e.deviation_approach is None
            &&& e.bb_breakout is None
            &&& !e.pre_trigger_alert
        }),
{
}

/// A trigger followed, on a later tick, by a settlement reports as the round's
/// duration the whole seconds between the two ticks, provided no settlement or
/// other trigger came in between.
pub proof fn lemma_settlement_measures_from_trigger(
    s: EdgeState,
    trigger: TickFlags,
    settle: TickFlags,
)
    requires
        spec_events(s, trigger).round_triggered is Some,
        settle.baseline_changed,
        settle.now_ns >= trigger.now_ns,
    ensures
        spec_events(spec_next_state(s, trigger), settle).round_settled == Some(
            Some((secs_between(settle.now_ns, trigger.now_ns)) as u64),
        ),
{
}

/// A settlement ends the measured window: until the next trigger, a further
/// settlement reports no duration.
pub proof fn lemma_settlement_closes_window(s: EdgeState, settle: TickFlags, next: TickFlags)
    requires
        settle.baseline_changed,
        spec_events(s, settle).round_triggered is None,
        next.baseline_changed,
    ensures
        spec_events(spec_next_state(s, settle), next).round_settled == Some(None::<u64>),
{
}

} // verus!
