use oracle_proxy::models::RoundDirection;
use oracle_proxy::signals::{detect_tick_events, EdgeState, TickFlags};

fn quiet(now_ms: i128) -> TickFlags {
    TickFlags {
        now_ns: now_ms * 1_000_000,
        baseline_changed: false,
        round_imminent: false,
        deviation_direction: Some(RoundDirection::Up),
        deviation_approaching: false,
        bb_breakout: None,
        bb_details: true,
        pre_trigger_active: false,
    }
}

#[test]
fn trigger_fires_once_then_settles_with_duration() {
    let mut s = EdgeState::new();
    let mut f = quiet(1_000);
    f.round_imminent = true;
    let ev = detect_tick_events(&mut s, f);
    assert_eq!(ev.round_triggered, Some(RoundDirection::Up));
    assert!(ev.round_settled.is_none());
    assert_eq!(s.round_imminent_since, Some(1_000_000_000));

    // Condition still holds: no second alert.
    let mut f2 = quiet(2_000);
    f2.round_imminent = true;
    let ev = detect_tick_events(&mut s, f2);
    assert_eq!(ev.round_triggered, None);

    // Baseline moves 61.5 s after the trigger.
    let mut f3 = quiet(62_500);
    f3.baseline_changed = true;
    let ev = detect_tick_events(&mut s, f3);
    assert_eq!(ev.round_settled, Some(Some(61)));
    assert_eq!(s.round_imminent_since, None);
}

#[test]
fn settlement_without_trigger_has_no_duration() {
    let mut s = EdgeState::new();
    let mut f = quiet(5_000);
    f.baseline_changed = true;
    let ev = detect_tick_events(&mut s, f);
    assert_eq!(ev.round_settled, Some(None));
}

#[test]
fn alerts_need_direction_and_rising_edge() {
    let mut s = EdgeState::new();
    let mut f = quiet(1);
    f.deviation_direction = None;
    f.deviation_approaching = true;
    f.pre_trigger_active = true;
    let ev = detect_tick_events(&mut s, f);
    assert_eq!(ev.deviation_approach, None);
    assert!(!ev.pre_trigger_alert);
    // The flags were remembered: the next tick is no rising edge.
    let mut f2 = quiet(2);
    f2.deviation_direction = Some(RoundDirection::Down);
    f2.deviation_approaching = true;
    f2.pre_trigger_active = true;
    let ev = detect_tick_events(&mut s, f2);
    assert_eq!(ev.deviation_approach, None);
    assert!(!ev.pre_trigger_alert);
}

#[test]
fn breakout_alert_on_first_breakout_tick_only() {
    let mut s = EdgeState::new();
    let mut f = quiet(1);
    f.bb_breakout = Some(RoundDirection::Down);
    let ev = detect_tick_events(&mut s, f);
    assert_eq!(ev.bb_breakout, Some(RoundDirection::Down));
    let ev = detect_tick_events(&mut s, f);
    assert_eq!(ev.bb_breakout, None);
    let ev = detect_tick_events(&mut s, quiet(3));
    assert_eq!(ev.bb_breakout, None);
    let mut f4 = quiet(4);
    f4.bb_breakout = Some(RoundDirection::Up);
    f4.bb_details = false;
    let ev = detect_tick_events(&mut s, f4);
    assert_eq!(ev.bb_breakout, None);
}
