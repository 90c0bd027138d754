use oracle_proxy::backoff::{
    clob_initial_backoff, clob_reconnect_step, exchange_reconnect_step, ReconnectStep, StreamOutcome,
    MAX_BACKOFF_SECS,
};

#[test]
fn exchange_backoff_doubles_to_the_cap_and_resets() {
    assert_eq!(
        exchange_reconnect_step(4, StreamOutcome::Failed),
        ReconnectStep { sleep_secs: Some(4), next_backoff: 8 }
    );
    assert_eq!(
        exchange_reconnect_step(40, StreamOutcome::Failed),
        ReconnectStep { sleep_secs: Some(40), next_backoff: MAX_BACKOFF_SECS }
    );
    assert_eq!(
        exchange_reconnect_step(60, StreamOutcome::Ended),
        ReconnectStep { sleep_secs: None, next_backoff: 1 }
    );
    let mut b = 1;
    for _ in 0..10 {
        b = exchange_reconnect_step(b, StreamOutcome::Failed).next_backoff;
        assert!(b <= MAX_BACKOFF_SECS);
    }
    assert_eq!(b, 60);
}

#[test]
fn clob_backoff_steps() {
    assert_eq!(clob_reconnect_step(1_000, 30_000), (1_000, 2_000));
    assert_eq!(clob_reconnect_step(20_000, 30_000), (20_000, 30_000));
    assert_eq!(clob_reconnect_step(5_000, 100), (5_000, 5_000));
    assert_eq!(clob_initial_backoff(50), 100);
    assert_eq!(clob_initial_backoff(250), 250);
}
