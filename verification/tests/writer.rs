use oracle_proxy::writer::{
    drop_oldest, env_flag, env_u64_or, sampler_period_ms, should_emit_sample, DbOp, RecoveryDrop,
    WriterBuffers, MARKET_FLUSH_BATCHES, SNAPSHOT_FLUSH_ROWS,
};

#[test]
fn environment_switches_and_numbers() {
    for on in ["1", "TRUE", "Yes", "on"] {
        assert!(env_flag(Some(on), false), "{on}");
    }
    assert!(!env_flag(Some("off"), true));
    assert!(env_flag(None, true));
    assert_eq!(env_u64_or(Some("250"), 7), 250);
    assert_eq!(env_u64_or(Some("x"), 7), 7);
    assert_eq!(env_u64_or(None, 7), 7);
}

#[test]
fn writer_thins_ticks_and_flushes_by_size() {
    let mut w: WriterBuffers<u32, u32, u32> = WriterBuffers::new(0);
    assert_eq!(w.tick_every_n, 1);
    let mut w: WriterBuffers<u32, u32, u32> = WriterBuffers::new(3);
    for i in 0..6 {
        w.accept(DbOp::OracleEvent(i), true);
    }
    assert_eq!(w.oracle_events.len(), 2);
    w.accept(DbOp::OracleEvent(99), false);
    assert_eq!(w.oracle_events.last(), Some(&99));
    assert_eq!(w.received_rows, 7);
    assert!(!w.accept(DbOp::MarketUpserts(Vec::new()), false));
    assert!(w.market_batches.is_empty());

    let mut flushed_at = None;
    for i in 0..SNAPSHOT_FLUSH_ROWS {
        if w.accept(DbOp::Snapshot(i as u32), false) {
            flushed_at = Some(i);
            break;
        }
    }
    assert_eq!(flushed_at, Some(SNAPSHOT_FLUSH_ROWS - 1));

    let mut m: WriterBuffers<u32, u32, u32> = WriterBuffers::new(1);
    let mut due = false;
    for _ in 0..MARKET_FLUSH_BATCHES {
        due = m.accept(DbOp::MarketUpserts(vec![1]), false);
    }
    assert!(due);
}

#[test]
fn failed_flush_drops_oldest_snapshot_then_event() {
    let mut w: WriterBuffers<u32, u32, u32> = WriterBuffers::new(1);
    w.accept(DbOp::Snapshot(1), false);
    w.accept(DbOp::Snapshot(2), false);
    w.accept(DbOp::OracleEvent(9), false);
    assert_eq!(w.buffered_rows(), 3);
    assert_eq!(w.on_flush_failed(), RecoveryDrop::Snapshot);
    assert_eq!(w.snapshots, vec![2]);
    assert_eq!(w.on_flush_failed(), RecoveryDrop::Snapshot);
    assert_eq!(w.on_flush_failed(), RecoveryDrop::OracleEvent);
    assert_eq!(w.on_flush_failed(), RecoveryDrop::Nothing);
    assert_eq!(w.flush_errors, 4);
    assert_eq!(w.recovered_drops, 3);

    let mut v = vec![1, 2, 3];
    assert!(drop_oldest(&mut v));
    assert_eq!(v, vec![2, 3]);
    let mut e: Vec<u8> = Vec::new();
    assert!(!drop_oldest(&mut e));
}

#[test]
fn sampler_emission_rule() {
    assert!(should_emit_sample(None, 0, false, 1_000, 5_000));
    assert!(!should_emit_sample(Some(0), 999, true, 1_000, 5_000));
    assert!(should_emit_sample(Some(0), 1_000, true, 1_000, 5_000));
    assert!(!should_emit_sample(Some(0), 4_999, false, 1_000, 5_000));
    assert!(should_emit_sample(Some(0), 5_000, false, 1_000, 5_000));
    assert_eq!(sampler_period_ms(0), 1);
    assert_eq!(sampler_period_ms(250), 250);
    assert_eq!(sampler_period_ms(u64::MAX), -1);
}
