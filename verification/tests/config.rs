use oracle_proxy::config::{indicator_config_for, Config};

#[test]
fn test_config_defaults() {
    let config = Config::from_vars(&Vec::new());
    assert_eq!(config.ema_short_period, 12);
    assert_eq!(config.rsi_period, 14);
}

#[test]
fn config_takes_first_setting_and_defaults() {
    let vars = vec![
        ("WS_LISTEN_ADDR".to_string(), "0.0.0.0:9000".to_string()),
        ("WS_LISTEN_ADDR".to_string(), "0.0.0.0:9999".to_string()),
    ];
    let config = Config::from_vars(&vars);
    assert_eq!(config.ws_listen_addr, "0.0.0.0:9000");
    assert_eq!(config.http_listen_addr, "127.0.0.1:8081");
    assert_eq!(config.log_level, "info");
    assert_eq!(config.kraken_ws_url, "wss://ws.kraken.com/");
    assert_eq!(config.aggregation_interval_ms, 500);
    assert_eq!(config.price_history_capacity, 1000);
}

#[test]
fn indicator_periods_follow_tick_interval() {
    let config = Config::from_vars(&Vec::new());
    let ind = indicator_config_for(&config);
    // 500 ms ticks: 120 per minute.
    assert_eq!(ind.mro_5_bars, 600);
    assert_eq!(ind.mro_10_bars, 1200);
    assert_eq!(ind.mro_15_bars, 1800);
    assert_eq!(ind.mro_rank_window, 3600);
    assert_eq!(ind.ema_long_period, 26);

    let mut slow = Config::from_vars(&Vec::new());
    slow.aggregation_interval_ms = 120_000;
    let ind = indicator_config_for(&slow);
    assert_eq!(ind.mro_5_bars, 5);
    assert_eq!(ind.mro_rank_window, 120);

    let mut fast = Config::from_vars(&Vec::new());
    fast.aggregation_interval_ms = 10;
    let ind = indicator_config_for(&fast);
    assert_eq!(ind.mro_5_bars, 6000);
}
