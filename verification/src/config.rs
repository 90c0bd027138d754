//! Service configuration: addresses and feed URLs (overridable from the
//! environment) and the fixed indicator and aggregation settings.

use vstd::prelude::*;

verus! {

#[derive(Clone, Debug)]
pub struct Config {
    pub ws_listen_addr: String,
    pub http_listen_addr: String,
    pub log_level: String,
    pub binance_ws_url: String,
    pub coinbase_ws_url: String,
    pub kraken_ws_url: String,
    /// Polygon JSON-RPC used to read the Chainlink BTC/USD contract.
    pub polygon_rpc_url: String,
    pub ema_short_period: usize,
    pub ema_long_period: usize,
    pub rsi_period: usize,
    pub macd_fast_period: usize,
    pub macd_slow_period: usize,
    pub macd_signal_period: usize,
    pub volatility_period: usize,
    pub price_history_capacity: usize,
    pub aggregation_interval_ms: u64,
}

/// Whether `vars` sets `key`.
pub open spec fn var_set(vars: Seq<(String, String)>, key: Seq<char>) -> bool {
    exists|i: int| 0 <= i < vars.len() && #[trigger] vars[i].0@ == key
}

/// The value of the first setting of `key` in `vars`, or `default`.
pub open spec fn var_or(vars: Seq<(String, String)>, key: Seq<char>, default: Seq<char>) -> Seq<char> {
    if var_set(vars, key) {
        vars[choose|i: int|
            0 <= i < vars.len() && vars[i].0@ == key && forall|j: int|
                0 <= j < i ==> #[trigger] vars[j].0@ != key].1@
    } else {
        default
    }
}

fn var_or_default(vars: &Vec<(String, String)>, key: &str, default: &str) -> (r: String)
    ensures
        r@ == var_or(vars@, key@, default@),
{
    let mut i: usize = 0;
    while i < vars.len()
        invariant
            i <= vars@.len(),
            forall|j: int| 0 <= j < i ==> #[trigger] vars@[j].0@ != key@,
        decreases vars@.len() - i,
    {
        if crate::text::str_eq(vars[i].0.as_str(), key) {
            let ghost w = choose|k: int|
                0 <= k < vars@.len() && vars@[k].0@ == key@ && forall|j: int|
                    0 <= j < k ==> #[trigger] vars@[j].0@ != key@;
            proof {
                assert(var_set(vars@, key@));
                if w < i {
                    assert(vars@[w].0@ != key@);
                } else if w > i {
                    assert(vars@[i as int].0@ != key@);
                }
            }
            return vars[i].1.clone();
        }
        i = i + 1;
    }
    String::from_str(default)
}

impl Config {
    /// The configuration for the environment `vars` (name, value pairs); each
    /// address or URL falls back to its default when the variable is not set.
    pub fn from_vars(vars: &Vec<(String, String)>) -> (c: Self)
        ensures
            c.ws_listen_addr@ == var_or(vars@, "WS_LISTEN_ADDR"@, "127.0.0.1:8080"@),
            c.http_listen_addr@ == var_or(vars@, "HTTP_LISTEN_ADDR"@, "127.0.0.1:8081"@),
            c.log_level@ == var_or(vars@, "LOG_LEVEL"@, "info"@),
            c.binance_ws_url@ == var_or(
                vars@,
                "BINANCE_WS_URL"@,
                "wss://stream.binance.com:9443/ws"@,
            ),
            c.coinbase_ws_url@ == var_or(
                vars@,
                "COINBASE_WS_URL"@,
                "wss://ws-feed.exchange.coinbase.com"@,
            ),
            c.kraken_ws_url@ == var_or(vars@, "KRAKEN_WS_URL"@, "wss://ws.kraken.com/"@),
            c.polygon_rpc_url@ == var_or(vars@, "POLYGON_RPC_URL"@, "https://polygon-rpc.com"@),
            c.ema_short_period == 12,
            c.ema_long_period == 26,
            c.rsi_period == 14,
            c.macd_fast_period == 12,
            c.macd_slow_period == 26,
            c.macd_signal_period == 9,
            c.volatility_period == 20,
            c.price_history_capacity == 1000,
            c.aggregation_interval_ms == 500,
    {
        Config {
            ws_listen_addr: var_or_default(vars, "WS_LISTEN_ADDR", "127.0.0.1:8080"),
            http_listen_addr: var_or_default(vars, "HTTP_LISTEN_ADDR", "127.0.0.1:8081"),
            log_level: var_or_default(vars, "LOG_LEVEL", "info"),
            binance_ws_url: var_or_default(vars, "BINANCE_WS_URL", "wss://stream.binance.com:9443/ws"),
            coinbase_ws_url: var_or_default(
                vars,
                "COINBASE_WS_URL",
                "wss://ws-feed.exchange.coinbase.com",
            ),
            kraken_ws_url: var_or_default(vars, "KRAKEN_WS_URL", "wss://ws.kraken.com/"),
            polygon_rpc_url: var_or_default(vars, "POLYGON_RPC_URL", "https://polygon-rpc.com"),
            ema_short_period: 12,
            ema_long_period: 26,
            rsi_period: 14,
            macd_fast_period: 12,
            macd_slow_period: 26,
            macd_signal_period: 9,
            volatility_period: 20,
            price_history_capacity: 1000,
            aggregation_interval_ms: 500,
        }
    }
}

/// Periods of the indicators computed on the price history.
#[derive(Clone, Copy, Debug)]
pub struct IndicatorConfig {
    pub ema_short_period: usize,
    pub ema_long_period: usize,
    pub rsi_period: usize,
    pub volatility_period: usize,
    pub mro_5_bars: usize,
    pub mro_10_bars: usize,
    pub mro_15_bars: usize,
    pub mro_rank_window: usize,
}

/// Aggregation ticks per minute: the interval counts as at least 50 ms, and
/// there is at least one tick per minute.
pub open spec fn bars_per_minute(interval_ms: u64) -> int {
    let i: int = if interval_ms < 50 {
        50
    } else {
        interval_ms as int
    };
    let b: int = 60_000int / i;
    if b < 1 {
        1
    } else {
        b
    }
}

/// Indicator periods for `config`: the momentum-rank lookbacks span 5, 10 and
/// 15 minutes of ticks and rank over 30 minutes (at least 120 ticks).
pub fn indicator_config_for(config: &Config) -> (c: IndicatorConfig)
    ensures
        c.ema_short_period == config.ema_short_period,
        c.ema_long_period == config.ema_long_period,
        c.rsi_period == config.rsi_period,
        c.volatility_period == config.volatility_period,
        c.mro_5_bars == 5 * bars_per_minute(config.aggregation_interval_ms),
        c.mro_10_bars == 10 * bars_per_minute(config.aggregation_interval_ms),
        c.mro_15_bars == 15 * bars_per_minute(config.aggregation_interval_ms),
        c.mro_rank_window == if 30 * bars_per_minute(config.aggregation_interval_ms) < 120 {
            120
        } else {
            30 * bars_per_minute(config.aggregation_interval_ms)
        },
{
    let interval: u64 = if config.aggregation_interval_ms < 50 {
        50
    } else {
        config.aggregation_interval_ms
    };
    let per: u64 = 60_000 / interval;
    assert(per <= 1200) by (nonlinear_arith)
        requires
            interval >= 50,
            per == 60_000u64 / interval,
    ;
    let bpm: usize = if per < 1 {
        1
    } else {
        per as usize
    };
    assert(bpm <= 1200);
    let rank: usize = if 30 * bpm < 120 {
        120
    } else {
        30 * bpm
    };
    IndicatorConfig {
        ema_short_period: config.ema_short_period,
        ema_long_period: config.ema_long_period,
        rsi_period: config.rsi_period,
        volatility_period: config.volatility_period,
        mro_5_bars: 5 * bpm,
        mro_10_bars: 10 * bpm,
        mro_15_bars: 15 * bpm,
        mro_rank_window: rank,
    }
}

} // verus!
