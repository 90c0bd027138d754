//! Service health report.

use vstd::prelude::*;

verus! {

/// The parts of a health report that carry no price.
pub struct HealthSummary {
    pub status: String,
    pub uptime_seconds: u64,
    /// (exchange, state) pairs.
    pub exchanges: Vec<(String, String)>,
    pub chainlink_baseline_age_secs: Option<u64>,
    pub price_freshness_ms: u64,
    pub websocket_clients: usize,
}

/// Answers health probes; it keeps no state yet.
pub struct HealthChecker {}

impl HealthChecker {
    pub fn new() -> (h: Self)
        ensures
            h == (HealthChecker {}),
    {
        HealthChecker {  }
    }

    /// Always `healthy`, with zero uptime, freshness and clients, no exchanges
    /// and no baseline age.
    pub fn check_health(&self) -> (r: HealthSummary)
        ensures
            r.status@ == "healthy"@,
            r.uptime_seconds == 0,
            r.exchanges@.len() == 0,
            r.chainlink_baseline_age_secs is None,
            r.price_freshness_ms == 0,
            r.websocket_clients == 0,
    {
        HealthSummary {
            status: String::from_str("healthy"),
            uptime_seconds: 0,
            exchanges: Vec::new(),
            chainlink_baseline_age_secs: None,
            price_freshness_ms: 0,
            websocket_clients: 0,
        }
    }
}

} // verus!
