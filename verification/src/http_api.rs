//! Request rules of the HTTP API: metadata cache rows, LMSR parameter and
//! health bookkeeping, and pre-signed transaction queue admission.
//!
//! Checks on floating-point fields are made by the caller and handed in as
//! booleans; everything else is decided here.

use vstd::prelude::*;

use crate::text::{eq_ignore_ascii_case, spec_eq_ignore_ascii_case, to_uppercase, trim, unicode_trimmed, unicode_uppercase};
use crate::time::{seconds_between, secs_between, INSTANT_NS_BOUND};

verus! {

/// An HTTP status with the plain-text reason sent back.
#[derive(Debug)]
pub struct ApiRejection {
    pub status: u16,
    pub message: String,
}

pub const BAD_REQUEST: u16 = 400;

pub const NOT_FOUND: u16 = 404;

pub const CONFLICT: u16 = 409;

/// Cached order metadata of a token.
#[derive(Debug)]
pub struct MetaCached {
    pub token_id: String,
    pub tick_size: Option<String>,
    pub fee_rate_bps: Option<u32>,
    pub neg_risk: Option<bool>,
    pub source: String,
}

/// Metadata supplied by a client to seed the cache.
#[derive(Debug)]
pub struct SeedMetaRequest {
    pub token_id: String,
    pub tick_size: Option<String>,
    pub fee_rate_bps: Option<u32>,
    pub neg_risk: Option<bool>,
}

/// The text is empty or white space only.
pub open spec fn blank(s: Seq<char>) -> bool {
    unicode_trimmed(s).len() == 0
}

fn is_blank(s: &str) -> (b: bool)
    ensures
        b == blank(s@),
{
    trim(s).unicode_len() == 0
}

fn reject(status: u16, message: &str) -> (r: ApiRejection)
    ensures
        r.status == status,
        r.message@ == message@,
{
    ApiRejection { status, message: String::from_str(message) }
}

/// The cache row for a seed request; rejected when the token id is blank.
pub fn seed_metadata_row(req: SeedMetaRequest) -> (r: Result<MetaCached, ApiRejection>)
    ensures
        blank(req.token_id@) <==> r is Err,
        r matches Err(e) ==> e.status == BAD_REQUEST && e.message@ == "token_id required"@,
        r matches Ok(m) ==> {
            &&& m.token_id@ == req.token_id@
            &&& m.tick_size == req.tick_size
            &&& m.fee_rate_bps == req.fee_rate_bps
            &&& m.neg_risk == req.neg_risk
            &&& m.source@ == "seed"@
        },
{
    if is_blank(req.token_id.as_str()) {
        return Err(reject(BAD_REQUEST, "token_id required"));
    }
    Ok(
        MetaCached {
            token_id: req.token_id,
            tick_size: req.tick_size,
            fee_rate_bps: req.fee_rate_bps,
            neg_risk: req.neg_risk,
            source: String::from_str("seed"),
        },
    )
}

/// The cache row built from the CLOB REST replies: the tick size defaults to
/// `0.01`, the base fee is narrowed to 32 bits as `as u32` does.
pub fn resolved_metadata_row(
    token_id: String,
    tick_size: Option<String>,
    base_fee: Option<u64>,
    neg_risk: Option<bool>,
) -> (m: MetaCached)
    ensures
        m.token_id@ == token_id@,
        match tick_size {
            Some(t) => m.tick_size matches Some(mt) && mt@ == t@,
            None => m.tick_size matches Some(mt) && mt@ == "0.01"@,
        },
        m.fee_rate_bps == match base_fee {
            Some(f) => Some((f % 0x1_0000_0000) as u32),
            None => None::<u32>,
        },
        m.neg_risk == neg_risk,
        m.source@ == "rest"@,
{
    let tick = match tick_size {
        Some(t) => Some(t),
        None => Some(String::from_str("0.01")),
    };
    let fee = match base_fee {
        Some(f) => {
            let v: u32 = (f % 0x1_0000_0000) as u32;
            Some(v)
        },
        None => None,
    };
    MetaCached { token_id, tick_size: tick, fee_rate_bps: fee, neg_risk, source: String::from_str("rest") }
}

/// Summary of the expected-probability model returned by the API.
#[derive(Debug)]
pub struct ExpectedPModelResponse {
    pub ok: bool,
    pub version: Option<String>,
    pub enabled: bool,
    pub coef_count: usize,
}

/// The model held, if any, reported as `(version, enabled, coefficient count)`.
pub fn expected_model_summary(model: Option<(String, bool, usize)>) -> (r: ExpectedPModelResponse)
    ensures
        r.ok == model is Some,
        match model {
            Some((v, e, c)) => r.version matches Some(rv) && rv@ == v@ && r.enabled == e
                && r.coef_count == c,
            None => r.version is None && !r.enabled && r.coef_count == 0,
        },
{
    match model {
        Some((v, e, c)) => ExpectedPModelResponse { ok: true, version: Some(v), enabled: e, coef_count: c },
        None => ExpectedPModelResponse { ok: false, version: None, enabled: false, coef_count: 0 },
    }
}

/// Checks of a model upload: a version is required, the intercept must be finite.
pub fn validate_expected_model(version: &str, intercept_finite: bool) -> (r: Result<(), ApiRejection>)
    ensures
        r is Ok <==> !blank(version@) && intercept_finite,
        r matches Err(e) ==> e.status == BAD_REQUEST && e.message@ == (if blank(version@) {
            "version required"@
        } else {
            "intercept must be finite"@
        }),
{
    if is_blank(version) {
        return Err(reject(BAD_REQUEST, "version required"));
    }
    if !intercept_finite {
        return Err(reject(BAD_REQUEST, "intercept must be finite"));
    }
    Ok(())
}

// ── LMSR parameters ──────────────────────────────────────────────────────────

/// Activation times must sit on the 30-second bar grid.
pub open spec fn on_bar_grid(effective_from_secs: i64) -> bool {
    effective_from_secs % 30 == 0
}

/// Checks of an LMSR parameter upload, in order: version present, `b > 0`
/// (`b_valid`), `alpha` in `(0, 10]` (`alpha_valid`), activation on the bar grid.
pub fn validate_lmsr_params(version: &str, b_valid: bool, alpha_valid: bool, effective_from_secs: i64) -> (r:
    Result<(), ApiRejection>)
    ensures
        r is Ok <==> !blank(version@) && b_valid && alpha_valid && on_bar_grid(effective_from_secs),
        r matches Err(e) ==> e.status == BAD_REQUEST && e.message@ == (if blank(version@) {
            "version required"@
        } else if !b_valid {
            "b must be > 0"@
        } else if !alpha_valid {
            "alpha out of range (0, 10]"@
        } else {
            "effective_from must align to 30s bar boundary"@
        }),
{
    if is_blank(version) {
        return Err(reject(BAD_REQUEST, "version required"));
    }
    if !b_valid {
        return Err(reject(BAD_REQUEST, "b must be > 0"));
    }
    if !alpha_valid {
        return Err(reject(BAD_REQUEST, "alpha out of range (0, 10]"));
    }
    let rem: i64 = if effective_from_secs >= 0 {
        effective_from_secs % 30
    } else {
        let m: i128 = (-(effective_from_secs as i128)) % 30;
        assert((-(effective_from_secs as int)) % 30 == 0 <==> (effective_from_secs as int) % 30 == 0);
        m as i64
    };
    if rem != 0 {
        return Err(reject(BAD_REQUEST, "effective_from must align to 30s bar boundary"));
    }
    Ok(())
}

/// Status recorded with a parameter set: `pending` until it takes effect
/// (instants in nanoseconds since the epoch).
pub fn lmsr_status(effective_from_ns: i128, now_ns: i128) -> (s: &'static str)
    ensures
        s@ == (if effective_from_ns > now_ns {
            "pending"@
        } else {
            "effective_now"@
        }),
{
    if effective_from_ns > now_ns {
        "pending"
    } else {
        "effective_now"
    }
}

/// `i` holds the latest activation time not after `now`; the first such among equals.
pub open spec fn is_active_index(effective_from: Seq<i128>, now: i128, i: int) -> bool {
    &&& 0 <= i < effective_from.len()
    &&& effective_from[i] <= now
    &&& forall|j: int|
        0 <= j < effective_from.len() && #[trigger] effective_from[j] <= now ==> effective_from[j]
            <= effective_from[i]
    &&& forall|j: int|
        0 <= j < i && #[trigger] effective_from[j] <= now ==> effective_from[j] < effective_from[i]
}

/// The parameter set in force at `now`: among those already effective, the one
/// that took effect last (the first listed among equals); `None` when none is
/// effective. Instants in nanoseconds since the epoch.
pub fn active_lmsr_record_index(effective_from: &Vec<i128>, now: i128) -> (r: Option<usize>)
    ensures
        match r {
            Some(i) => is_active_index(effective_from@, now, i as int),
            None => forall|j: int| 0 <= j < effective_from@.len() ==> effective_from@[j] > now,
        },
{
    let mut best: Option<usize> = None;
    let mut k: usize = 0;
    while k < effective_from.len()
        invariant
            k <= effective_from@.len(),
            match best {
                Some(b) => {
                    &&& b < k
                    &&& effective_from@[b as int] <= now
                    &&& forall|j: int|
                        0 <= j < k && #[trigger] effective_from@[j] <= now ==> effective_from@[j]
                            <= effective_from@[b as int]
                    &&& forall|j: int|
                        0 <= j < b && #[trigger] effective_from@[j] <= now ==> effective_from@[j]
                            < effective_from@[b as int]
                },
                None => forall|j: int| 0 <= j < k ==> effective_from@[j] > now,
            },
        decreases effective_from@.len() - k,
    {
        let t = effective_from[k];
        if t <= now {
            match best {
                None => {
                    best = Some(k);
                },
                Some(b) => {
                    if t > effective_from[b] {
                        best = Some(k);
                    }
                },
            }
        }
        k = k + 1;
    }
    best
}

// ── LMSR health ──────────────────────────────────────────────────────────────

/// A client's report on model health.
#[derive(Debug)]
pub struct LmsrHealthTriggerRequest {
    pub degraded: bool,
    pub reason: Option<String>,
}

#[derive(Debug)]
pub struct LmsrHealthTriggerResponse {
    pub ok: bool,
    pub degraded: bool,
    pub active_version: Option<String>,
    pub last_good_version: Option<String>,
    pub message: String,
}

/// Outcome of a health report: the reply, the version whose rollback counter
/// is bumped, and the last-good version to keep.
pub struct LmsrHealthDecision {
    pub response: LmsrHealthTriggerResponse,
    pub rollback_version: Option<String>,
    pub last_good_version: Option<String>,
}

pub open spec fn opt_view(o: Option<String>) -> Option<Seq<char>> {
    match o {
        Some(s) => Some(s@),
        None => None,
    }
}

/// A degraded report rolls back to the last good version when there is one;
/// a healthy report records the version active now as the last good one.
pub open spec fn health_decision_ok(
    req: LmsrHealthTriggerRequest,
    last_good: Option<Seq<char>>,
    active_now: Option<Seq<char>>,
    d: LmsrHealthDecision,
) -> bool {
    if req.degraded {
        match last_good {
            Some(v) => {
                &&& d.response.ok
                &&& d.response.degraded
                &&& opt_view(d.response.active_version) == Some(v)
                &&& opt_view(d.response.last_good_version) == Some(v)
                &&& d.response.message@ == match req.reason {
                    Some(r) => r@,
                    None => "health degraded: rollback to last_good_version requested"@,
                }
                &&& opt_view(d.rollback_version) == Some(v)
                &&& opt_view(d.last_good_version) == Some(v)
            },
            None => {
                &&& !d.response.ok
                &&& d.response.degraded
                &&& opt_view(d.response.active_version) == active_now
                &&& d.response.last_good_version is None
                &&& d.response.message@ == "health degraded but no last_good_version available"@
                &&& d.rollback_version is None
                &&& d.last_good_version is None
            },
        }
    } else {
        let kept = match active_now {
            Some(a) => Some(a),
            None => last_good,
        };
        &&& d.response.ok
        &&& !d.response.degraded
        &&& opt_view(d.response.active_version) == active_now
        &&& opt_view(d.response.last_good_version) == kept
        &&& d.response.message@ == "health restored; active version recorded as last_good_version"@
        &&& d.rollback_version is None
        &&& opt_view(d.last_good_version) == kept
    }
}

fn clone_opt(o: &Option<String>) -> (r: Option<String>)
    ensures
        opt_view(r) == opt_view(*o),
{
    match o {
        Some(s) => Some(s.clone()),
        None => None,
    }
}

/// Applies a health report; see [`health_decision_ok`].
pub fn decide_lmsr_health(
    req: LmsrHealthTriggerRequest,
    last_good: Option<String>,
    active_now: Option<String>,
) -> (d: LmsrHealthDecision)
    ensures
        health_decision_ok(req, opt_view(last_good), opt_view(active_now), d),
{
    if req.degraded {
        match last_good {
            Some(v) => {
                let message = match &req.reason {
                    Some(r) => r.clone(),
                    None => String::from_str("health degraded: rollback to last_good_version requested"),
                };
                LmsrHealthDecision {
                    response: LmsrHealthTriggerResponse {
                        ok: true,
                        degraded: true,
                        active_version: Some(v.clone()),
                        last_good_version: Some(v.clone()),
                        message,
                    },
                    rollback_version: Some(v.clone()),
                    last_good_version: Some(v),
                }
            },
            None => LmsrHealthDecision {
                response: LmsrHealthTriggerResponse {
                    ok: false,
                    degraded: true,
                    active_version: active_now,
                    last_good_version: None,
                    message: String::from_str("health degraded but no last_good_version available"),
                },
                rollback_version: None,
                last_good_version: None,
            },
        }
    } else {
        let kept = match &active_now {
            Some(a) => Some(a.clone()),
            None => last_good,
        };
        LmsrHealthDecision {
            response: LmsrHealthTriggerResponse {
                ok: true,
                degraded: false,
                active_version: active_now,
                last_good_version: clone_opt(&kept),
                message: String::from_str(
                    "health restored; active version recorded as last_good_version",
                ),
            },
            rollback_version: None,
            last_good_version: kept,
        }
    }
}

/// Law: once a healthy report has recorded the active version, a degraded
/// report rolls back to exactly that version.
pub proof fn lemma_rollback_targets_recorded_version(
    healthy: LmsrHealthTriggerRequest,
    d1: LmsrHealthDecision,
    degraded: LmsrHealthTriggerRequest,
    d2: LmsrHealthDecision,
    last_good: Option<Seq<char>>,
    active: Seq<char>,
    active_later: Option<Seq<char>>,
)
    requires
        !healthy.degraded,
        health_decision_ok(healthy, last_good, Some(active), d1),
        degraded.degraded,
        health_decision_ok(degraded, opt_view(d1.last_good_version), active_later, d2),
    ensures
        opt_view(d2.rollback_version) == Some(active),
        opt_view(d2.response.active_version) == Some(active),
        d2.response.ok,
{
}

// ── Pre-signed transaction queue ─────────────────────────────────────────────

/// Reply to a queue admission.
#[derive(Debug)]
pub struct PresignQueueResponse {
    pub ok: bool,
    pub key: String,
    pub queue_size: usize,
    pub message: String,
}

/// Admission checks, in order: identifiers present, positive reference price
/// (`price_valid`) and notional (`notional_valid`), expiry in the future, and a
/// time to live of 2 to 5 whole seconds.
pub open spec fn spec_presign_rejection(
    market_id: Seq<char>,
    side: Seq<char>,
    version: Seq<char>,
    nonce: Seq<char>,
    price_valid: bool,
    notional_valid: bool,
    expires_at: i128,
    now: i128,
) -> Option<Seq<char>> {
    if blank(market_id) || blank(side) || blank(version) || blank(nonce) {
        Some("market_id/side/version/nonce required"@)
    } else if !price_valid {
        Some("reference_price must be > 0"@)
    } else if !notional_valid {
        Some("notional must be > 0"@)
    } else if expires_at <= now {
        Some("expires_at must be in the future"@)
    } else if !(2 <= secs_between(expires_at, now) <= 5) {
        Some("TTL must be between 2 and 5 seconds"@)
    } else {
        None
    }
}

/// See [`spec_presign_rejection`]; instants in nanoseconds since the epoch.
pub fn validate_presign(
    market_id: &str,
    side: &str,
    version: &str,
    nonce: &str,
    price_valid: bool,
    notional_valid: bool,
    expires_at: i128,
    now: i128,
) -> (r: Result<(), ApiRejection>)
    requires
        -INSTANT_NS_BOUND <= expires_at <= INSTANT_NS_BOUND,
        -INSTANT_NS_BOUND <= now <= INSTANT_NS_BOUND,
    ensures
        match spec_presign_rejection(
            market_id@,
            side@,
            version@,
            nonce@,
            price_valid,
            notional_valid,
            expires_at,
            now,
        ) {
            Some(msg) => r matches Err(e) && e.status == BAD_REQUEST && e.message@ == msg,
            None => r is Ok,
        },
{
    if is_blank(market_id) || is_blank(side) || is_blank(version) || is_blank(nonce) {
        return Err(reject(BAD_REQUEST, "market_id/side/version/nonce required"));
    }
    if !price_valid {
        return Err(reject(BAD_REQUEST, "reference_price must be > 0"));
    }
    if !notional_valid {
        return Err(reject(BAD_REQUEST, "notional must be > 0"));
    }
    if expires_at <= now {
        return Err(reject(BAD_REQUEST, "expires_at must be in the future"));
    }
    let ttl = seconds_between(expires_at, now);
    if !(2 <= ttl && ttl <= 5) {
        return Err(reject(BAD_REQUEST, "TTL must be between 2 and 5 seconds"));
    }
    Ok(())
}

/// Queue key `market|SIDE|version|nonce`, the side in upper case.
pub fn presign_key(market_id: &str, side: &str, version: &str, nonce: &str) -> (k: String)
    ensures
        k@ == market_id@ + "|"@ + unicode_uppercase(side@) + "|"@ + version@ + "|"@ + nonce@,
{
    let mut k = String::from_str(market_id);
    k.append("|");
    let up = to_uppercase(side);
    k.append(up.as_str());
    k.append("|");
    k.append(version);
    k.append("|");
    k.append(nonce);
    k
}

/// Reply to an accepted admission.
pub fn presign_queued(key: String, queue_size: usize) -> (r: PresignQueueResponse)
    ensures
        r.ok,
        r.key@ == key@,
        r.queue_size == queue_size,
        r.message@ == "queued"@,
{
    PresignQueueResponse { ok: true, key, queue_size, message: String::from_str("queued") }
}


// ── Order fields of a signing request ────────────────────────────────────────

/// Side of an order to sign.
#[derive(Clone, Copy, Debug, PartialEq, Eq, Structural)]
pub enum OrderSide {
    Buy,
    Sell,
}

/// Time in force of an order to sign.
#[derive(Clone, Copy, Debug, PartialEq, Eq, Structural)]
pub enum TimeInForce {
    /// Fill or kill.
    Fok,
    /// Fill and kill (also asked for as `IOC`).
    Fak,
    /// Good till date.
    Gtd,
    /// Good till cancelled.
    Gtc,
}

/// `BUY` or `SELL`, in any ASCII case; anything else is refused.
pub open spec fn spec_order_side(s: Seq<char>) -> Option<OrderSide> {
    if spec_eq_ignore_ascii_case(s, "BUY"@) {
        Some(OrderSide::Buy)
    } else if spec_eq_ignore_ascii_case(s, "SELL"@) {
        Some(OrderSide::Sell)
    } else {
        None
    }
}

/// The side of a signing request; `None` answers "side must be BUY|SELL".
pub fn order_side(s: &str) -> (r: Option<OrderSide>)
    ensures
        r == spec_order_side(s@),
{
    if eq_ignore_ascii_case(s, "BUY") {
        Some(OrderSide::Buy)
    } else if eq_ignore_ascii_case(s, "SELL") {
        Some(OrderSide::Sell)
    } else {
        None
    }
}

/// `FOK`, `FAK` or `IOC`, `GTD`, in any ASCII case; anything else is `GTC`.
pub open spec fn spec_time_in_force(s: Seq<char>) -> TimeInForce {
    if spec_eq_ignore_ascii_case(s, "FOK"@) {
        TimeInForce::Fok
    } else if spec_eq_ignore_ascii_case(s, "FAK"@) || spec_eq_ignore_ascii_case(s, "IOC"@) {
        TimeInForce::Fak
    } else if spec_eq_ignore_ascii_case(s, "GTD"@) {
        TimeInForce::Gtd
    } else {
        TimeInForce::Gtc
    }
}

/// The time in force of a signing request; see [`spec_time_in_force`].
pub fn time_in_force(s: &str) -> (r: TimeInForce)
    ensures
        r == spec_time_in_force(s@),
{
    if eq_ignore_ascii_case(s, "FOK") {
        TimeInForce::Fok
    } else if eq_ignore_ascii_case(s, "FAK") || eq_ignore_ascii_case(s, "IOC") {
        TimeInForce::Fak
    } else if eq_ignore_ascii_case(s, "GTD") {
        TimeInForce::Gtd
    } else {
        TimeInForce::Gtc
    }
}

} // verus!
