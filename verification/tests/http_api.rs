use oracle_proxy::http_api::{
    active_lmsr_record_index, decide_lmsr_health, expected_model_summary, lmsr_status, presign_key,
    presign_queued, resolved_metadata_row, seed_metadata_row, validate_expected_model,
    validate_lmsr_params, validate_presign, LmsrHealthTriggerRequest, SeedMetaRequest, BAD_REQUEST,
};

#[test]
fn seed_requires_token_id() {
    let err = seed_metadata_row(SeedMetaRequest {
        token_id: "   ".to_string(),
        tick_size: None,
        fee_rate_bps: None,
        neg_risk: None,
    })
    .unwrap_err();
    assert_eq!(err.status, BAD_REQUEST);
    assert_eq!(err.message, "token_id required");
    let row = seed_metadata_row(SeedMetaRequest {
        token_id: "tok".to_string(),
        tick_size: Some("0.001".to_string()),
        fee_rate_bps: Some(7),
        neg_risk: Some(true),
    })
    .unwrap();
    assert_eq!(row.token_id, "tok");
    assert_eq!(row.tick_size.as_deref(), Some("0.001"));
    assert_eq!(row.fee_rate_bps, Some(7));
    assert_eq!(row.source, "seed");
}

#[test]
fn resolved_row_defaults_tick_and_narrows_fee() {
    let row = resolved_metadata_row("t".to_string(), None, Some(0x1_0000_0005), Some(false));
    assert_eq!(row.tick_size.as_deref(), Some("0.01"));
    assert_eq!(row.fee_rate_bps, Some(5));
    assert_eq!(row.source, "rest");
    let row = resolved_metadata_row("t".to_string(), Some("0.1".to_string()), None, None);
    assert_eq!(row.tick_size.as_deref(), Some("0.1"));
    assert_eq!(row.fee_rate_bps, None);
}

#[test]
fn expected_model_checks_and_summary() {
    assert!(validate_expected_model("v1", true).is_ok());
    assert_eq!(validate_expected_model(" ", true).unwrap_err().message, "version required");
    assert_eq!(validate_expected_model("v1", false).unwrap_err().status, BAD_REQUEST);
    let s = expected_model_summary(Some(("v2".to_string(), true, 3)));
    assert!(s.ok && s.enabled);
    assert_eq!(s.version.as_deref(), Some("v2"));
    assert_eq!(s.coef_count, 3);
    let none = expected_model_summary(None);
    assert!(!none.ok && none.version.is_none() && none.coef_count == 0);
}

#[test]
fn lmsr_parameters_align_to_bars() {
    assert!(validate_lmsr_params("v1", true, true, 1_772_241_300).is_ok());
    assert_eq!(
        validate_lmsr_params("v1", true, true, 1_772_241_301).unwrap_err().message,
        "effective_from must align to 30s bar boundary"
    );
    assert!(validate_lmsr_params("v1", true, true, -60).is_ok());
    assert_eq!(validate_lmsr_params("v1", false, true, 0).unwrap_err().message, "b must be > 0");
    assert_eq!(
        validate_lmsr_params("v1", true, false, 0).unwrap_err().message,
        "alpha out of range (0, 10]"
    );
    assert_eq!(lmsr_status(2_000, 1_000), "pending");
    assert_eq!(lmsr_status(1_000_000_001, 1_000_000_000), "pending");
    assert_eq!(lmsr_status(1_000, 1_000), "effective_now");
}

#[test]
fn active_parameters_are_the_latest_effective() {
    assert_eq!(active_lmsr_record_index(&vec![100, 300, 200, 500], 400), Some(1));
    assert_eq!(active_lmsr_record_index(&vec![100, 300, 300], 400), Some(1));
    assert_eq!(active_lmsr_record_index(&vec![500], 400), None);
    assert_eq!(active_lmsr_record_index(&vec![], 400), None);
}

#[test]
fn health_reports_roll_back_or_record() {
    let d = decide_lmsr_health(
        LmsrHealthTriggerRequest { degraded: true, reason: None },
        Some("good".to_string()),
        Some("bad".to_string()),
    );
    assert!(d.response.ok && d.response.degraded);
    assert_eq!(d.response.active_version.as_deref(), Some("good"));
    assert_eq!(d.rollback_version.as_deref(), Some("good"));
    assert_eq!(d.response.message, "health degraded: rollback to last_good_version requested");

    let d = decide_lmsr_health(LmsrHealthTriggerRequest { degraded: true, reason: None }, None, Some("a".to_string()));
    assert!(!d.response.ok);
    assert_eq!(d.response.message, "health degraded but no last_good_version available");
    assert!(d.rollback_version.is_none());

    let d = decide_lmsr_health(
        LmsrHealthTriggerRequest { degraded: false, reason: Some("fine".to_string()) },
        Some("old".to_string()),
        Some("new".to_string()),
    );
    assert!(d.response.ok && !d.response.degraded);
    assert_eq!(d.last_good_version.as_deref(), Some("new"));
    assert_eq!(d.response.message, "health restored; active version recorded as last_good_version");
}

#[test]
fn presign_admission() {
    let ms: i128 = 1_000_000;
    let now: i128 = 1_000_000 * ms;
    assert!(validate_presign("m", "buy", "v", "n", true, true, now + 3_000 * ms, now).is_ok());
    let msg = |r: Result<(), oracle_proxy::http_api::ApiRejection>| r.unwrap_err().message;
    assert_eq!(msg(validate_presign("", "buy", "v", "n", true, true, now + 3_000 * ms, now)), "market_id/side/version/nonce required");
    assert_eq!(msg(validate_presign("m", "buy", "v", "n", false, true, now + 3_000 * ms, now)), "reference_price must be > 0");
    assert_eq!(msg(validate_presign("m", "buy", "v", "n", true, false, now + 3_000 * ms, now)), "notional must be > 0");
    assert_eq!(msg(validate_presign("m", "buy", "v", "n", true, true, now, now)), "expires_at must be in the future");
    assert_eq!(msg(validate_presign("m", "buy", "v", "n", true, true, now + 1_999 * ms, now)), "TTL must be between 2 and 5 seconds");
    assert!(validate_presign("m", "buy", "v", "n", true, true, now + 5_999 * ms, now).is_ok());
    assert_eq!(msg(validate_presign("m", "buy", "v", "n", true, true, now + 6_000 * ms, now)), "TTL must be between 2 and 5 seconds");
    assert_eq!(presign_key("m1", "buy", "v2", "n3"), "m1|BUY|v2|n3");
    let q = presign_queued("k".to_string(), 4);
    assert!(q.ok);
    assert_eq!(q.queue_size, 4);
    assert_eq!(q.message, "queued");
}

#[test]
fn presign_ttl_counts_whole_seconds_at_full_precision() {
    let now: i128 = 1_700_000_000_000_000_000;
    // 1.9999999995 s is one whole second: too short.
    let r = validate_presign("m", "buy", "v", "n", true, true, now + 1_999_999_999, now);
    assert_eq!(r.unwrap_err().message, "TTL must be between 2 and 5 seconds");
    assert!(validate_presign("m", "buy", "v", "n", true, true, now + 2_000_000_000, now).is_ok());
    assert!(validate_presign("m", "buy", "v", "n", true, true, now + 5_999_999_999, now).is_ok());
}

#[test]
fn presign_fields_blank_by_unicode_white_space() {
    let now: i128 = 1_700_000_000_000_000_000;
    let exp = now + 3_000_000_000;
    let msg = |r: Result<(), oracle_proxy::http_api::ApiRejection>| r.err().map(|e| e.message);
    assert_eq!(
        msg(validate_presign("\u{3000}\t\u{2009}", "buy", "v", "n", true, true, exp, now)),
        Some("market_id/side/version/nonce required".to_string())
    );
    assert_eq!(msg(validate_presign("m", " \u{85}\u{a0} ", "v", "n", true, true, exp, now)), Some("market_id/side/version/nonce required".to_string()));
    // A zero-width space is no white space: the field is not blank.
    assert_eq!(msg(validate_presign("\u{200b}", "buy", "v", "n", true, true, exp, now)), None);
    assert_eq!(msg(validate_presign("  m  ", "buy", "v", "n", true, true, exp, now)), None);
}
