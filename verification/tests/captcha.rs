use ethos_protocol_backend::captcha::{
    active_trusted_users_at, add_trusted_user, add_trusted_user_at, begin_verification,
    begin_verification_with, consecutive_failures_for_ip, extract_ip, extract_user_id,
    finish_verification_with, generate_challenge, generate_challenge_with, is_backoff_active,
    is_backoff_active_at, is_suspicious, is_trusted_user, needs_challenge_at,
    record_captcha_failure, record_captcha_failure_at, record_captcha_success,
    record_event_for_ip, record_outcome_at, reputation_flag_due, reset_event_counter_for_ip,
    suspicious_threshold, CaptchaGate, CaptchaVerifyRequest, ChallengeError, ProviderReply,
    TrustedUser, VerifyStep, BACKOFF_FAILURE_THRESHOLD, REPUTATION_FLAG_THRESHOLD,
};
use ethos_protocol_backend::clock::{utc_now, HOUR, SECOND};
use ethos_protocol_backend::json::{JsonField, JsonValue};

fn verify_request(challenge_id: &str, token: &str) -> CaptchaVerifyRequest {
    CaptchaVerifyRequest {
        challenge_id: challenge_id.to_string(),
        captcha_token: token.to_string(),
        user_token: "my-user-token".to_string(),
    }
}

#[test]
fn trusted_user_not_found_by_default() {
    let gate = CaptchaGate::new();
    assert!(!is_trusted_user("alice", "1.2.3.4", &gate));
}

#[test]
fn trusted_user_found_after_insert() {
    let mut gate = CaptchaGate::new();
    gate.trusted.push(TrustedUser {
        user_id: "test-user-trusted".to_string(),
        ip: "10.0.0.1".to_string(),
        trusted_until: utc_now() + HOUR,
    });

    assert!(is_trusted_user("test-user-trusted", "10.0.0.1", &gate));
    assert!(!is_trusted_user("test-user-trusted", "10.0.0.2", &gate));
}

#[test]
fn not_suspicious_below_threshold() {
    let gate = CaptchaGate::new();
    assert!(!is_suspicious("192.0.2.1", &gate, suspicious_threshold(None)));
}

#[test]
fn suspicious_after_threshold_events() {
    let mut gate = CaptchaGate::new();
    let ip = "192.0.2.2";
    for _ in 0..10 {
        record_event_for_ip(&mut gate, ip);
    }
    assert!(is_suspicious(ip, &gate, suspicious_threshold(None)));
    reset_event_counter_for_ip(&mut gate, ip);
    assert!(!is_suspicious(ip, &gate, suspicious_threshold(None)));
}

#[test]
fn generate_challenge_returns_valid_challenge() {
    let mut gate = CaptchaGate::new();
    let ch = generate_challenge(&mut gate, "site");
    assert!(!ch.id.is_empty());
    assert!(!ch.token.is_empty());
    assert!(ch.expires_at > utc_now());
}

#[test]
fn verify_captcha_dev_mode_succeeds() {
    let mut gate = CaptchaGate::new();
    let challenge = generate_challenge(&mut gate, "site");

    let req = verify_request(&challenge.id, "any-token");
    match begin_verification(&mut gate, &req, "").unwrap() {
        VerifyStep::Answer(resp) => {
            assert!(resp.verified);
            assert!(resp.session_token.is_some());
        }
        VerifyStep::Ask { .. } => panic!("nobody is to be asked without a secret"),
    }
}

#[test]
fn verify_captcha_unknown_challenge_fails() {
    let mut gate = CaptchaGate::new();
    let req = verify_request("non-existent-id", "some-token");
    let result = begin_verification(&mut gate, &req, "");
    assert_eq!(result.err(), Some(ChallengeError::NotFound));
}

#[test]
fn failure_count_tracks_and_resets_on_success() {
    let mut gate = CaptchaGate::new();
    let ip = "203.0.113.10";
    assert_eq!(consecutive_failures_for_ip(&gate, ip), 0);

    assert_eq!(record_captcha_failure(&mut gate, ip), 1);
    assert_eq!(record_captcha_failure(&mut gate, ip), 2);
    assert_eq!(consecutive_failures_for_ip(&gate, ip), 2);

    record_captcha_success(&mut gate, ip);
    assert_eq!(consecutive_failures_for_ip(&gate, ip), 0);
    assert!(!is_backoff_active(&gate, ip));
}

#[test]
fn no_backoff_below_threshold() {
    let mut gate = CaptchaGate::new();
    let ip = "203.0.113.11";
    for _ in 0..(BACKOFF_FAILURE_THRESHOLD - 1) {
        record_captcha_failure(&mut gate, ip);
    }
    assert!(!is_backoff_active(&gate, ip));
}

#[test]
fn backoff_triggers_at_threshold_and_clears_on_success() {
    let mut gate = CaptchaGate::new();
    let ip = "203.0.113.12";
    for _ in 0..BACKOFF_FAILURE_THRESHOLD {
        record_captcha_failure(&mut gate, ip);
    }
    assert!(is_backoff_active(&gate, ip));

    record_captcha_success(&mut gate, ip);
    assert!(!is_backoff_active(&gate, ip));
    assert_eq!(consecutive_failures_for_ip(&gate, ip), 0);
}

#[test]
fn backoff_window_grows_with_further_failures() {
    let mut gate = CaptchaGate::new();
    let ip = "203.0.113.13";
    for _ in 0..BACKOFF_FAILURE_THRESHOLD {
        record_captcha_failure(&mut gate, ip);
    }
    let blocked_until_first = gate.failures.get(ip).and_then(|r| r.blocked_until).unwrap();

    record_captcha_failure(&mut gate, ip);
    let blocked_until_second = gate.failures.get(ip).and_then(|r| r.blocked_until).unwrap();

    assert!(blocked_until_second > blocked_until_first);
}

#[test]
fn repeated_failures_flag_ip_in_reputation_store() {
    let mut gate = CaptchaGate::new();
    let ip = "203.0.113.14";
    let mut flagged = false;
    for _ in 0..REPUTATION_FLAG_THRESHOLD {
        let failures = record_captcha_failure(&mut gate, ip);
        flagged = reputation_flag_due(failures);
    }
    assert!(flagged, "ip should be flagged");
    assert!(!reputation_flag_due(REPUTATION_FLAG_THRESHOLD + 1));
    assert!(reputation_flag_due(2 * REPUTATION_FLAG_THRESHOLD));
}

#[test]
fn post_verify_handler_rejects_backed_off_ip() {
    let mut gate = CaptchaGate::new();
    let ip = extract_ip(Some("203.0.113.15"), None);
    for _ in 0..BACKOFF_FAILURE_THRESHOLD {
        record_captcha_failure(&mut gate, &ip);
    }
    assert!(is_backoff_active(&gate, &ip));
}

#[test]
fn the_first_forwarded_address_counts() {
    assert_eq!(extract_ip(Some(" 1.1.1.1 , 2.2.2.2"), Some("3.3.3.3")), "1.1.1.1");
    assert_eq!(extract_ip(None, Some("3.3.3.3")), "3.3.3.3");
    assert_eq!(extract_ip(None, None), "unknown");
    assert_eq!(extract_user_id(Some("u")), Some("u".to_string()));
    assert_eq!(extract_user_id(Some("")), None);
    assert_eq!(suspicious_threshold(Some("3")), 3);
    assert_eq!(suspicious_threshold(Some("x")), 10);
}

#[test]
fn challenges_expire_and_are_used_up() {
    let mut gate = CaptchaGate::new();
    let ch = generate_challenge_with(&mut gate, "site", "c".to_string(), "t".to_string(), 0);
    assert_eq!(ch.site_key, "site");
    assert_eq!(ch.expires_at, 300 * SECOND);
    let req = verify_request("c", "tok");
    let late =
        begin_verification_with(&mut gate, &req, "", "s".to_string(), 300 * SECOND + 1);
    assert_eq!(late.err(), Some(ChallengeError::Expired));
    assert_eq!(ChallengeError::Expired.message(), "challenge has expired");
    assert_eq!(ChallengeError::NotFound.message(), "challenge not found");

    // With a secret the provider has to be asked.
    match begin_verification_with(&mut gate, &req, "secret", "s".to_string(), 1).unwrap() {
        VerifyStep::Ask { secret, token } => {
            assert_eq!(secret, "secret");
            assert_eq!(token, "tok");
        }
        VerifyStep::Answer(_) => panic!("the provider has to be asked"),
    }
    let failed = finish_verification_with(
        &mut gate,
        "c",
        ProviderReply::RequestFailed("timeout".to_string()),
        "s".to_string(),
        1,
    );
    assert_eq!(failed.unwrap_err(), "reCAPTCHA HTTP request failed: timeout");
    let unreadable = finish_verification_with(
        &mut gate,
        "c",
        ProviderReply::Unreadable("eof".to_string()),
        "s".to_string(),
        1,
    );
    assert_eq!(unreadable.unwrap_err(), "failed to parse reCAPTCHA response: eof");
    let refused = finish_verification_with(
        &mut gate,
        "c",
        ProviderReply::Body(JsonValue::Object(vec![])),
        "s".to_string(),
        1,
    );
    assert_eq!(refused.unwrap_err(), "CAPTCHA verification failed");
    let codes = JsonValue::Object(vec![JsonField {
        name: "error-codes".to_string(),
        value: JsonValue::List(vec![
            JsonValue::Text("timeout-or-duplicate".to_string()),
            JsonValue::Null,
            JsonValue::Text("bad-request".to_string()),
        ]),
    }]);
    let refused = finish_verification_with(
        &mut gate,
        "c",
        ProviderReply::Body(codes),
        "s".to_string(),
        1,
    );
    assert_eq!(
        refused.unwrap_err(),
        "CAPTCHA verification failed: timeout-or-duplicate, bad-request"
    );
    assert!(gate.challenges.contains("c"));
    let body = JsonValue::Object(vec![JsonField {
        name: "success".to_string(),
        value: JsonValue::Bool(true),
    }]);
    let accepted = finish_verification_with(
        &mut gate,
        "c",
        ProviderReply::Body(body),
        "session".to_string(),
        2 * SECOND,
    )
    .unwrap();
    assert!(accepted.verified);
    assert_eq!(accepted.session_token, Some("session.3602".to_string()));
    assert!(!gate.challenges.contains("c"));
}

#[test]
fn backoff_doubles_up_to_its_limit() {
    let mut gate = CaptchaGate::new();
    let mut waits = Vec::new();
    for _ in 0..14 {
        record_captcha_failure_at(&mut gate, "ip", 0);
        waits.push(gate.failures.get("ip").unwrap().blocked_until.map(|t| t / SECOND));
    }
    assert_eq!(waits[1], None);
    assert_eq!(waits[2], Some(5));
    assert_eq!(waits[3], Some(10));
    assert_eq!(waits[13], Some(900));
    assert!(waits.windows(2).all(|w| w[0] <= w[1]));
    assert!(is_backoff_active_at(&gate, "ip", 900 * SECOND - 1));
    assert!(!is_backoff_active_at(&gate, "ip", 900 * SECOND));
    assert_eq!(record_outcome_at(&mut gate, "ip", true, 1), 0);
    assert_eq!(consecutive_failures_for_ip(&gate, "ip"), 0);
    assert_eq!(record_outcome_at(&mut gate, "ip", false, 1), 1);
}

#[test]
fn trusted_users_need_no_challenge() {
    let mut gate = CaptchaGate::new();
    for _ in 0..10 {
        record_event_for_ip(&mut gate, "ip");
    }
    assert!(needs_challenge_at(&gate, Some("u"), "ip", 10, 5));
    add_trusted_user_at(&mut gate, "u", "ip", Some(10), 0).unwrap();
    assert!(!needs_challenge_at(&gate, Some("u"), "ip", 10, 5));
    assert!(needs_challenge_at(&gate, Some("u"), "ip", 10, 11 * SECOND));
    assert!(needs_challenge_at(&gate, None, "ip", 10, 5));
    assert!(needs_challenge_at(&gate, None, "other", 10, 5));
    assert_eq!(active_trusted_users_at(&gate, 5).len(), 1);
    assert!(active_trusted_users_at(&gate, 11 * SECOND).is_empty());
    assert!(add_trusted_user(&mut gate, "v", "ip", None).is_some());
    // A time beyond the calendar is refused.
    assert!(add_trusted_user(&mut gate, "w", "ip", Some(i64::MAX as u64)).is_none());
    // A number beyond the signed ones is negative.
    let over = add_trusted_user_at(&mut gate, "w", "ip", Some(u64::MAX), 5 * SECOND).unwrap();
    assert_eq!(over.trusted_until, 4 * SECOND);
}
