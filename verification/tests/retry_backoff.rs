use pexels::api::{redact, retry_decide, HttpEvent, RetryPolicy, RetryStep};
use pexels::json::Json;
use pexels::util::{backoff_delay, backoff_delay_with_jitter};

fn jobj(pairs: Vec<(&str, Json)>) -> Json {
    Json::Obj(pairs.into_iter().map(|(k, v)| (k.to_string(), v)).collect())
}

fn response(status: u16, retry_after_secs: Option<u64>) -> HttpEvent {
    HttpEvent::Response {
        status,
        retry_after_secs,
        reason: None,
        request_id: None,
        body: String::new(),
        parsed: None,
    }
}

#[test]
fn backoff_delay_is_bounded_for_all_attempts() {
    for attempt in [0u32, 1, 2, 5, 6, 7, 31, 32, 63, 64, 1000, u32::MAX] {
        let ms = backoff_delay(attempt);
        assert!(ms >= 100);
        assert!(ms <= 5000);
    }
}

#[test]
fn backoff_delay_follows_the_attempt_envelope() {
    // exponential part: 100, 200, 400, 800, ...; jitter adds at most half
    assert!((100..=150).contains(&backoff_delay(0)));
    assert!((200..=300).contains(&backoff_delay(1)));
    assert!((800..=1200).contains(&backoff_delay(3)));
    // once the exponential part hits the ceiling the delay is exact
    assert_eq!(backoff_delay(6), 5000);
    assert_eq!(backoff_delay(40), 5000);
}

#[test]
fn backoff_delay_exact_values() {
    assert_eq!(backoff_delay_with_jitter(0, 0), 100);
    assert_eq!(backoff_delay_with_jitter(0, 50), 150);
    assert_eq!(backoff_delay_with_jitter(3, 0), 800);
    assert_eq!(backoff_delay_with_jitter(5, 1600), 4800);
    assert_eq!(backoff_delay_with_jitter(6, 0), 5000);
    assert_eq!(backoff_delay_with_jitter(20, 2500), 5000);
}

#[test]
fn retry_429_with_hint_then_success() {
    let policy = RetryPolicy {
        max_retries: 3,
        retry_after_override: None,
    };
    let mut attempt: u32 = 0;
    let mut retries: u32 = 0;
    // first attempt: 429 with Retry-After: 1
    match retry_decide(&policy, attempt, &response(429, Some(1))) {
        RetryStep::RetryAfterMs { delay_ms } => {
            assert_eq!(delay_ms, 1000);
            attempt += 1;
            retries += 1;
        }
        _ => panic!("429 under budget must retry"),
    }
    // second attempt: 200
    match retry_decide(&policy, attempt, &response(200, None)) {
        RetryStep::Succeed => {}
        _ => panic!("200 must succeed"),
    }
    assert_eq!(retries, 1);
}

#[test]
fn retry_500_exhausts_budget_after_four_attempts() {
    let policy = RetryPolicy {
        max_retries: 3,
        retry_after_override: None,
    };
    let mut attempt: u32 = 0;
    let mut sends: u32 = 0;
    loop {
        sends += 1;
        match retry_decide(&policy, attempt, &response(500, None)) {
            RetryStep::RetryAfterMs { delay_ms } => {
                assert!((100..=5000).contains(&delay_ms));
                attempt += 1;
            }
            RetryStep::FailHttp { error } => {
                match error.get("code") {
                    Some(Json::Int(n)) => assert_eq!(*n, 500),
                    _ => panic!("code missing"),
                }
                break;
            }
            _ => panic!("unexpected step"),
        }
    }
    // initial attempt + 3 retries
    assert_eq!(sends, 4);
}

#[test]
fn retry_override_beats_server_hint() {
    let policy = RetryPolicy {
        max_retries: 1,
        retry_after_override: Some(7),
    };
    match retry_decide(&policy, 0, &response(503, Some(2))) {
        RetryStep::RetryAfterMs { delay_ms } => assert_eq!(delay_ms, 7000),
        _ => panic!("503 under budget must retry"),
    }
}

#[test]
fn terminal_error_carries_structured_fields() {
    let policy = RetryPolicy {
        max_retries: 3,
        retry_after_override: None,
    };
    let parsed = jobj(vec![
        ("type", Json::Str("NotFoundError".to_string())),
        ("hint", Json::Str("check the id".to_string())),
    ]);
    let event = HttpEvent::Response {
        status: 404,
        retry_after_secs: None,
        reason: Some("Not Found".to_string()),
        request_id: Some("req-1".to_string()),
        body: "{\"type\":\"NotFoundError\",\"hint\":\"check the id\"}".to_string(),
        parsed: Some(parsed),
    };
    match retry_decide(&policy, 0, &event) {
        RetryStep::FailHttp { error } => {
            assert!(matches!(error.get("code"), Some(Json::Int(404))));
            match error.get("reason") {
                Some(Json::Str(s)) => assert_eq!(s, "Not Found"),
                _ => panic!("reason missing"),
            }
            match error.get("type") {
                Some(Json::Str(s)) => assert_eq!(s, "NotFoundError"),
                _ => panic!("type missing"),
            }
            match error.get("hint") {
                Some(Json::Str(s)) => assert_eq!(s, "check the id"),
                _ => panic!("hint missing"),
            }
            match error.get("request_id") {
                Some(Json::Str(s)) => assert_eq!(s, "req-1"),
                _ => panic!("request_id missing"),
            }
            assert!(error.get("body").is_some());
        }
        _ => panic!("404 must fail terminally"),
    }
}

#[test]
fn terminal_error_reason_defaults() {
    let policy = RetryPolicy {
        max_retries: 0,
        retry_after_override: None,
    };
    match retry_decide(&policy, 0, &response(418, None)) {
        RetryStep::FailHttp { error } => {
            match error.get("reason") {
                Some(Json::Str(s)) => assert_eq!(s, "error"),
                _ => panic!("reason missing"),
            }
            // empty body is left out
            assert!(error.get("body").is_none());
        }
        _ => panic!("418 must fail terminally"),
    }
}

#[test]
fn transport_failure_is_redacted_at_budget_end() {
    let policy = RetryPolicy {
        max_retries: 0,
        retry_after_override: None,
    };
    let event = HttpEvent::Transport {
        message: "dns error at 10.0.0.1".to_string(),
    };
    match retry_decide(&policy, 0, &event) {
        RetryStep::FailTransport { message } => {
            assert_eq!(message, "*** ***** ** ********");
        }
        _ => panic!("transport failure at budget end must fail"),
    }
}

#[test]
fn transport_failure_retries_under_budget() {
    let policy = RetryPolicy {
        max_retries: 2,
        retry_after_override: None,
    };
    let event = HttpEvent::Transport {
        message: "timeout".to_string(),
    };
    match retry_decide(&policy, 1, &event) {
        // the backoff for the second retry: 400ms plus up to half again
        RetryStep::RetryAfterMs { delay_ms } => assert!((400..=600).contains(&delay_ms)),
        _ => panic!("transport failure under budget must retry"),
    }
}

#[test]
fn redact_masks_printable_ascii_only() {
    assert_eq!(redact("abc XY-9"), "*** ****");
    assert_eq!(redact(""), "");
    assert_eq!(redact("a b\tc"), "* *\t*");
}
