use parla::openai::{chat_url, generated, refusal as chat_refusal, sends_key};
use parla::oracle::Usage;
use parla::typesafe::{
    delay_seconds, describe, next_step, refusal, retry_after, retryable, success, too_late,
    usable_key, Attempt, Next, INITIAL_BACKOFF_MS, MAX_ATTEMPTS,
};

#[test]
fn retry_after_seconds_only() {
    let mut h = reqwest::header::HeaderMap::new();
    assert_eq!(retry_after(&h), None);
    h.insert(reqwest::header::RETRY_AFTER, "2".parse().unwrap());
    assert_eq!(retry_after(&h), Some(2));
    h.insert(
        reqwest::header::RETRY_AFTER,
        "Wed, 21 Oct 2015 07:28:00 GMT".parse().unwrap(),
    );
    assert_eq!(retry_after(&h), None);
}

#[test]
fn the_first_of_several_delays_counts() {
    let mut h = reqwest::header::HeaderMap::new();
    h.append("Retry-After", "7".parse().unwrap());
    h.append("retry-after", "9".parse().unwrap());
    h.append("x-other", "1".parse().unwrap());
    assert_eq!(retry_after(&h), Some(7));
    h.insert(
        "retry-after",
        reqwest::header::HeaderValue::from_bytes(b"\xff2").unwrap(),
    );
    assert_eq!(retry_after(&h), None);
}

#[test]
fn delays_read_like_unsigned_numbers() {
    for s in [
        "0",
        "+5",
        " 12 ",
        "12s",
        "",
        "+",
        "-1",
        "18446744073709551615",
        "18446744073709551616",
        "00000000000000000000000000000000000042",
        "1_000",
    ] {
        assert_eq!(delay_seconds(s), s.trim().parse::<u64>().ok(), "{s:?}");
    }
}

#[test]
fn transient_statuses_are_the_retryable_ones() {
    for s in [429u16, 500, 502, 503, 529] {
        assert!(retryable(s), "{s}");
    }
    for s in [400u16, 401, 404, 422] {
        assert!(!retryable(s), "{s}");
    }
}

#[test]
fn every_server_error_is_retried() {
    for s in 0u16..1000 {
        assert_eq!(retryable(s), s == 429 || (500..600).contains(&s), "{s}");
    }
    assert!(retryable(504));
}

#[test]
fn success_is_what_the_client_calls_success() {
    for s in 100u16..1000 {
        let status = reqwest::StatusCode::from_u16(s).unwrap();
        assert_eq!(success(s), status.is_success(), "{s}");
    }
}

#[test]
fn a_try_is_followed_by_what_its_outcome_asks_for() {
    let status = |code, retry_after| Attempt::Status { code, retry_after };
    let b = INITIAL_BACKOFF_MS;
    assert_eq!(next_step(status(200, None), 1, b, 0, 10_000), Next::Read);
    assert_eq!(next_step(status(401, None), 1, b, 0, 10_000), Next::Refuse);
    assert_eq!(
        next_step(status(503, None), 1, b, 0, 10_000),
        Next::Retry {
            wait_ms: b,
            backoff_ms: b * 3
        }
    );
    assert_eq!(
        next_step(status(429, Some(2)), 1, b, 0, 10_000),
        Next::Retry {
            wait_ms: 2_000,
            backoff_ms: b * 3
        }
    );
    assert_eq!(
        next_step(status(429, Some(u64::MAX)), 1, b, 0, 10_000),
        Next::GiveUp
    );
    assert_eq!(next_step(status(429, Some(10)), 1, b, 0, 10_000), Next::GiveUp);
    assert!(matches!(
        next_step(Attempt::Failed, 1, b, 0, 10_000),
        Next::Retry { .. }
    ));
    assert_eq!(
        next_step(Attempt::Failed, MAX_ATTEMPTS, b, 0, 10_000),
        Next::GiveUp
    );
}

#[test]
fn failures_are_worded() {
    assert_eq!(
        refusal("401 Unauthorized", "bad key"),
        "typesafe 401 Unauthorized: bad key"
    );
    let long = "é".repeat(1_000);
    let said = refusal("500", &long);
    assert!(said.chars().count() < 1_000);
    assert!(said.ends_with('é'));
    assert_eq!(too_late(1500), "typesafe: no answer within 1500 ms");
    assert_eq!(
        chat_refusal("404 Not Found", &"x".repeat(400)),
        format!("chat completions returned 404 Not Found: {}", "x".repeat(300))
    );
    assert_eq!(describe("jev-latest"), "typesafe jev-latest");
}

#[test]
fn blank_keys_are_not_sent() {
    assert!(usable_key("k"));
    assert!(!usable_key(" \n"));
    assert!(sends_key("k"));
    assert!(!sends_key(""));
}

#[test]
fn reply_without_usage_still_yields_text() {
    let r: serde_json::Value = serde_json::from_str(
        r#"{"choices":[{"message":{"role":"assistant","content":"Hello."}}]}"#,
    )
    .unwrap();
    let choices: Vec<Option<String>> = r["choices"]
        .as_array()
        .unwrap()
        .iter()
        .map(|c| c["message"]["content"].as_str().map(String::from))
        .collect();
    assert!(r.get("usage").is_none());
    let g = generated(choices, None).unwrap();
    assert_eq!(g.text, "Hello.");
    assert_eq!(
        g.usage,
        Usage {
            input_tokens: 0,
            output_tokens: 0
        }
    );
    let g = generated(vec![Some("a".into()), Some("b".into())], Some((3, 4))).unwrap();
    assert_eq!((g.text.as_str(), g.usage.input_tokens, g.usage.output_tokens), ("a", 3, 4));
    assert!(generated(vec![], None).is_none());
    assert!(generated(vec![None, Some("b".into())], None).is_none());
}

#[test]
fn url_joins_without_double_slash() {
    assert_eq!(
        chat_url("http://localhost:8080/v1/"),
        "http://localhost:8080/v1/chat/completions"
    );
    for base in ["http://h/v1", "http://h/v1/", "http://h/v1//"] {
        assert_eq!(chat_url(base), "http://h/v1/chat/completions");
    }
}
