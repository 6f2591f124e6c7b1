use std::time::Duration;

use autocommit::ai::client::{
    error_detail, is_retryable_status, parse_u64_of, retry_delay, should_retry, AttemptOutcome,
    BASE_BACKOFF_MILLIS, MAX_BACKOFF_MILLIS,
};
use reqwest::StatusCode;

#[test]
fn identifies_retryable_status_codes_without_network_access() {
    assert!(is_retryable_status(StatusCode::TOO_MANY_REQUESTS.as_u16()));
    assert!(is_retryable_status(StatusCode::BAD_GATEWAY.as_u16()));
    assert!(!is_retryable_status(StatusCode::BAD_REQUEST.as_u16()));
}

#[test]
fn retry_delay_honors_retry_after_header() {
    let header = "2";

    assert_eq!(
        Duration::from_millis(retry_delay(Some(header), 0)),
        Duration::from_secs(2)
    );
}

#[test]
fn retry_delay_grows_exponentially_and_is_capped() {
    assert_eq!(
        Duration::from_millis(retry_delay(None, 0)),
        Duration::from_millis(BASE_BACKOFF_MILLIS)
    );
    assert_eq!(
        Duration::from_millis(retry_delay(None, 1)),
        Duration::from_millis(BASE_BACKOFF_MILLIS * 2)
    );
    assert_eq!(
        Duration::from_millis(retry_delay(None, 9)),
        Duration::from_millis(MAX_BACKOFF_MILLIS)
    );
}

#[test]
fn retry_delay_ignores_non_numeric_retry_after() {
    let header = "https://example.com";

    assert_eq!(
        Duration::from_millis(retry_delay(Some(header), 0)),
        Duration::from_millis(BASE_BACKOFF_MILLIS)
    );
}

#[test]
fn retry_after_is_capped_and_saturates() {
    assert_eq!(retry_delay(Some("60"), 0), MAX_BACKOFF_MILLIS);
    assert_eq!(retry_delay(Some("18446744073709551615"), 0), MAX_BACKOFF_MILLIS);
    assert_eq!(retry_delay(Some("0"), 3), 0);
    assert_eq!(retry_delay(None, 4), 6_400);
}

#[test]
fn parses_decimal_seconds_like_str_parse() {
    assert_eq!(parse_u64_of("42"), Some(42));
    assert_eq!(parse_u64_of("+7"), Some(7));
    assert_eq!(parse_u64_of(""), None);
    assert_eq!(parse_u64_of("+"), None);
    assert_eq!(parse_u64_of("-1"), None);
    assert_eq!(parse_u64_of(" 1"), None);
    assert_eq!(parse_u64_of("18446744073709551615"), Some(u64::MAX));
    assert_eq!(parse_u64_of("18446744073709551616"), None);
    for text in ["0", "007", "123456789", "9x"] {
        assert_eq!(parse_u64_of(text), text.parse::<u64>().ok());
    }
}

#[test]
fn server_errors_and_throttling_are_retryable() {
    assert!(is_retryable_status(500));
    assert!(is_retryable_status(599));
    assert!(!is_retryable_status(600));
    assert!(!is_retryable_status(200));
    assert!(!is_retryable_status(404));
}

#[test]
fn retries_stop_after_the_last_attempt() {
    assert!(should_retry(AttemptOutcome::Status(503), 0));
    assert!(should_retry(AttemptOutcome::Status(429), 1));
    assert!(!should_retry(AttemptOutcome::Status(429), 2));
    assert!(!should_retry(AttemptOutcome::Status(400), 0));
    assert!(should_retry(AttemptOutcome::Failed { transient: true }, 0));
    assert!(!should_retry(AttemptOutcome::Failed { transient: false }, 0));
}

#[test]
fn error_details_are_trimmed_and_bounded_at_a_char_boundary() {
    assert_eq!(error_detail("  oops \n"), "oops");
    let body = format!("{}é", "a".repeat(499));
    assert_eq!(error_detail(&body), "a".repeat(499));
    let long = "b".repeat(800);
    assert_eq!(error_detail(&long).len(), 500);
}
