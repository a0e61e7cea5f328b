//! Error classification, the retry policy, and the duration syntax.

use imap_filter::utils::{
    classify_imap_error, extract_gmail_extension, parse_days, ImapErrorKind, RetryDecision,
    RetryState,
};

#[test]
fn test_parse_days_valid() {
    assert_eq!(parse_days("7d").unwrap(), 7);
    assert_eq!(parse_days("1d").unwrap(), 1);
    assert_eq!(parse_days("30d").unwrap(), 30);
    assert_eq!(parse_days("365d").unwrap(), 365);
    assert_eq!(parse_days("  7d  ").unwrap(), 7); // with whitespace
}

#[test]
fn test_parse_days_invalid() {
    assert!(parse_days("7").is_err()); // missing 'd'
    assert!(parse_days("d").is_err()); // missing number
    assert!(parse_days("7h").is_err()); // wrong suffix
    assert!(parse_days("").is_err()); // empty
    assert!(parse_days("abc").is_err()); // not a number
}

#[test]
fn test_classify_rate_limit() {
    assert_eq!(
        classify_imap_error("NO [ALERT] Too many simultaneous connections"),
        ImapErrorKind::RateLimit
    );
    assert_eq!(
        classify_imap_error("rate limit exceeded"),
        ImapErrorKind::RateLimit
    );
    assert_eq!(
        classify_imap_error("Request throttled, quota reached"),
        ImapErrorKind::RateLimit
    );
}

#[test]
fn test_classify_transient() {
    assert_eq!(
        classify_imap_error("System Error, please retry"),
        ImapErrorKind::TransientError
    );
    assert_eq!(
        classify_imap_error("Service Unavailable"),
        ImapErrorKind::TransientError
    );
}

#[test]
fn test_classify_connection_lost() {
    assert_eq!(
        classify_imap_error("Connection reset by peer"),
        ImapErrorKind::ConnectionLost
    );
    assert_eq!(
        classify_imap_error("unexpected EOF while reading"),
        ImapErrorKind::ConnectionLost
    );
}

#[test]
fn test_classify_message_not_found() {
    assert_eq!(
        classify_imap_error("No such message"),
        ImapErrorKind::MessageNotFound
    );
    assert_eq!(
        classify_imap_error("message was expunged"),
        ImapErrorKind::MessageNotFound
    );
}

#[test]
fn test_classify_permanent_and_unknown() {
    assert_eq!(
        classify_imap_error("Permission denied"),
        ImapErrorKind::PermanentError
    );
    assert_eq!(
        classify_imap_error("Invalid mailbox name"),
        ImapErrorKind::PermanentError
    );
    assert_eq!(classify_imap_error("???"), ImapErrorKind::Unknown);
}

#[test]
fn test_retry_schedule_rate_limit() {
    // a persistent rate limit: sleep 1000 ms, then 2000 ms, then fail on
    // the third attempt with the classification and attempt count
    let mut state = RetryState::new();

    match state.on_error("MOVE", 7, "rate limit hit") {
        RetryDecision::Retry { sleep_ms } => assert_eq!(sleep_ms, 1000),
        RetryDecision::Fail(_) => panic!("first attempt should retry"),
    }
    match state.on_error("MOVE", 7, "rate limit hit") {
        RetryDecision::Retry { sleep_ms } => assert_eq!(sleep_ms, 2000),
        RetryDecision::Fail(_) => panic!("second attempt should retry"),
    }
    match state.on_error("MOVE", 7, "rate limit hit") {
        RetryDecision::Retry { .. } => panic!("third attempt must fail"),
        RetryDecision::Fail(e) => {
            assert_eq!(e.kind, ImapErrorKind::RateLimit);
            assert_eq!(e.attempts, 3);
            assert_eq!(e.uid, 7);
            assert_eq!(e.operation, "MOVE");
        }
    }
}

#[test]
fn test_retry_gives_up_on_permanent_error() {
    let mut state = RetryState::new();
    match state.on_error("SET_LABEL", 3, "Permission denied") {
        RetryDecision::Retry { .. } => panic!("a permanent error is not retried"),
        RetryDecision::Fail(e) => {
            assert_eq!(e.kind, ImapErrorKind::PermanentError);
            assert_eq!(e.attempts, 1);
        }
    }
}

#[test]
fn test_extract_gmail_extension() {
    let raw =
        "Fetch { uid: Some(12345), X-GM-THRID 1852322999435237597, X-GM-MSGID 1852322999435237598 }";
    assert_eq!(
        extract_gmail_extension(raw, "X-GM-THRID"),
        Some("1852322999435237597".to_string())
    );
    assert_eq!(
        extract_gmail_extension(raw, "X-GM-MSGID"),
        Some("1852322999435237598".to_string())
    );
    assert_eq!(extract_gmail_extension(raw, "X-GM-UNKNOWN"), None);
}

#[test]
fn test_extract_gmail_extension_no_match() {
    let raw = "Fetch { uid: Some(12345) }";
    assert_eq!(extract_gmail_extension(raw, "X-GM-THRID"), None);
}

#[test]
fn test_extract_gmail_extension_whitespace_variations() {
    // multiple spaces
    let raw1 = "X-GM-THRID  1234567890";
    assert_eq!(
        extract_gmail_extension(raw1, "X-GM-THRID"),
        Some("1234567890".to_string())
    );

    // a tab
    let raw2 = "X-GM-THRID\t9876543210";
    assert_eq!(
        extract_gmail_extension(raw2, "X-GM-THRID"),
        Some("9876543210".to_string())
    );
}
