//! Content filter matching.

use imap_filter::message::Message;
use imap_filter::message_filter::{AddressFilter, FilterAction, LabelsFilter, MessageFilter};

fn make_test_message(to: Vec<&str>, cc: Vec<&str>, from: &str, subject: &str) -> Message {
    let to_header = if to.is_empty() {
        String::new()
    } else {
        format!("To: {}\r\n", to.join(", "))
    };
    let cc_header = if cc.is_empty() {
        String::new()
    } else {
        format!("Cc: {}\r\n", cc.join(", "))
    };

    let headers = format!(
        "{}{}From: {}\r\nSubject: {}\r\n\r\n",
        to_header, cc_header, from, subject
    );

    Message::new(
        1,
        1,
        headers.into_bytes(),
        vec![],
        "2024-01-01T00:00:00+00:00".to_string(),
        None,
    )
}

#[test]
fn test_address_filter_matches_exact() {
    let filter = AddressFilter {
        patterns: vec!["test@example.com".to_string()],
    };
    assert!(filter.matches(&vec!["test@example.com".to_string()]));
    assert!(!filter.matches(&vec!["other@example.com".to_string()]));
}

#[test]
fn test_address_filter_matches_glob() {
    let filter = AddressFilter {
        patterns: vec!["*@example.com".to_string()],
    };
    assert!(filter.matches(&vec!["test@example.com".to_string()]));
    assert!(filter.matches(&vec!["anyone@example.com".to_string()]));
    assert!(!filter.matches(&vec!["test@other.com".to_string()]));
}

#[test]
fn test_address_filter_multiple_patterns() {
    let filter = AddressFilter {
        patterns: vec!["*@example.com".to_string(), "*@test.com".to_string()],
    };
    assert!(filter.matches(&vec!["user@example.com".to_string()]));
    assert!(filter.matches(&vec!["user@test.com".to_string()]));
    assert!(!filter.matches(&vec!["user@other.com".to_string()]));
}

#[test]
fn test_message_filter_matches_to() {
    let filter = MessageFilter {
        name: "test".to_string(),
        to: Some(AddressFilter {
            patterns: vec!["me@example.com".to_string()],
        }),
        cc: None,
        from: None,
        subject: vec![],
        labels: LabelsFilter::default(),
        headers: vec![],
        actions: vec![FilterAction::Star],
    };

    let msg = make_test_message(vec!["me@example.com"], vec![], "sender@example.com", "Test");
    assert!(filter.matches(&msg));

    let msg2 = make_test_message(
        vec!["other@example.com"],
        vec![],
        "sender@example.com",
        "Test",
    );
    assert!(!filter.matches(&msg2));
}

#[test]
fn test_message_filter_requires_empty_cc() {
    let filter = MessageFilter {
        name: "test".to_string(),
        to: None,
        cc: Some(AddressFilter { patterns: vec![] }), // empty = require no CC
        from: None,
        subject: vec![],
        labels: LabelsFilter::default(),
        headers: vec![],
        actions: vec![FilterAction::Star],
    };

    // a message without CC matches
    let msg_no_cc = make_test_message(vec!["to@example.com"], vec![], "from@example.com", "Test");
    assert!(filter.matches(&msg_no_cc));

    // a message with CC does not
    let msg_with_cc = make_test_message(
        vec!["to@example.com"],
        vec!["cc@example.com"],
        "from@example.com",
        "Test",
    );
    assert!(!filter.matches(&msg_with_cc));
}

#[test]
fn test_message_filter_matches_from() {
    let filter = MessageFilter {
        name: "test".to_string(),
        to: None,
        cc: None,
        from: Some(AddressFilter {
            patterns: vec!["*@company.com".to_string()],
        }),
        subject: vec![],
        labels: LabelsFilter::default(),
        headers: vec![],
        actions: vec![FilterAction::Star],
    };

    let msg = make_test_message(
        vec!["me@example.com"],
        vec![],
        "boss@company.com",
        "Important",
    );
    assert!(filter.matches(&msg));

    let msg2 = make_test_message(vec!["me@example.com"], vec![], "spam@other.com", "Spam");
    assert!(!filter.matches(&msg2));
}

#[test]
fn test_message_filter_matches_subject_glob() {
    let filter = MessageFilter {
        name: "test".to_string(),
        to: None,
        cc: None,
        from: None,
        subject: vec!["*urgent*".to_string()],
        labels: LabelsFilter::default(),
        headers: vec![],
        actions: vec![FilterAction::Star],
    };

    let msg = make_test_message(
        vec!["me@example.com"],
        vec![],
        "from@example.com",
        "This is urgent please read",
    );
    assert!(filter.matches(&msg));

    let msg2 = make_test_message(
        vec!["me@example.com"],
        vec![],
        "from@example.com",
        "Normal message",
    );
    assert!(!filter.matches(&msg2));
}

#[test]
fn test_message_filter_combined_conditions() {
    // filter: addressed to me, from company.com, with no CC
    let filter = MessageFilter {
        name: "only-me-from-company".to_string(),
        to: Some(AddressFilter {
            patterns: vec!["me@example.com".to_string()],
        }),
        cc: Some(AddressFilter { patterns: vec![] }), // no CC
        from: Some(AddressFilter {
            patterns: vec!["*@company.com".to_string()],
        }),
        subject: vec![],
        labels: LabelsFilter::default(),
        headers: vec![],
        actions: vec![FilterAction::Star],
    };

    // matches: to me, from company, no CC
    let good = make_test_message(vec!["me@example.com"], vec![], "boss@company.com", "Good");
    assert!(filter.matches(&good));

    // does not match: has CC
    let with_cc = make_test_message(
        vec!["me@example.com"],
        vec!["other@example.com"],
        "boss@company.com",
        "CC",
    );
    assert!(!filter.matches(&with_cc));

    // does not match: wrong sender
    let wrong_from = make_test_message(vec!["me@example.com"], vec![], "spam@other.com", "Spam");
    assert!(!filter.matches(&wrong_from));
}

#[test]
fn test_message_filter_matches_custom_header() {
    // a filter demanding a List-Id header with a github pattern
    let filter = MessageFilter {
        name: "github-lists".to_string(),
        to: None,
        cc: None,
        from: None,
        subject: vec![],
        labels: LabelsFilter::default(),
        headers: vec![("List-Id".to_string(), vec!["*github*".to_string()])],
        actions: vec![FilterAction::Move("GitHub".to_string())],
    };

    // a message carrying the List-Id header
    let headers = b"From: noreply@github.com\r\n\
                    To: user@example.com\r\n\
                    Subject: [repo] Issue opened\r\n\
                    List-Id: <repo.github.com>\r\n\
                    \r\n"
        .to_vec();
    let msg = Message::new(
        1,
        1,
        headers,
        vec![],
        "2024-01-01T00:00:00+00:00".to_string(),
        None,
    );
    assert!(filter.matches(&msg));

    // a message without List-Id does not match
    let no_list_id = make_test_message(
        vec!["user@example.com"],
        vec![],
        "noreply@github.com",
        "Issue",
    );
    assert!(!filter.matches(&no_list_id));
}

#[test]
fn test_message_filter_header_must_match_pattern() {
    let filter = MessageFilter {
        name: "high-priority".to_string(),
        to: None,
        cc: None,
        from: None,
        subject: vec![],
        labels: LabelsFilter::default(),
        headers: vec![("X-Priority".to_string(), vec!["1".to_string()])],
        actions: vec![FilterAction::Flag],
    };

    // a high-priority message
    let high_priority = b"From: boss@company.com\r\n\
                          To: me@example.com\r\n\
                          Subject: Urgent\r\n\
                          X-Priority: 1\r\n\
                          \r\n"
        .to_vec();
    let msg = Message::new(
        1,
        1,
        high_priority,
        vec![],
        "2024-01-01T00:00:00+00:00".to_string(),
        None,
    );
    assert!(filter.matches(&msg));

    // a low-priority message does not match
    let low_priority = b"From: newsletter@spam.com\r\n\
                         To: me@example.com\r\n\
                         Subject: Newsletter\r\n\
                         X-Priority: 5\r\n\
                         \r\n"
        .to_vec();
    let msg2 = Message::new(
        2,
        2,
        low_priority,
        vec![],
        "2024-01-01T00:00:00+00:00".to_string(),
        None,
    );
    assert!(!filter.matches(&msg2));
}

#[test]
fn test_message_filter_checked_rejects_bad_glob() {
    let filter = MessageFilter {
        name: "broken".to_string(),
        to: Some(AddressFilter {
            patterns: vec!["a{b".to_string()],
        }),
        cc: None,
        from: None,
        subject: vec![],
        labels: LabelsFilter::default(),
        headers: vec![],
        actions: vec![FilterAction::Star],
    };
    let msg = make_test_message(vec!["me@example.com"], vec![], "x@y.com", "S");
    assert!(filter.matches_checked(&msg).is_none());

    let ok_filter = MessageFilter {
        name: "fine".to_string(),
        to: Some(AddressFilter {
            patterns: vec!["me@example.com".to_string()],
        }),
        cc: None,
        from: None,
        subject: vec![],
        labels: LabelsFilter::default(),
        headers: vec![],
        actions: vec![FilterAction::Star],
    };
    assert_eq!(ok_filter.matches_checked(&msg), Some(true));
}
