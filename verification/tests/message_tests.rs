//! Message construction from raw fetch data.

use imap_filter::label::Label;
use imap_filter::message::Message;

fn make_test_headers() -> Vec<u8> {
    b"From: Test User <test@example.com>\r\n\
      To: recipient@example.com\r\n\
      Cc: cc@example.com\r\n\
      Subject: Test Subject\r\n\
      Message-ID: <123@example.com>\r\n\
      In-Reply-To: <parent@example.com>\r\n\
      References: <root@example.com> <parent@example.com>\r\n\
      \r\n"
        .to_vec()
}

#[test]
fn test_message_new_parses_headers() {
    let headers = make_test_headers();
    let labels = vec!["INBOX".to_string(), "Important".to_string()];
    let msg = Message::new(
        12345,
        1,
        headers,
        labels,
        "2024-01-15T10:00:00+00:00".to_string(),
        Some("thread123".to_string()),
    );

    assert_eq!(msg.uid, 12345);
    assert_eq!(msg.seq, 1);
    assert_eq!(msg.subject, "Test Subject");
    assert_eq!(msg.thread_id, Some("thread123".to_string()));
    assert_eq!(msg.from.len(), 1);
    assert_eq!(msg.from[0].email, "test@example.com");
    assert_eq!(msg.from[0].name, "Test User");
    assert_eq!(msg.to.len(), 1);
    assert_eq!(msg.to[0].email, "recipient@example.com");
    assert_eq!(msg.cc.len(), 1);
    assert_eq!(msg.cc[0].email, "cc@example.com");
}

#[test]
fn test_message_thread_headers() {
    let headers = make_test_headers();
    let msg = Message::new(
        1,
        1,
        headers,
        vec![],
        "2024-01-15T10:00:00+00:00".to_string(),
        None,
    );

    assert_eq!(msg.message_id, Some("<123@example.com>".to_string()));
    assert_eq!(msg.in_reply_to, Some("<parent@example.com>".to_string()));
    assert_eq!(msg.references.len(), 2);
    assert!(msg.references.contains(&"<root@example.com>".to_string()));
    assert!(msg.references.contains(&"<parent@example.com>".to_string()));
}

#[test]
fn test_message_uses_delivered_to_when_no_to() {
    let headers = b"From: sender@example.com\r\n\
                    Delivered-To: delivered@example.com\r\n\
                    Subject: No To Header\r\n\
                    \r\n"
        .to_vec();

    let msg = Message::new(
        1,
        1,
        headers,
        vec![],
        "2024-01-15T10:00:00+00:00".to_string(),
        None,
    );

    assert_eq!(msg.to.len(), 1);
    assert_eq!(msg.to[0].email, "delivered@example.com");
}

#[test]
fn test_message_labels_converted() {
    let labels = vec![
        "INBOX".to_string(),
        "Starred".to_string(),
        "CustomLabel".to_string(),
    ];
    let msg = Message::new(
        1,
        1,
        b"From: test@example.com\r\n\r\n".to_vec(),
        labels,
        "2024-01-15T10:00:00+00:00".to_string(),
        None,
    );

    assert_eq!(msg.labels.len(), 3);
    assert!(msg.labels.iter().any(|l| matches!(l, Label::Inbox)));
    assert!(msg.labels.iter().any(|l| matches!(l, Label::Starred)));
}

#[test]
fn test_message_headers_stored() {
    let headers = make_test_headers();
    let msg = Message::new(
        1,
        1,
        headers,
        vec![],
        "2024-01-15T10:00:00+00:00".to_string(),
        None,
    );

    assert!(msg.header_get("From").is_some());
    assert!(msg.header_get("Subject").is_some());
}

#[test]
fn test_sender_display_with_name() {
    let msg = Message::new(
        1,
        1,
        b"From: John Doe <john@example.com>\r\n\r\n".to_vec(),
        vec![],
        "2024-01-15T10:00:00+00:00".to_string(),
        None,
    );
    assert_eq!(msg.sender_display(), "John Doe");
}

#[test]
fn test_sender_display_without_name() {
    let msg = Message::new(
        1,
        1,
        b"From: john@example.com\r\n\r\n".to_vec(),
        vec![],
        "2024-01-15T10:00:00+00:00".to_string(),
        None,
    );
    assert_eq!(msg.sender_display(), "john@example.com");
}
