//! Thread map construction and thread lookup.

use imap_filter::label::Label;
use imap_filter::message::Message;
use imap_filter::thread::{build_thread_map, ThreadProcessor};

fn make_message(
    uid: u32,
    thread_id: Option<&str>,
    message_id: Option<&str>,
    in_reply_to: Option<&str>,
    references: Vec<&str>,
) -> Message {
    Message {
        uid,
        seq: uid,
        to: vec![],
        cc: vec![],
        from: vec![],
        subject: format!("Test message {}", uid),
        date: "2024-01-15T10:00:00+00:00".to_string(),
        labels: vec![Label::Inbox],
        headers: vec![],
        message_id: message_id.map(String::from),
        in_reply_to: in_reply_to.map(String::from),
        references: references.into_iter().map(String::from).collect(),
        thread_id: thread_id.map(String::from),
    }
}

#[test]
fn test_build_thread_map_gmail_thread_ids() {
    let messages = vec![
        make_message(1, Some("gmail-thread-1"), None, None, vec![]),
        make_message(2, Some("gmail-thread-1"), None, None, vec![]),
        make_message(3, Some("gmail-thread-2"), None, None, vec![]),
    ];

    let thread_map = build_thread_map(&messages);

    assert_eq!(thread_map.len(), 2);
    assert_eq!(thread_map.get("gmail-thread-1").unwrap().len(), 2);
    assert_eq!(thread_map.get("gmail-thread-2").unwrap().len(), 1);
}

#[test]
fn test_build_thread_map_standard_headers() {
    // a conversation: a root, a reply, and a reply to the reply
    let messages = vec![
        make_message(1, None, Some("<msg1@test.com>"), None, vec![]),
        make_message(
            2,
            None,
            Some("<msg2@test.com>"),
            Some("<msg1@test.com>"),
            vec![],
        ),
        make_message(
            3,
            None,
            Some("<msg3@test.com>"),
            Some("<msg2@test.com>"),
            vec!["<msg1@test.com>", "<msg2@test.com>"],
        ),
    ];

    let thread_map = build_thread_map(&messages);

    // all three messages share one thread
    assert_eq!(thread_map.len(), 1);
    let thread = &thread_map.groups[0].1;
    assert_eq!(thread.len(), 3);
}

#[test]
fn test_build_thread_map_separate_threads() {
    // two separate conversations
    let messages = vec![
        make_message(1, None, Some("<thread1-msg1@test.com>"), None, vec![]),
        make_message(
            2,
            None,
            Some("<thread1-msg2@test.com>"),
            Some("<thread1-msg1@test.com>"),
            vec![],
        ),
        make_message(3, None, Some("<thread2-msg1@test.com>"), None, vec![]),
        make_message(
            4,
            None,
            Some("<thread2-msg2@test.com>"),
            Some("<thread2-msg1@test.com>"),
            vec![],
        ),
    ];

    let thread_map = build_thread_map(&messages);

    // two separate threads
    assert_eq!(thread_map.len(), 2);
}

#[test]
fn test_build_thread_map_no_message_id() {
    // messages without a Message-ID become solo threads
    let messages = vec![
        make_message(1, None, None, None, vec![]),
        make_message(2, None, None, None, vec![]),
    ];

    let thread_map = build_thread_map(&messages);

    // each message is its own thread
    assert_eq!(thread_map.len(), 2);
}

#[test]
fn test_build_thread_map_mixed_gmail_and_standard() {
    let messages = vec![
        // a provider thread
        make_message(1, Some("gmail-thread-1"), None, None, vec![]),
        make_message(2, Some("gmail-thread-1"), None, None, vec![]),
        // a header-graph thread
        make_message(3, None, Some("<std-msg1@test.com>"), None, vec![]),
        make_message(
            4,
            None,
            Some("<std-msg2@test.com>"),
            Some("<std-msg1@test.com>"),
            vec![],
        ),
    ];

    let thread_map = build_thread_map(&messages);

    // two threads: one provider, one from the header graph
    assert_eq!(thread_map.len(), 2);
    assert!(thread_map.contains_key("gmail-thread-1"));
}

#[test]
fn test_thread_processor_get_thread_id() {
    let messages = vec![
        make_message(1, Some("gmail-thread-1"), None, None, vec![]),
        make_message(2, None, Some("<msg@test.com>"), None, vec![]),
    ];

    let processor = ThreadProcessor::new(&messages);

    // the provider thread id is found
    assert_eq!(
        processor.get_thread_id(&messages[0]),
        Some("gmail-thread-1".to_string())
    );

    // the synthetic thread id is found
    let thread_id = processor.get_thread_id(&messages[1]);
    assert!(thread_id.is_some());
    assert!(thread_id.unwrap().starts_with("std-thread-"));
}

#[test]
fn test_thread_closure_is_order_independent() {
    // the same overlapping messages, fetched in the reverse order, still
    // land in one thread
    let forward = vec![
        make_message(1, None, Some("<a@t>"), None, vec![]),
        make_message(2, None, Some("<b@t>"), Some("<a@t>"), vec![]),
        make_message(3, None, Some("<c@t>"), None, vec!["<b@t>"]),
    ];
    let reverse = vec![
        make_message(3, None, Some("<c@t>"), None, vec!["<b@t>"]),
        make_message(2, None, Some("<b@t>"), Some("<a@t>"), vec![]),
        make_message(1, None, Some("<a@t>"), None, vec![]),
    ];
    assert_eq!(build_thread_map(&forward).len(), 1);
    assert_eq!(build_thread_map(&reverse).len(), 1);
}

#[test]
fn test_thread_map_bridging_reference() {
    // two messages that only share a referenced (absent) ancestor still
    // join one thread
    let messages = vec![
        make_message(1, None, Some("<x@t>"), None, vec!["<root@t>"]),
        make_message(2, None, Some("<y@t>"), None, vec!["<root@t>"]),
    ];
    assert_eq!(build_thread_map(&messages).len(), 1);
}
