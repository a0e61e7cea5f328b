//! The in-memory mailbox state.

use imap_filter::virtual_mailbox::{MailboxMessage, MoveRecord, VirtualMailbox};

fn make_test_message() -> MailboxMessage {
    MailboxMessage::new(
        0, // the uid is assigned by the mailbox
        "Test Subject",
        "sender@example.com",
        "recipient@example.com",
        "2024-01-15T10:00:00+00:00",
    )
}

#[test]
fn test_new_mailbox_has_standard_labels() {
    let mailbox = VirtualMailbox::new();
    assert!(mailbox.label_exists("INBOX"));
    assert!(mailbox.label_exists("\\Starred"));
    assert!(mailbox.label_exists("\\Important"));
}

#[test]
fn test_add_message_assigns_uid() {
    let mut mailbox = VirtualMailbox::new();
    let msg = make_test_message();

    let uid1 = mailbox.add_message(msg.clone());
    let uid2 = mailbox.add_message(msg);

    assert_eq!(uid1, 1);
    assert_eq!(uid2, 2);
}

#[test]
fn test_get_message_by_uid() {
    let mut mailbox = VirtualMailbox::new();
    let msg = make_test_message();
    let uid = mailbox.add_message(msg);

    let retrieved = mailbox.get_message(uid);
    assert!(retrieved.is_some());
    assert_eq!(retrieved.unwrap().subject, "Test Subject");
}

#[test]
fn test_get_nonexistent_message_returns_none() {
    let mailbox = VirtualMailbox::new();
    assert!(mailbox.get_message(999).is_none());
}

#[test]
fn test_add_label_to_message() {
    let mut mailbox = VirtualMailbox::new();
    let msg = make_test_message();
    let uid = mailbox.add_message(msg);

    assert!(mailbox.add_label(uid, "INBOX"));

    let retrieved = mailbox.get_message(uid).unwrap();
    assert!(retrieved.labels.contains(&"INBOX".to_string()));
}

#[test]
fn test_remove_label_from_message() {
    let mut mailbox = VirtualMailbox::new();
    let msg = make_test_message().with_labels(&["INBOX", "Important"]);
    let uid = mailbox.add_message(msg);

    assert!(mailbox.remove_label(uid, "INBOX"));

    let retrieved = mailbox.get_message(uid).unwrap();
    assert!(!retrieved.labels.contains(&"INBOX".to_string()));
    assert!(retrieved.labels.contains(&"Important".to_string()));
}

#[test]
fn test_get_messages_with_label() {
    let mut mailbox = VirtualMailbox::new();

    let msg1 = make_test_message().with_labels(&["INBOX"]);
    let msg2 = make_test_message().with_labels(&["INBOX", "Starred"]);
    let msg3 = make_test_message().with_labels(&["Archived"]);

    mailbox.add_message(msg1);
    mailbox.add_message(msg2);
    mailbox.add_message(msg3);

    let inbox_messages = mailbox.get_messages_with_label("INBOX");
    assert_eq!(inbox_messages.len(), 2);

    let starred_messages = mailbox.get_messages_with_label("Starred");
    assert_eq!(starred_messages.len(), 1);
}

#[test]
fn test_move_message() {
    let mut mailbox = VirtualMailbox::new();
    let msg = make_test_message().with_labels(&["INBOX"]);
    let uid = mailbox.add_message(msg);

    assert!(mailbox.move_message(uid, "INBOX", "Purgatory"));

    let retrieved = mailbox.get_message(uid).unwrap();
    assert!(!retrieved.labels.contains(&"INBOX".to_string()));
    assert!(retrieved.labels.contains(&"Purgatory".to_string()));

    // the move was recorded
    let history = mailbox.get_move_history();
    assert_eq!(history.len(), 1);
    assert_eq!(history[0].uid, uid);
    assert_eq!(history[0].from_label, "INBOX");
    assert_eq!(history[0].to_label, "Purgatory");
}

#[test]
fn test_delete_message() {
    let mut mailbox = VirtualMailbox::new();
    let msg = make_test_message();
    let uid = mailbox.add_message(msg);

    assert!(mailbox.delete_message(uid));

    let retrieved = mailbox.get_message(uid).unwrap();
    assert!(retrieved.deleted);
    assert!(retrieved.flags.contains(&"\\Deleted".to_string()));
}

#[test]
fn test_deleted_messages_excluded_from_get_all() {
    let mut mailbox = VirtualMailbox::new();

    let msg1 = make_test_message();
    let msg2 = make_test_message();

    let uid1 = mailbox.add_message(msg1);
    mailbox.add_message(msg2);

    mailbox.delete_message(uid1);

    let all = mailbox.get_all_messages();
    assert_eq!(all.len(), 1);
}

#[test]
fn test_expunge_removes_deleted_messages() {
    let mut mailbox = VirtualMailbox::new();

    let msg1 = make_test_message();
    let msg2 = make_test_message();

    let uid1 = mailbox.add_message(msg1);
    let uid2 = mailbox.add_message(msg2);

    mailbox.delete_message(uid1);
    let expunged = mailbox.expunge();

    assert_eq!(expunged, vec![uid1]);
    assert!(mailbox.get_message(uid1).is_none());
    assert!(mailbox.get_message(uid2).is_some());
}

#[test]
fn test_mailbox_message_builder() {
    let msg = MailboxMessage::new(0, "Subject", "from@test.com", "to@test.com", "2024-01-15")
        .with_labels(&["INBOX", "Starred"])
        .with_cc(&["cc@test.com"])
        .with_message_id("<msg-001@test.com>")
        .with_in_reply_to("<parent@test.com>")
        .with_references(&["<root@test.com>", "<parent@test.com>"])
        .with_thread_id("gmail-thread-123")
        .with_header("X-Priority", "1");

    assert!(msg.labels.contains(&"INBOX".to_string()));
    assert!(msg.labels.contains(&"Starred".to_string()));
    assert_eq!(msg.cc, vec!["cc@test.com"]);
    assert_eq!(msg.message_id, Some("<msg-001@test.com>".to_string()));
    assert_eq!(msg.in_reply_to, Some("<parent@test.com>".to_string()));
    assert_eq!(msg.references.len(), 2);
    assert_eq!(msg.thread_id, Some("gmail-thread-123".to_string()));
    assert!(msg
        .headers
        .iter()
        .any(|(k, v)| k == "X-Priority" && v == "1"));
}

#[test]
fn test_create_label() {
    let mut mailbox = VirtualMailbox::new();
    assert!(!mailbox.label_exists("CustomLabel"));

    mailbox.create_label("CustomLabel");
    assert!(mailbox.label_exists("CustomLabel"));
}

#[test]
fn test_message_count() {
    let mut mailbox = VirtualMailbox::new();
    assert_eq!(mailbox.message_count(), 0);

    let uid1 = mailbox.add_message(make_test_message());
    mailbox.add_message(make_test_message());
    assert_eq!(mailbox.message_count(), 2);

    mailbox.delete_message(uid1);
    assert_eq!(mailbox.message_count(), 1);
}

#[test]
fn test_move_record_equality() {
    let record1 = MoveRecord {
        uid: 1,
        from_label: "INBOX".to_string(),
        to_label: "Purgatory".to_string(),
    };

    let record2 = MoveRecord {
        uid: 1,
        from_label: "INBOX".to_string(),
        to_label: "Purgatory".to_string(),
    };

    let record3 = MoveRecord {
        uid: 2,
        from_label: "INBOX".to_string(),
        to_label: "Purgatory".to_string(),
    };

    assert_eq!(record1, record2);
    assert_ne!(record1, record3);
}

#[test]
fn test_add_label_twice_leaves_message_unchanged() {
    // re-adding an already-present label produces no mutation
    let mut mailbox = VirtualMailbox::new();
    let uid = mailbox.add_message(make_test_message().with_labels(&["INBOX"]));

    let before = mailbox.get_message(uid).unwrap().labels.clone();
    assert!(mailbox.add_label(uid, "INBOX"));
    let after = mailbox.get_message(uid).unwrap().labels.clone();

    assert_eq!(before, after);
}
