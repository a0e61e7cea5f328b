//! The high-level test harness.

use chrono::Utc;
use imap_filter::mock_client::RecordedAction;
use imap_filter::test_harness::TestHarness;
use imap_filter::virtual_mailbox::MailboxMessage;

fn rfc3339_secs(s: &str) -> i64 {
    chrono::DateTime::parse_from_rfc3339(s).unwrap().timestamp()
}

fn make_test_message(subject: &str) -> MailboxMessage {
    MailboxMessage::new(
        0,
        subject,
        "sender@example.com",
        "recipient@example.com",
        &Utc::now().to_rfc3339(),
    )
}

#[test]
fn test_harness_new() {
    let harness = TestHarness::new();
    assert_eq!(harness.total_message_count(), 0);
    assert_eq!(harness.action_count(), 0);
}

#[test]
fn test_harness_at_time() {
    let specific_time = rfc3339_secs("2024-06-15T12:00:00+00:00");

    let harness = TestHarness::at_time(specific_time);
    assert_eq!(harness.now(), specific_time);
}

#[test]
fn test_add_message() {
    let mut harness = TestHarness::new();
    let msg = make_test_message("Test Subject");

    let uid = harness.add_message(msg);
    assert_eq!(uid, 1);
    assert_eq!(harness.total_message_count(), 1);
}

#[test]
fn test_add_message_with_labels() {
    let mut harness = TestHarness::new();
    let msg = make_test_message("Test Subject");

    let uid = harness.add_message_with_labels(msg, &["INBOX", "Starred"]);

    assert!(harness.has_label(uid, "INBOX"));
    assert!(harness.has_label(uid, "Starred"));
}

#[test]
fn test_advance_days() {
    let start = rfc3339_secs("2024-01-01T00:00:00+00:00");

    let harness = TestHarness::at_time(start);
    harness.advance_days(7);

    let expected = rfc3339_secs("2024-01-08T00:00:00+00:00");

    assert_eq!(harness.now(), expected);
}

#[test]
fn test_client_actions_are_recorded() {
    let mut harness = TestHarness::new();
    let msg = make_test_message("Test").with_labels(&["INBOX"]);
    let uid = harness.add_message(msg);

    harness.client.add_flags(uid, "\\Starred").unwrap();

    assert_eq!(harness.action_count(), 1);
    assert!(harness.starred(uid));
}

#[test]
fn test_clear_actions() {
    let mut harness = TestHarness::new();
    let msg = make_test_message("Test").with_labels(&["INBOX"]);
    let uid = harness.add_message(msg);

    harness.client.add_flags(uid, "\\Starred").unwrap();
    assert_eq!(harness.action_count(), 1);

    harness.clear_actions();
    assert_eq!(harness.action_count(), 0);
}

#[test]
fn test_assert_moved_to() {
    let mut harness = TestHarness::new();
    let msg = make_test_message("Test").with_labels(&["INBOX"]);
    let uid = harness.add_message(msg);

    harness.client.move_message(uid, "Purgatory").unwrap();

    assert!(harness.moved_to(uid, "Purgatory"));
    assert!(!harness.has_label(uid, "INBOX"));
    assert!(harness.has_label(uid, "Purgatory"));
}

#[test]
fn test_assert_deleted() {
    let mut harness = TestHarness::new();
    let msg = make_test_message("Test").with_labels(&["INBOX"]);
    let uid = harness.add_message(msg);

    harness.client.add_flags(uid, "\\Deleted").unwrap();

    assert!(harness.deleted(uid));
}

#[test]
fn test_harness_test_message_count() {
    let mut harness = TestHarness::new();

    let msg1 = make_test_message("Msg 1").with_labels(&["INBOX"]);
    let msg2 = make_test_message("Msg 2").with_labels(&["INBOX", "Starred"]);
    let msg3 = make_test_message("Msg 3").with_labels(&["Archive"]);

    harness.add_message(msg1);
    harness.add_message(msg2);
    harness.add_message(msg3);

    assert_eq!(harness.message_count("INBOX"), 2);
    assert_eq!(harness.message_count("Starred"), 1);
    assert_eq!(harness.message_count("Archive"), 1);
}

#[test]
fn test_assert_no_actions() {
    let harness = TestHarness::new();
    assert!(harness.no_actions()); // nothing recorded yet
}

#[test]
#[should_panic(expected = "Expected no actions")]
fn test_assert_no_actions_fails_when_actions_exist() {
    let mut harness = TestHarness::new();
    let msg = make_test_message("Test").with_labels(&["INBOX"]);
    let uid = harness.add_message(msg);

    harness.client.add_flags(uid, "\\Starred").unwrap();
    assert!(harness.no_actions(), "Expected no actions but found some");
}

#[test]
fn test_harness_assert_action() {
    let mut harness = TestHarness::new();
    let msg = MailboxMessage::new(
        0,
        "Test Subject",
        "sender@example.com",
        "recipient@example.com",
        &Utc::now().to_rfc3339(),
    )
    .with_labels(&["INBOX"]);

    let uid = harness.add_message(msg);

    harness.client.add_flags(uid, "\\Starred").unwrap();

    // the exact action was recorded
    assert!(harness.action_recorded(&RecordedAction::Star {
        uid,
        subject: "Test Subject".to_string(),
    }));
}

#[test]
#[should_panic(expected = "Expected action")]
fn test_harness_assert_action_fails_when_not_found() {
    let harness = TestHarness::new();

    // nothing was recorded, so the lookup fails
    assert!(
        harness.action_recorded(&RecordedAction::Star {
            uid: 999,
            subject: "Non-existent".to_string(),
        }),
        "Expected action was not recorded"
    );
}

#[test]
fn test_full_workflow() {
    let mut harness = TestHarness::at_time(rfc3339_secs("2024-01-01T00:00:00+00:00"));

    // add messages
    let msg1 = make_test_message("Important Email").with_labels(&["INBOX"]);
    let msg2 = make_test_message("Old Newsletter").with_labels(&["INBOX"]);

    let uid1 = harness.add_message(msg1);
    let uid2 = harness.add_message(msg2);

    // star the important one
    harness.client.add_flags(uid1, "\\Starred").unwrap();

    // move the old one to Purgatory
    harness.client.move_message(uid2, "Purgatory").unwrap();

    // verify
    assert!(harness.starred(uid1));
    assert!(harness.moved_to(uid2, "Purgatory"));
    assert_eq!(harness.message_count("INBOX"), 1);
    assert_eq!(harness.message_count("Purgatory"), 1);

    // advance time
    harness.advance_days(7);

    // clear and act again
    harness.clear_actions();
    harness.client.select_folder("Purgatory").unwrap();
    harness.client.move_message(uid2, "Oblivion").unwrap();

    assert!(harness.moved_to(uid2, "Oblivion"));
    assert_eq!(harness.message_count("Purgatory"), 0);
    assert_eq!(harness.message_count("Oblivion"), 1);
}

#[test]
fn test_harness_add_fixture() {
    let mut harness = TestHarness::new();

    // load and store a built-in sample
    let uid = harness.add_fixture("simple/direct-message.eml").unwrap();

    let msg = harness.get_message(uid);
    assert!(msg.is_some());
    assert_eq!(msg.unwrap().subject, "Direct message to you");
}

#[test]
fn test_harness_add_fixture_with_labels() {
    let mut harness = TestHarness::new();

    let uid = harness
        .add_fixture_with_labels("simple/direct-message.eml", &["INBOX", "Important"])
        .unwrap();

    assert!(harness.has_label(uid, "INBOX"));
    assert!(harness.has_label(uid, "Important"));
}

#[test]
fn test_harness_add_fixture_dated() {
    let harness_time = rfc3339_secs("2024-01-15T10:00:00+00:00");
    let mut harness = TestHarness::at_time(harness_time);

    // add a sample dated seven days before the harness time
    let uid = harness
        .add_fixture_dated("simple/direct-message.eml", &["INBOX"], 7)
        .unwrap();

    // the stored date reads back as that instant
    let msg = harness.get_message(uid).unwrap();
    let expected = rfc3339_secs("2024-01-08T10:00:00+00:00");
    assert_eq!(
        chrono::DateTime::parse_from_rfc3339(&msg.date)
            .unwrap()
            .timestamp(),
        expected
    );
}

#[test]
fn test_harness_load_fixtures_from_directory() {
    let mut harness = TestHarness::new();

    let fixtures = harness
        .load_fixtures_from_directory("threads/thread-01")
        .unwrap();

    assert_eq!(fixtures.len(), 3);

    // the samples come sorted by file name
    assert!(fixtures[0].source_path.contains("01-initial"));
    assert!(fixtures[1].source_path.contains("02-reply"));
    assert!(fixtures[2].source_path.contains("03-follow-up"));
}

#[test]
fn test_harness_advance_duration() {
    let start = rfc3339_secs("2024-01-01T00:00:00+00:00");
    let harness = TestHarness::at_time(start);

    // advance by twelve hours
    harness.advance(12 * 3600);

    let expected = rfc3339_secs("2024-01-01T12:00:00+00:00");

    assert_eq!(harness.now(), expected);
}

#[test]
fn test_harness_label_exists() {
    let harness = TestHarness::new();

    // standard labels exist from the start
    assert!(harness.label_exists("INBOX"));
    assert!(harness.label_exists("Starred"));

    // unknown labels do not
    assert!(!harness.label_exists("NonExistentLabel"));
}
