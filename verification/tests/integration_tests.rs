//! End-to-end behavior of the harness components together.

use chrono::{Duration, Utc};
use imap_filter::client_ops::{Clock, RealClock};
use imap_filter::fixtures::{EmailFixture, FixtureError, FixtureLoader};
use imap_filter::mock_client::{MockIMAPClient, RecordedAction};
use imap_filter::test_harness::TestHarness;
use imap_filter::virtual_clock::VirtualClock;
use imap_filter::virtual_mailbox::{MailboxMessage, VirtualMailbox};

fn rfc3339_secs(s: &str) -> i64 {
    chrono::DateTime::parse_from_rfc3339(s).unwrap().timestamp()
}

#[test]
fn test_clock_trait_polymorphism() {
    fn get_time<C: Clock>(clock: &C) -> i64 {
        clock.now()
    }

    let virtual_clock = VirtualClock::new();
    let real_clock = RealClock;

    // both yield usable instants
    let _vt = get_time(&virtual_clock);
    let _rt = get_time(&real_clock);
}

#[test]
fn test_virtual_clock_time_travel() {
    let clock = VirtualClock::at(rfc3339_secs("2024-01-01T00:00:00+00:00"));

    // thirty days forward
    clock.advance(Duration::days(30).num_seconds());

    assert_eq!(clock.now(), rfc3339_secs("2024-01-31T00:00:00+00:00"));

    // ten days back
    clock.rewind(Duration::days(10).num_seconds());

    assert_eq!(clock.now(), rfc3339_secs("2024-01-21T00:00:00+00:00"));
}

#[test]
fn test_mailbox_full_lifecycle() {
    let mut mailbox = VirtualMailbox::new();

    // add a message
    let msg = MailboxMessage::new(
        0,
        "Test Email",
        "sender@example.com",
        "recipient@example.com",
        "2024-01-15T10:00:00+00:00",
    )
    .with_labels(&["INBOX"]);

    let uid = mailbox.add_message(msg);
    assert_eq!(mailbox.message_count(), 1);

    // star it
    mailbox.add_label(uid, "Starred");
    let msg = mailbox.get_message(uid).unwrap();
    assert!(msg.labels.contains(&"Starred".to_string()));

    // move to Purgatory
    mailbox.move_message(uid, "INBOX", "Purgatory");
    let msg = mailbox.get_message(uid).unwrap();
    assert!(!msg.labels.contains(&"INBOX".to_string()));
    assert!(msg.labels.contains(&"Purgatory".to_string()));

    // the move is on record
    let history = mailbox.get_move_history();
    assert_eq!(history.len(), 1);
    assert_eq!(history[0].to_label, "Purgatory");

    // delete
    mailbox.delete_message(uid);
    assert_eq!(mailbox.message_count(), 0); // deleted messages do not count

    // expunge
    let expunged = mailbox.expunge();
    assert_eq!(expunged, vec![uid]);
    assert!(mailbox.get_message(uid).is_none());
}

#[test]
fn test_mailbox_thread_simulation() {
    let mut mailbox = VirtualMailbox::new();

    // a three-message conversation
    let msg1 = MailboxMessage::new(
        0,
        "Original",
        "alice@test.com",
        "bob@test.com",
        "2024-01-15T10:00:00+00:00",
    )
    .with_labels(&["INBOX"])
    .with_message_id("<msg1@test.com>")
    .with_thread_id("gmail-thread-001");

    let msg2 = MailboxMessage::new(
        0,
        "Re: Original",
        "bob@test.com",
        "alice@test.com",
        "2024-01-15T11:00:00+00:00",
    )
    .with_labels(&["INBOX"])
    .with_message_id("<msg2@test.com>")
    .with_in_reply_to("<msg1@test.com>")
    .with_references(&["<msg1@test.com>"])
    .with_thread_id("gmail-thread-001");

    let msg3 = MailboxMessage::new(
        0,
        "Re: Re: Original",
        "alice@test.com",
        "bob@test.com",
        "2024-01-15T12:00:00+00:00",
    )
    .with_labels(&["INBOX", "Starred"])
    .with_message_id("<msg3@test.com>")
    .with_in_reply_to("<msg2@test.com>")
    .with_references(&["<msg1@test.com>", "<msg2@test.com>"])
    .with_thread_id("gmail-thread-001");

    let uid1 = mailbox.add_message(msg1);
    let uid2 = mailbox.add_message(msg2);
    let uid3 = mailbox.add_message(msg3);

    // all share one conversation
    assert_eq!(
        mailbox.get_message(uid1).unwrap().thread_id,
        mailbox.get_message(uid2).unwrap().thread_id
    );
    assert_eq!(
        mailbox.get_message(uid2).unwrap().thread_id,
        mailbox.get_message(uid3).unwrap().thread_id
    );

    // exactly one message is starred
    let starred: Vec<_> = mailbox
        .get_all_messages()
        .into_iter()
        .filter(|m| m.labels.contains(&"Starred".to_string()))
        .collect();
    assert_eq!(starred.len(), 1);
    assert_eq!(starred[0].uid, uid3);
}

#[test]
fn test_mailbox_get_message_mut() {
    let mut mailbox = VirtualMailbox::new();
    let msg = MailboxMessage::new(
        0,
        "Mutable Test",
        "sender@example.com",
        "recipient@example.com",
        "2024-01-15T10:00:00+00:00",
    );

    let uid = mailbox.add_message(msg);

    // modify through the mutable handle
    {
        let msg_mut = mailbox.get_message_mut(uid).unwrap();
        msg_mut.subject = "Modified Subject".to_string();
        msg_mut.labels.push("Modified".to_string());
    }

    // the modifications persisted
    let msg = mailbox.get_message(uid).unwrap();
    assert_eq!(msg.subject, "Modified Subject");
    assert!(msg.labels.contains(&"Modified".to_string()));
}

#[test]
fn test_mailbox_clear_move_history() {
    let mut mailbox = VirtualMailbox::new();
    let msg = MailboxMessage::new(
        0,
        "Moving Message",
        "sender@example.com",
        "recipient@example.com",
        "2024-01-15T10:00:00+00:00",
    )
    .with_labels(&["INBOX"]);

    let uid = mailbox.add_message(msg);

    // make some moves
    mailbox.move_message(uid, "INBOX", "Purgatory");
    mailbox.move_message(uid, "Purgatory", "Oblivion");

    assert_eq!(mailbox.get_move_history().len(), 2);

    // forget them
    mailbox.clear_move_history();
    assert!(mailbox.get_move_history().is_empty());
}

#[test]
fn test_mailbox_message_date_field() {
    let msg = MailboxMessage::new(
        1,
        "Test",
        "sender@example.com",
        "recipient@example.com",
        "2024-06-15T12:00:00+00:00",
    );

    // the date field is stored verbatim
    assert_eq!(msg.date, "2024-06-15T12:00:00+00:00");
}

#[test]
fn test_mock_client_full_workflow() {
    let clock = VirtualClock::at(rfc3339_secs("2024-01-15T10:00:00+00:00"));
    let mut client = MockIMAPClient::new(VirtualMailbox::new(), clock.clone());

    let msg1 = MailboxMessage::new(
        0,
        "Important Email",
        "boss@company.com",
        "me@company.com",
        "2024-01-15T10:00:00+00:00",
    )
    .with_labels(&["INBOX"]);

    let msg2 = MailboxMessage::new(
        0,
        "Newsletter",
        "newsletter@spam.com",
        "me@company.com",
        "2024-01-10T10:00:00+00:00",
    )
    .with_labels(&["INBOX"]);

    let uid1 = client.add_message(msg1);
    let uid2 = client.add_message(msg2);

    // simulate filter actions
    client.add_flags(uid1, "\\Starred").unwrap();
    client.move_message(uid2, "Purgatory").unwrap();

    // actions were recorded
    let actions = client.get_recorded_actions();
    assert!(actions.iter().any(|a| a.is_star_for(uid1)));
    assert!(actions.iter().any(|a| a.is_move_to("Purgatory")));

    // the mailbox state changed
    assert!(client
        .get_message(uid1)
        .unwrap()
        .labels
        .contains(&"\\Starred".to_string()));
    assert!(client
        .get_message(uid2)
        .unwrap()
        .labels
        .contains(&"Purgatory".to_string()));
    assert!(!client
        .get_message(uid2)
        .unwrap()
        .labels
        .contains(&"INBOX".to_string()));
}

#[test]
fn test_mock_client_with_time_advancement() {
    let clock = VirtualClock::at(rfc3339_secs("2024-01-01T00:00:00+00:00"));
    let client = MockIMAPClient::new(VirtualMailbox::new(), clock.clone());

    let t0 = client.now();
    assert_eq!(t0, rfc3339_secs("2024-01-01T00:00:00+00:00"));

    // seven days forward, as a retention check would
    clock.advance_days(7);

    let t1 = client.now();
    assert_eq!(t1, rfc3339_secs("2024-01-08T00:00:00+00:00"));

    // three more days
    clock.advance_days(3);

    let t2 = client.now();
    assert_eq!(t2, rfc3339_secs("2024-01-11T00:00:00+00:00"));
}

#[test]
fn test_mock_client_purgatory_flow_simulation() {
    let mut client = MockIMAPClient::new(VirtualMailbox::new(), VirtualClock::new());

    let msg = MailboxMessage::new(
        0,
        "Old Email",
        "sender@example.com",
        "me@example.com",
        "2024-01-01T10:00:00+00:00",
    )
    .with_labels(&["INBOX"]);

    let uid = client.add_message(msg);

    // step one: the message ages and moves to Purgatory
    client.move_message(uid, "Purgatory").unwrap();

    assert_eq!(client.get_move_actions().len(), 1);
    assert!(client.get_move_actions()[0].is_move_to("Purgatory"));

    // clear for the next step
    client.clear_recorded_actions();

    // step two: it ages in Purgatory and moves to Oblivion
    client.select_folder("Purgatory").unwrap();
    client.move_message(uid, "Oblivion").unwrap();

    let move_actions = client.get_move_actions();
    assert_eq!(move_actions.len(), 1);
    match &move_actions[0] {
        RecordedAction::Move { from, to, .. } => {
            assert_eq!(from, "Purgatory");
            assert_eq!(to, "Oblivion");
        }
        _ => panic!("Expected Move action"),
    }

    // final state
    let final_msg = client.get_message(uid).unwrap();
    assert!(final_msg.labels.contains(&"Oblivion".to_string()));
    assert!(!final_msg.labels.contains(&"Purgatory".to_string()));
    assert!(!final_msg.labels.contains(&"INBOX".to_string()));
}

#[test]
fn test_fixture_loader_base_path() {
    let loader = FixtureLoader::new();
    let base = loader.base_path();

    // the reported paths start under the standard sample tree
    assert!(base.ends_with("tests/fixtures/emails"));
}

#[test]
fn test_load_direct_message_fixture() {
    let loader = FixtureLoader::new();
    let fixture = loader.load_email("simple/direct-message.eml").unwrap();

    assert_eq!(fixture.message.subject, "Direct message to you");
    assert!(fixture
        .message
        .from
        .contains(&"sender@company.com".to_string()));
    assert!(fixture.message.to.contains(&"me@example.com".to_string()));
    assert!(fixture.message.cc.is_empty());
    assert!(fixture
        .message
        .message_id
        .as_ref()
        .unwrap()
        .contains("direct-001@company.com"));
}

#[test]
fn test_load_with_cc_fixture() {
    let loader = FixtureLoader::new();
    let fixture = loader.load_email("simple/with-cc.eml").unwrap();

    assert_eq!(fixture.message.subject, "Team update with CC");
    assert!(!fixture.message.cc.is_empty());
    assert!(fixture
        .message
        .cc
        .contains(&"colleague@company.com".to_string()));
    assert!(fixture
        .message
        .cc
        .contains(&"manager@company.com".to_string()));
}

#[test]
fn test_load_mailing_list_fixture() {
    let loader = FixtureLoader::new();
    let fixture = loader.load_email("simple/mailing-list.eml").unwrap();

    assert_eq!(fixture.message.subject, "[repo/project] New issue opened");
    assert!(fixture
        .message
        .from
        .contains(&"noreply@github.com".to_string()));
}

#[test]
fn test_load_thread_fixtures() {
    let loader = FixtureLoader::new();
    let fixtures = loader.load_directory("threads/thread-01").unwrap();

    assert_eq!(fixtures.len(), 3);

    // the thread headers are present
    let initial = fixtures
        .iter()
        .find(|f| f.message.subject == "Project discussion");
    assert!(initial.is_some());

    let reply = fixtures
        .iter()
        .find(|f| f.message.subject == "Re: Project discussion");
    assert!(reply.is_some());
    assert!(reply.unwrap().message.in_reply_to.is_some());
}

#[test]
fn test_email_aging_scenario() {
    // an email ages and is moved to Purgatory
    let start_time = rfc3339_secs("2024-01-01T00:00:00+00:00");

    let mut harness = TestHarness::at_time(start_time);

    // a message dated now
    let uid = harness
        .add_fixture_dated("simple/direct-message.eml", &["INBOX", "Seen"], 0)
        .unwrap();

    // it starts in INBOX
    assert!(harness.has_label(uid, "INBOX"));
    assert_eq!(harness.message_count("INBOX"), 1);

    // eight days pass, beyond a seven-day read threshold
    harness.advance_days(8);

    // the filter would move it to Purgatory
    harness.client.move_message(uid, "Purgatory").unwrap();

    assert!(harness.moved_to(uid, "Purgatory"));
    assert!(!harness.has_label(uid, "INBOX"));
    assert!(harness.has_label(uid, "Purgatory"));
}

#[test]
fn test_thread_loading_and_processing() {
    let mut harness = TestHarness::new();

    let fixtures = harness
        .load_fixtures_from_directory("threads/thread-01")
        .unwrap();
    assert_eq!(fixtures.len(), 3);

    for fixture in &fixtures {
        let msg = fixture.message.clone();
        harness.add_message_with_labels(msg, &["INBOX"]);
    }

    assert_eq!(harness.message_count("INBOX"), 3);
    assert_eq!(harness.total_message_count(), 3);
}

#[test]
fn test_starred_email_protection() {
    let start_time = rfc3339_secs("2024-01-01T00:00:00+00:00");

    let mut harness = TestHarness::at_time(start_time);

    // a very old, starred message
    let uid = harness
        .add_fixture_dated("simple/direct-message.eml", &["INBOX", "Starred"], 100)
        .unwrap();

    assert!(harness.has_label(uid, "Starred"));
    assert!(harness.has_label(uid, "INBOX"));

    // time passes; a starred message is not touched
    harness.advance_days(365);

    assert!(harness.no_actions());
}

#[test]
fn test_purgatory_to_oblivion_flow() {
    let mut harness = TestHarness::new();

    // a message already sitting in Purgatory
    let uid = harness
        .add_fixture_dated("simple/direct-message.eml", &["Purgatory", "Seen"], 3)
        .unwrap();

    assert!(harness.has_label(uid, "Purgatory"));

    // time passes beyond the Purgatory threshold
    harness.advance_days(4);

    // it moves on to Oblivion
    harness.client.select_folder("Purgatory").unwrap();
    harness.client.move_message(uid, "Oblivion").unwrap();

    assert!(harness.moved_to(uid, "Oblivion"));
    assert!(!harness.has_label(uid, "Purgatory"));
    assert!(harness.has_label(uid, "Oblivion"));
}

#[test]
fn test_multi_step_scenario_with_action_clearing() {
    let start_time = rfc3339_secs("2024-01-01T00:00:00+00:00");

    let mut harness = TestHarness::at_time(start_time);

    // step one: a fresh email arrives
    let uid = harness
        .add_fixture_dated("simple/newsletter.eml", &["INBOX", "Seen"], 0)
        .unwrap();

    assert!(harness.no_actions());

    // step two: eight days later it moves to Purgatory
    harness.advance_days(8);
    harness.client.move_message(uid, "Purgatory").unwrap();

    assert_eq!(harness.move_actions().len(), 1);
    assert!(harness.moved_to(uid, "Purgatory"));

    // clear for the next step
    harness.clear_actions();
    assert!(harness.no_actions());

    // step three: four more days and it moves to Oblivion
    harness.advance_days(4);
    harness.client.select_folder("Purgatory").unwrap();
    harness.client.move_message(uid, "Oblivion").unwrap();

    assert_eq!(harness.move_actions().len(), 1);
    assert!(harness.moved_to(uid, "Oblivion"));

    // final state
    assert!(!harness.has_label(uid, "INBOX"));
    assert!(!harness.has_label(uid, "Purgatory"));
    assert!(harness.has_label(uid, "Oblivion"));
}

#[test]
fn test_cc_email_not_starred() {
    let mut harness = TestHarness::new();

    // an email with CC does not match an "only to me" filter
    let uid = harness
        .add_fixture_with_labels("simple/with-cc.eml", &["INBOX"])
        .unwrap();

    let msg = harness.get_message(uid).unwrap();

    // it carries CC recipients
    assert!(!msg.cc.is_empty());

    // so no action was taken
    assert!(harness.no_actions());
}

#[test]
fn test_delete_action() {
    let mut harness = TestHarness::new();

    let uid = harness
        .add_fixture_with_labels("simple/newsletter.eml", &["Oblivion"])
        .unwrap();

    // delete the message
    harness.client.add_flags(uid, "\\Deleted").unwrap();

    assert!(harness.deleted(uid));
    assert_eq!(harness.delete_actions().len(), 1);
}

#[test]
fn test_fixture_error_display() {
    let io_err = FixtureError::Io("file not found".to_string());
    assert!(io_err.describe().contains("IO error"));

    let parse_err = FixtureError::Parse("invalid format".to_string());
    assert!(parse_err.describe().contains("Parse error"));

    let header_err = FixtureError::MissingHeader("From".to_string());
    assert!(header_err.describe().contains("Missing required header"));
}

#[test]
fn test_email_fixture_clone() {
    let loader = FixtureLoader::new();
    let fixture = loader.load_email("simple/direct-message.eml").unwrap();

    let cloned: EmailFixture = fixture.clone();
    assert_eq!(fixture.message.subject, cloned.message.subject);
    assert_eq!(fixture.source_path, cloned.source_path);
}

#[test]
fn virtual_mailbox_test_message_count() {
    let mut mailbox = VirtualMailbox::new();
    assert_eq!(mailbox.message_count(), 0);

    let uid = mailbox.add_message(MailboxMessage::new(
        0,
        "One",
        "a@b.c",
        "d@e.f",
        "2024-01-01T00:00:00+00:00",
    ));
    assert_eq!(mailbox.message_count(), 1);
    mailbox.delete_message(uid);
    assert_eq!(mailbox.message_count(), 0);
}
