//! The in-memory client: action recording over the virtual mailbox.

use imap_filter::mock_client::{MockIMAPClient, RecordedAction};
use imap_filter::virtual_clock::VirtualClock;
use imap_filter::virtual_mailbox::{MailboxMessage, VirtualMailbox};

fn setup_test_client() -> MockIMAPClient {
    MockIMAPClient::new(VirtualMailbox::new(), VirtualClock::new())
}

fn add_test_message(client: &mut MockIMAPClient, subject: &str) -> u32 {
    let msg = MailboxMessage::new(
        0,
        subject,
        "sender@example.com",
        "recipient@example.com",
        "2024-01-15T10:00:00+00:00",
    )
    .with_labels(&["INBOX"]);

    client.add_message(msg)
}

#[test]
fn test_new_client_starts_in_inbox() {
    let client = setup_test_client();
    assert_eq!(client.current_folder(), "INBOX");
}

#[test]
fn test_select_changes_folder() {
    let mut client = setup_test_client();
    client.select_folder("Purgatory").unwrap();
    assert_eq!(client.current_folder(), "Purgatory");

    let actions = client.get_recorded_actions();
    assert_eq!(actions.len(), 1);
    assert!(matches!(
        &actions[0],
        RecordedAction::Select { mailbox } if mailbox == "Purgatory"
    ));
}

#[test]
fn test_search_all_returns_uids() {
    let mut client = setup_test_client();

    let uid1 = add_test_message(&mut client, "Message 1");
    let uid2 = add_test_message(&mut client, "Message 2");

    let uids = client.search_all().unwrap();
    assert_eq!(uids.len(), 2);
    assert!(uids.contains(&uid1));
    assert!(uids.contains(&uid2));
}

#[test]
fn test_fetch_messages_returns_messages() {
    let mut client = setup_test_client();

    add_test_message(&mut client, "Test Subject");

    let messages = client.fetch_mailbox_messages().unwrap();
    assert_eq!(messages.len(), 1);
    assert_eq!(messages[0].subject, "Test Subject");
}

#[test]
fn test_uid_store_star() {
    let mut client = setup_test_client();
    let uid = add_test_message(&mut client, "Starred Message");

    client.add_flags(uid, "\\Starred").unwrap();

    // the action was recorded
    let actions = client.get_recorded_actions();
    assert_eq!(actions.len(), 1);
    assert!(matches!(
        &actions[0],
        RecordedAction::Star { uid: u, subject } if *u == uid && subject == "Starred Message"
    ));

    // the label was applied
    let labels = client.get_message_labels(uid).unwrap();
    assert!(labels.contains(&"\\Starred".to_string()));
}

#[test]
fn test_uid_store_flag_important() {
    let mut client = setup_test_client();
    let uid = add_test_message(&mut client, "Important Message");

    client.add_flags(uid, "\\Important").unwrap();

    let actions = client.get_recorded_actions();
    assert_eq!(actions.len(), 1);
    assert!(matches!(
        &actions[0],
        RecordedAction::Flag { uid: u, .. } if *u == uid
    ));
}

#[test]
fn test_uid_store_delete() {
    let mut client = setup_test_client();
    let uid = add_test_message(&mut client, "Deleted Message");

    client.add_flags(uid, "\\Deleted").unwrap();

    let actions = client.get_recorded_actions();
    assert_eq!(actions.len(), 1);
    assert!(matches!(
        &actions[0],
        RecordedAction::Delete { uid: u, .. } if *u == uid
    ));

    // the message is marked deleted in the mailbox
    let msg = client.get_message(uid).unwrap();
    assert!(msg.deleted);
}

#[test]
fn test_uid_store_custom_label() {
    let mut client = setup_test_client();
    let uid = add_test_message(&mut client, "Custom Label Message");

    client.add_flags(uid, "CustomLabel").unwrap();

    let actions = client.get_recorded_actions();
    assert_eq!(actions.len(), 1);
    assert!(matches!(
        &actions[0],
        RecordedAction::AddLabel { uid: u, label } if *u == uid && label == "CustomLabel"
    ));
}

#[test]
fn test_uid_store_remove_flags() {
    let mut client = setup_test_client();
    let uid = add_test_message(&mut client, "Test Message");

    // add and then remove a label
    client.add_flags(uid, "Starred").unwrap();
    client.remove_flags(uid, "Starred").unwrap();

    let actions = client.get_recorded_actions();
    assert_eq!(actions.len(), 2);
    assert!(matches!(
        &actions[1],
        RecordedAction::RemoveLabel { uid: u, label } if *u == uid && label == "Starred"
    ));
}

#[test]
fn test_uid_move() {
    let mut client = setup_test_client();
    let uid = add_test_message(&mut client, "Moving Message");

    client.move_message(uid, "Purgatory").unwrap();

    let actions = client.get_recorded_actions();
    // a creation of Purgatory plus the move itself
    assert!(!actions.is_empty());

    let move_actions = client.get_move_actions();
    assert_eq!(move_actions.len(), 1);
    assert!(matches!(
        &move_actions[0],
        RecordedAction::Move { uid: u, from, to, .. }
            if *u == uid && from == "INBOX" && to == "Purgatory"
    ));

    // the message now sits in Purgatory
    let msg = client.get_message(uid).unwrap();
    assert!(msg.labels.contains(&"Purgatory".to_string()));
    assert!(!msg.labels.contains(&"INBOX".to_string()));
}

#[test]
fn test_ensure_label_creates_if_not_exists() {
    let mut client = setup_test_client();

    assert!(!client.label_exists("NewLabel"));
    client.ensure_label("NewLabel").unwrap();
    assert!(client.label_exists("NewLabel"));

    let actions = client.get_recorded_actions();
    assert!(actions
        .iter()
        .any(|a| matches!(a, RecordedAction::CreateLabel { label } if label == "NewLabel")));
}

#[test]
fn test_ensure_label_does_not_duplicate() {
    let mut client = setup_test_client();

    client.ensure_label("INBOX").unwrap(); // already exists
    let actions = client.get_recorded_actions();
    assert!(actions.is_empty()); // no creation was recorded
}

#[test]
fn test_clear_recorded_actions() {
    let mut client = setup_test_client();
    let uid = add_test_message(&mut client, "Test");

    client.add_flags(uid, "\\Starred").unwrap();
    assert_eq!(client.action_count(), 1);

    client.clear_recorded_actions();
    assert_eq!(client.action_count(), 0);
}

#[test]
fn test_has_action() {
    let mut client = setup_test_client();
    let uid = add_test_message(&mut client, "Test Subject");

    client.add_flags(uid, "\\Starred").unwrap();

    assert!(client.has_action(&RecordedAction::Star {
        uid,
        subject: "Test Subject".to_string()
    }));

    assert!(!client.has_action(&RecordedAction::Delete {
        uid,
        subject: "Test Subject".to_string()
    }));
}

#[test]
fn test_recorded_action_helpers() {
    let star = RecordedAction::Star {
        uid: 1,
        subject: "Test".to_string(),
    };
    assert!(star.is_star_for(1));
    assert!(!star.is_star_for(2));

    let flag = RecordedAction::Flag {
        uid: 2,
        subject: "Test".to_string(),
    };
    assert!(flag.is_flag_for(2));

    let mov = RecordedAction::Move {
        uid: 3,
        from: "INBOX".to_string(),
        to: "Purgatory".to_string(),
        subject: "Test".to_string(),
    };
    assert!(mov.is_move_to("Purgatory"));
    assert!(!mov.is_move_to("Archive"));

    let del = RecordedAction::Delete {
        uid: 4,
        subject: "Test".to_string(),
    };
    assert!(del.is_delete_for(4));
}

#[test]
fn test_get_filtered_actions() {
    let mut client = setup_test_client();

    let uid1 = add_test_message(&mut client, "Msg 1");
    let uid2 = add_test_message(&mut client, "Msg 2");
    let uid3 = add_test_message(&mut client, "Msg 3");

    client.add_flags(uid1, "\\Starred").unwrap();
    client.move_message(uid2, "Purgatory").unwrap();
    client.add_flags(uid3, "\\Deleted").unwrap();

    assert_eq!(client.get_star_actions().len(), 1);
    assert_eq!(client.get_move_actions().len(), 1);
    assert_eq!(client.get_delete_actions().len(), 1);
}

#[test]
fn test_client_with_virtual_clock() {
    let clock = VirtualClock::at(
        chrono::DateTime::parse_from_rfc3339("2024-06-15T12:00:00+00:00")
            .unwrap()
            .timestamp(),
    );
    let client = MockIMAPClient::new(VirtualMailbox::new(), clock.clone());

    let expected = chrono::DateTime::parse_from_rfc3339("2024-06-15T12:00:00+00:00")
        .unwrap()
        .timestamp();

    assert_eq!(client.now(), expected);

    // advancing the shared clock is visible through the client
    clock.advance_days(7);
    let expected_after = chrono::DateTime::parse_from_rfc3339("2024-06-22T12:00:00+00:00")
        .unwrap()
        .timestamp();

    assert_eq!(client.now(), expected_after);
}

#[test]
fn test_mock_client_get_message() {
    let mut client = setup_test_client();

    let uid = add_test_message(&mut client, "Fetchable Message");

    let fetched = client.get_message(uid);
    assert!(fetched.is_some());
    assert_eq!(fetched.unwrap().subject, "Fetchable Message");

    // an unknown uid yields nothing
    assert!(client.get_message(999).is_none());
}

#[test]
fn test_mock_client_logout() {
    let mut client = setup_test_client();

    let result = client.end_session();
    assert!(result.is_ok());
}
