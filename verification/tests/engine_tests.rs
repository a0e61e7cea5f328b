//! The orchestrator run against the in-memory client: content matches act
//! on whole conversations, retention is governed by the newest member, and
//! protections and dry runs hold.

use chrono::Duration;
use imap_filter::imap_filter::{IMAPFilter, RunError, StateOutcome};
use imap_filter::label::Label;
use imap_filter::message_filter::{AddressFilter, FilterAction, LabelsFilter, MessageFilter};
use imap_filter::client_ops::IMAPClientOps;
use imap_filter::mock_client::{MockIMAPClient, RecordedAction};
use imap_filter::state_filter::{StateAction, StateFilter, Ttl};
use imap_filter::virtual_clock::VirtualClock;
use imap_filter::virtual_mailbox::{MailboxMessage, VirtualMailbox};

fn rfc3339_secs(s: &str) -> i64 {
    chrono::DateTime::parse_from_rfc3339(s).unwrap().timestamp()
}

fn to_filter(patterns: Vec<&str>, require_no_cc: bool) -> MessageFilter {
    MessageFilter {
        name: "to-me".to_string(),
        to: Some(AddressFilter {
            patterns: patterns.into_iter().map(String::from).collect(),
        }),
        cc: if require_no_cc {
            Some(AddressFilter { patterns: vec![] })
        } else {
            None
        },
        from: None,
        subject: vec![],
        labels: LabelsFilter::default(),
        headers: vec![],
        actions: vec![FilterAction::Star],
    }
}

#[test]
fn test_content_match_stars_whole_thread() {
    // filter {to:["me@x.com"], cc: []} and a two-message conversation: the
    // match on one member stars every sibling
    let clock = VirtualClock::at(rfc3339_secs("2024-03-01T00:00:00+00:00"));
    let mut client = MockIMAPClient::new(VirtualMailbox::new(), clock.clone());

    let m1 = MailboxMessage::new(
        0,
        "Direct question",
        "alice@x.com",
        "me@x.com",
        "2024-02-28T00:00:00+00:00",
    )
    .with_labels(&["INBOX"])
    .with_thread_id("conv-1");
    let m2 = MailboxMessage::new(
        0,
        "Re: Direct question",
        "bob@x.com",
        "someone-else@x.com",
        "2024-02-29T00:00:00+00:00",
    )
    .with_labels(&["INBOX"])
    .with_thread_id("conv-1");

    let uid1 = client.add_message(m1);
    let uid2 = client.add_message(m2);

    let mut engine = IMAPFilter::new(client, vec![to_filter(vec!["me@x.com"], true)], vec![]);
    let report = engine.execute_checked(&clock).unwrap();

    // one decision covering both uids
    assert_eq!(report.content.len(), 1);
    assert_eq!(report.content[0].filter_name, "to-me");
    assert!(report.content[0].uids.contains(&uid1));
    assert!(report.content[0].uids.contains(&uid2));

    // both messages were starred
    let actions = engine.client.get_recorded_actions();
    assert!(actions.iter().any(|a| a.is_star_for(uid1)));
    assert!(actions.iter().any(|a| a.is_star_for(uid2)));
}

#[test]
fn test_content_match_with_cc_is_skipped() {
    // the same filter leaves a message with a carbon copy alone
    let clock = VirtualClock::at(rfc3339_secs("2024-03-01T00:00:00+00:00"));
    let mut client = MockIMAPClient::new(VirtualMailbox::new(), clock.clone());

    let m = MailboxMessage::new(
        0,
        "Group mail",
        "alice@x.com",
        "me@x.com",
        "2024-02-28T00:00:00+00:00",
    )
    .with_labels(&["INBOX"])
    .with_cc(&["cc@x.com"]);
    let uid = client.add_message(m);

    let mut engine = IMAPFilter::new(client, vec![to_filter(vec!["me@x.com"], true)], vec![]);
    let report = engine.execute_checked(&clock).unwrap();

    assert!(report.content.is_empty());
    assert!(!engine
        .client
        .get_recorded_actions()
        .iter()
        .any(|a| a.is_star_for(uid)));
    assert_eq!(report.untouched.len(), 1);
}

#[test]
fn test_retention_moves_expired_singleton() {
    // state filter {labels:[], ttl 7d, Move("Archive")} and a singleton
    // message dated ten days back: the run moves it to Archive
    let now = rfc3339_secs("2024-03-11T00:00:00+00:00");
    let clock = VirtualClock::at(now);
    let mut client = MockIMAPClient::new(VirtualMailbox::new(), clock.clone());

    let stamp = chrono::DateTime::from_timestamp(now, 0).unwrap() - Duration::days(10);
    let m = MailboxMessage::new(
        0,
        "Stale",
        "alice@x.com",
        "me@x.com",
        &stamp.to_rfc3339(),
    )
    .with_labels(&["INBOX"]);
    let uid = client.add_message(m);

    let sf = StateFilter {
        name: "age-out".to_string(),
        labels: vec![],
        ttl: Ttl::Days(7),
        action: StateAction::Move("Archive".to_string()),
        nerf: false,
    };

    // the retention engine itself reports the expiry with the action
    let probe = imap_filter::message::Message::new(
        uid,
        uid,
        b"From: alice@x.com\r\n\r\n".to_vec(),
        vec![],
        stamp.to_rfc3339(),
        None,
    );
    assert_eq!(
        sf.evaluate_ttl(&probe, now).unwrap(),
        Some(StateAction::Move("Archive".to_string()))
    );

    let mut engine = IMAPFilter::new(client, vec![], vec![sf]);
    let report = engine.execute_checked(&clock).unwrap();

    assert_eq!(report.state.len(), 1);
    match &report.state[0].outcome {
        StateOutcome::Expired { action, nerfed } => {
            assert_eq!(*action, StateAction::Move("Archive".to_string()));
            assert!(!nerfed);
        }
        StateOutcome::Protected => panic!("expected an expiry"),
    }

    // post-run the message carries Archive and not its prior folder
    let msg = engine.client.get_message(uid).unwrap();
    assert!(msg.labels.contains(&"Archive".to_string()));
    assert!(!msg.labels.contains(&"INBOX".to_string()));
}

#[test]
fn test_thread_liveness_newest_member_governs() {
    // a conversation with one member thirty days old and one a day old
    // does not expire under a seven-day threshold
    let now = rfc3339_secs("2024-03-31T00:00:00+00:00");
    let clock = VirtualClock::at(now);
    let mut client = MockIMAPClient::new(VirtualMailbox::new(), clock.clone());

    let old_stamp = chrono::DateTime::from_timestamp(now, 0).unwrap() - Duration::days(30);
    let new_stamp = chrono::DateTime::from_timestamp(now, 0).unwrap() - Duration::days(1);

    let m_old = MailboxMessage::new(0, "Start", "a@x.com", "b@x.com", &old_stamp.to_rfc3339())
        .with_labels(&["INBOX"])
        .with_thread_id("conv-live");
    let m_new = MailboxMessage::new(0, "Re: Start", "b@x.com", "a@x.com", &new_stamp.to_rfc3339())
        .with_labels(&["INBOX"])
        .with_thread_id("conv-live");

    let uid_old = client.add_message(m_old);
    let uid_new = client.add_message(m_new);

    let sf = StateFilter {
        name: "age-out".to_string(),
        labels: vec![],
        ttl: Ttl::Days(7),
        action: StateAction::Delete,
        nerf: false,
    };

    let mut engine = IMAPFilter::new(client, vec![], vec![sf]);
    let report = engine.execute_checked(&clock).unwrap();

    // neither member was acted upon
    assert!(report.state.is_empty());
    assert!(engine.client.get_delete_actions().is_empty());
    assert!(engine.client.get_message(uid_old).is_some());
    assert!(!engine.client.get_message(uid_old).unwrap().deleted);
    assert!(!engine.client.get_message(uid_new).unwrap().deleted);
}

#[test]
fn test_keep_protects_message_from_later_filters() {
    // a message matching a Keep filter first is never acted upon, even
    // though a later filter would delete everything
    let now = rfc3339_secs("2024-03-31T00:00:00+00:00");
    let clock = VirtualClock::at(now);
    let mut client = MockIMAPClient::new(VirtualMailbox::new(), clock.clone());

    let old_stamp = chrono::DateTime::from_timestamp(now, 0).unwrap() - Duration::days(300);
    let m = MailboxMessage::new(0, "Precious", "a@x.com", "b@x.com", &old_stamp.to_rfc3339())
        .with_labels(&["INBOX", "Starred"]);
    let uid = client.add_message(m);

    let keep = StateFilter {
        name: "keep-starred".to_string(),
        labels: vec![Label::Starred],
        ttl: Ttl::Keep,
        action: StateAction::Delete,
        nerf: false,
    };
    let purge = StateFilter {
        name: "purge-all".to_string(),
        labels: vec![],
        ttl: Ttl::Days(0),
        action: StateAction::Delete,
        nerf: false,
    };

    let mut engine = IMAPFilter::new(client, vec![], vec![keep, purge]);
    let report = engine.execute_checked(&clock).unwrap();

    // one protection decision, no delete
    assert!(report
        .state
        .iter()
        .any(|d| matches!(d.outcome, StateOutcome::Protected) && d.uids == vec![uid]));
    assert!(engine.client.get_delete_actions().is_empty());
    assert!(!engine.client.get_message(uid).unwrap().deleted);
}

#[test]
fn test_nerf_suppresses_the_mutation_but_logs() {
    // a dry-run filter evaluates identically but performs no mutation
    let now = rfc3339_secs("2024-03-31T00:00:00+00:00");
    let clock = VirtualClock::at(now);
    let mut client = MockIMAPClient::new(VirtualMailbox::new(), clock.clone());

    let old_stamp = chrono::DateTime::from_timestamp(now, 0).unwrap() - Duration::days(10);
    let m = MailboxMessage::new(0, "Stale", "a@x.com", "b@x.com", &old_stamp.to_rfc3339())
        .with_labels(&["INBOX"]);
    let uid = client.add_message(m);

    let sf = StateFilter {
        name: "dry-run".to_string(),
        labels: vec![],
        ttl: Ttl::Days(7),
        action: StateAction::Move("Archive".to_string()),
        nerf: true,
    };

    let mut engine = IMAPFilter::new(client, vec![], vec![sf]);
    let report = engine.execute_checked(&clock).unwrap();

    // the decision is logged as suppressed
    assert_eq!(report.state.len(), 1);
    assert!(matches!(
        report.state[0].outcome,
        StateOutcome::Expired { nerfed: true, .. }
    ));

    // and the mailbox is untouched
    let msg = engine.client.get_message(uid).unwrap();
    assert!(msg.labels.contains(&"INBOX".to_string()));
    assert!(!msg.labels.contains(&"Archive".to_string()));
    assert!(engine.client.get_move_actions().is_empty());
}

#[test]
fn test_bad_filter_pattern_ends_run_before_mutation() {
    let clock = VirtualClock::at(rfc3339_secs("2024-03-01T00:00:00+00:00"));
    let mut client = MockIMAPClient::new(VirtualMailbox::new(), clock.clone());
    let uid = client.add_message(
        MailboxMessage::new(
            0,
            "Anything",
            "a@x.com",
            "me@x.com",
            "2024-02-28T00:00:00+00:00",
        )
        .with_labels(&["INBOX"]),
    );

    let broken = MessageFilter {
        name: "broken".to_string(),
        to: Some(AddressFilter {
            patterns: vec!["me@x.com[".to_string()],
        }),
        cc: None,
        from: None,
        subject: vec![],
        labels: LabelsFilter::default(),
        headers: vec![],
        actions: vec![FilterAction::Star],
    };

    let mut engine = IMAPFilter::new(client, vec![broken], vec![]);
    match engine.execute_checked(&clock) {
        Err(RunError::BadFilterPattern(name)) => assert_eq!(name, "broken"),
        _ => panic!("expected the bad pattern to end the run"),
    }
    // no mutation happened
    assert!(engine.client.get_recorded_actions().is_empty());
    let _ = uid;
}

#[test]
fn test_set_label_is_idempotent_through_the_engine() {
    // starring a message that is already starred performs no mutation
    let clock = VirtualClock::at(rfc3339_secs("2024-03-01T00:00:00+00:00"));
    let mut client = MockIMAPClient::new(VirtualMailbox::new(), clock.clone());

    let m = MailboxMessage::new(
        0,
        "Already starred",
        "alice@x.com",
        "me@x.com",
        "2024-02-28T00:00:00+00:00",
    )
    .with_labels(&["INBOX", "\\Starred"]);
    let uid = client.add_message(m);

    client
        .set_label(uid, "\\Starred", "Already starred")
        .unwrap();

    // no action was recorded and the labels are unchanged
    assert!(client.get_recorded_actions().is_empty());
    let labels = client.get_message_labels(uid).unwrap();
    assert_eq!(
        labels.iter().filter(|l| *l == "\\Starred").count(),
        1
    );
}

#[test]
fn test_phase_order_content_before_retention() {
    // a message matched by a content filter leaves the working set before
    // retention runs, so only the content decision appears for it
    let now = rfc3339_secs("2024-03-31T00:00:00+00:00");
    let clock = VirtualClock::at(now);
    let mut client = MockIMAPClient::new(VirtualMailbox::new(), clock.clone());

    let old_stamp = chrono::DateTime::from_timestamp(now, 0).unwrap() - Duration::days(30);
    let m = MailboxMessage::new(0, "Old but matched", "a@x.com", "me@x.com", &old_stamp.to_rfc3339())
        .with_labels(&["INBOX"]);
    let uid = client.add_message(m);

    let purge = StateFilter {
        name: "purge-all".to_string(),
        labels: vec![],
        ttl: Ttl::Days(7),
        action: StateAction::Delete,
        nerf: false,
    };

    let mut engine = IMAPFilter::new(client, vec![to_filter(vec!["me@x.com"], false)], vec![purge]);
    let report = engine.execute_checked(&clock).unwrap();

    assert_eq!(report.content.len(), 1);
    assert!(report.state.is_empty());
    assert!(engine.client.get_delete_actions().is_empty());
    assert!(engine
        .client
        .get_recorded_actions()
        .iter()
        .any(|a: &RecordedAction| a.is_star_for(uid)));
}
