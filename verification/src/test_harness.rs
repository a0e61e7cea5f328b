//! A high-level harness over the in-memory client, the virtual clock and
//! the built-in email samples, giving tests one convenient surface.

use vstd::prelude::*;
use vstd::string::*;

use crate::fixtures::{EmailFixture, FixtureLoader};
use crate::mock_client::{MockIMAPClient, RecordedAction};
use crate::virtual_clock::VirtualClock;
use crate::virtual_mailbox::{MailboxMessage, VirtualMailbox};

verus! {

/// The combined test surface: a shared clock, the in-memory client over a
/// fresh mailbox, and the sample loader.
#[derive(Debug)]
pub struct TestHarness {
    pub clock: VirtualClock,
    pub client: MockIMAPClient,
    pub loader: FixtureLoader,
}

impl TestHarness {
    /// A fresh harness at the current system time.
    pub fn new() -> TestHarness {
        let clock = VirtualClock::new();
        let client = MockIMAPClient::new(VirtualMailbox::new(), clock.clone());
        TestHarness { clock, client, loader: FixtureLoader::new() }
    }

    /// A fresh harness at the given instant (epoch seconds).
    pub fn at_time(secs: i64) -> TestHarness {
        let clock = VirtualClock::at(secs);
        let client = MockIMAPClient::new(VirtualMailbox::new(), clock.clone());
        TestHarness { clock, client, loader: FixtureLoader::new() }
    }

    /// Stores a message, returning its assigned uid.
    pub fn add_message(&mut self, message: MailboxMessage) -> (uid: u32)
        requires
            self.client.mailbox_spec().next_uid_spec() < 0xffffffffu32,
    {
        self.client.add_message(message)
    }

    /// Stores a message carrying the given extra labels.
    pub fn add_message_with_labels(&mut self, message: MailboxMessage, labels: &[&str]) -> (uid:
        u32)
        requires
            self.client.mailbox_spec().next_uid_spec() < 0xffffffffu32,
    {
        let m = message.with_labels(labels);
        self.client.add_message(m)
    }

    /// Loads a built-in sample and stores it.
    pub fn add_fixture(&mut self, fixture_path: &str) -> (r: Result<u32, String>)
        requires
            self.client.mailbox_spec().next_uid_spec() < 0xffffffffu32,
    {
        match self.loader.load_email(fixture_path) {
            Ok(f) => Ok(self.client.add_message(f.message)),
            Err(e) => Err(e.describe()),
        }
    }

    /// Loads a built-in sample and stores it with the given labels.
    pub fn add_fixture_with_labels(&mut self, fixture_path: &str, labels: &[&str]) -> (r: Result<
        u32,
        String,
    >)
        requires
            self.client.mailbox_spec().next_uid_spec() < 0xffffffffu32,
    {
        match self.loader.load_email(fixture_path) {
            Ok(f) => Ok(self.add_message_with_labels(f.message, labels)),
            Err(e) => Err(e.describe()),
        }
    }

    /// Loads a built-in sample, dates it the given number of days before
    /// the current virtual instant, and stores it with the given labels.
    pub fn add_fixture_dated(&mut self, fixture_path: &str, labels: &[&str], days_ago: i64) -> (r:
        Result<u32, String>)
        requires
            self.client.mailbox_spec().next_uid_spec() < 0xffffffffu32,
            -100000 <= days_ago <= 100000,
    {
        match self.loader.load_email(fixture_path) {
            Ok(f) => {
                let mut m = f.message;
                let now = self.clock.now();
                let ago: i64 = days_ago * 86400;
                let stamp = match now.checked_sub(ago) {
                    Some(s) => s,
                    None => now,
                };
                m.date = crate::fixtures::epoch_to_rfc3339(stamp);
                Ok(self.add_message_with_labels(m, labels))
            },
            Err(e) => Err(e.describe()),
        }
    }

    /// Loads every built-in sample of a directory, sorted by name.
    pub fn load_fixtures_from_directory(&mut self, dir_path: &str) -> (r: Result<
        Vec<EmailFixture>,
        String,
    >) {
        match self.loader.load_directory(dir_path) {
            Ok(fs) => Ok(fs),
            Err(e) => Err(e.describe()),
        }
    }

    /// Moves the virtual clock forward by whole days.
    pub fn advance_days(&self, days: i64)
        requires
            -100000000000 <= days <= 100000000000,
    {
        self.clock.advance_days(days);
    }

    /// Moves the virtual clock forward by seconds.
    pub fn advance(&self, secs: i64) {
        self.clock.advance(secs);
    }

    /// The current virtual instant.
    pub fn now(&self) -> i64 {
        self.clock.now()
    }

    /// Every recorded action, oldest first.
    pub fn actions(&self) -> (r: Vec<RecordedAction>)
        ensures
            r.deep_view() == self.client.actions_view(),
    {
        self.client.get_recorded_actions()
    }

    /// Forgets every recorded action.
    pub fn clear_actions(&mut self)
        ensures
            final(self).client.actions_view().len() == 0,
    {
        self.client.clear_recorded_actions();
    }

    /// How many actions are recorded.
    pub fn action_count(&self) -> (r: usize)
        ensures
            r == self.client.actions_view().len(),
    {
        self.client.action_count()
    }

    /// The recorded star actions.
    pub fn star_actions(&self) -> (r: Vec<RecordedAction>) {
        self.client.get_star_actions()
    }

    /// The recorded move actions.
    pub fn move_actions(&self) -> (r: Vec<RecordedAction>) {
        self.client.get_move_actions()
    }

    /// The recorded delete actions.
    pub fn delete_actions(&self) -> (r: Vec<RecordedAction>) {
        self.client.get_delete_actions()
    }

    /// How many live messages carry this label.
    pub fn message_count(&self, label: &str) -> (r: usize) {
        let msgs = self.client.mailbox().get_messages_with_label(label);
        msgs.len()
    }

    /// How many live messages are stored in all.
    pub fn total_message_count(&self) -> (r: usize) {
        self.client.mailbox().message_count()
    }

    /// Whether the label exists.
    pub fn label_exists(&self, label: &str) -> (r: bool) {
        self.client.label_exists(label)
    }

    /// The stored message with this uid, if any.
    pub fn get_message(&self, uid: u32) -> (r: Option<MailboxMessage>) {
        self.client.get_message(uid)
    }

    /// Whether this exact action was recorded.
    pub fn action_recorded(&self, expected: &RecordedAction) -> (r: bool)
        ensures
            r == self.client.actions_view().contains(expected@),
    {
        self.client.has_action(expected)
    }

    /// Whether no action was recorded.
    pub fn no_actions(&self) -> (r: bool)
        ensures
            r == (self.client.actions_view().len() == 0),
    {
        self.client.action_count() == 0
    }

    /// Whether a star action for the uid was recorded.
    pub fn starred(&self, uid: u32) -> (r: bool) {
        let stars = self.client.get_star_actions();
        let mut i: usize = 0;
        while i < stars.len()
            decreases stars@.len() - i,
        {
            if stars[i].is_star_for(uid) {
                return true;
            }
            i += 1;
        }
        false
    }

    /// Whether a move of the uid to the destination was recorded.
    pub fn moved_to(&self, uid: u32, destination: &str) -> (r: bool) {
        let moves = self.client.get_move_actions();
        let mut i: usize = 0;
        while i < moves.len()
            decreases moves@.len() - i,
        {
            let hit = match &moves[i] {
                RecordedAction::Move { uid: u, to, .. } => *u == uid && crate::text::str_eq(
                    to.as_str(),
                    destination,
                ),
                _ => false,
            };
            if hit {
                return true;
            }
            i += 1;
        }
        false
    }

    /// Whether a delete of the uid was recorded.
    pub fn deleted(&self, uid: u32) -> (r: bool) {
        let dels = self.client.get_delete_actions();
        let mut i: usize = 0;
        while i < dels.len()
            decreases dels@.len() - i,
        {
            if dels[i].is_delete_for(uid) {
                return true;
            }
            i += 1;
        }
        false
    }

    /// Whether the stored message with this uid carries the label.
    pub fn has_label(&self, uid: u32, label: &str) -> (r: bool) {
        match self.client.get_message(uid) {
            Some(m) => crate::virtual_mailbox::strings_contain(&m.labels, label),
            None => false,
        }
    }
}

impl Default for TestHarness {
    fn default() -> TestHarness {
        TestHarness::new()
    }
}

} // verus!
