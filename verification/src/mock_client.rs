//! The in-memory client: the second implementation of the client
//! capability. It operates on a [`VirtualMailbox`], records every action
//! for inspection, and serves messages to the engine as parsed records.

use vstd::prelude::*;
use vstd::string::*;

use crate::client_ops::{ClientError, IMAPClientOps};
use crate::label::Label;
use crate::message::{clone_pair_vec, clone_string_vec, EmailAddress, Message};
use crate::text::str_eq;
use crate::virtual_clock::VirtualClock;
use crate::virtual_mailbox::{strings_contain, MailboxMessage, VirtualMailbox};

verus! {

/// One recorded client action, for inspection by tests.
#[derive(Debug)]
pub enum RecordedAction {
    /// The message was starred.
    Star { uid: u32, subject: String },
    /// The message was flagged as important.
    Flag { uid: u32, subject: String },
    /// The message was moved between folders.
    Move { uid: u32, from: String, to: String, subject: String },
    /// The message was marked deleted.
    Delete { uid: u32, subject: String },
    /// A label was added to the message.
    AddLabel { uid: u32, label: String },
    /// A label was removed from the message.
    RemoveLabel { uid: u32, label: String },
    /// A label or folder was created.
    CreateLabel { label: String },
    /// A mailbox was selected.
    Select { mailbox: String },
}

/// The mathematical value of a [`RecordedAction`].
pub enum RecordedActionV {
    Star { uid: u32, subject: Seq<char> },
    Flag { uid: u32, subject: Seq<char> },
    Move { uid: u32, from: Seq<char>, to: Seq<char>, subject: Seq<char> },
    Delete { uid: u32, subject: Seq<char> },
    AddLabel { uid: u32, label: Seq<char> },
    RemoveLabel { uid: u32, label: Seq<char> },
    CreateLabel { label: Seq<char> },
    Select { mailbox: Seq<char> },
}

impl View for RecordedAction {
    type V = RecordedActionV;

    open spec fn view(&self) -> RecordedActionV {
        match self {
            RecordedAction::Star { uid, subject } => RecordedActionV::Star {
                uid: *uid,
                subject: subject@,
            },
            RecordedAction::Flag { uid, subject } => RecordedActionV::Flag {
                uid: *uid,
                subject: subject@,
            },
            RecordedAction::Move { uid, from, to, subject } => RecordedActionV::Move {
                uid: *uid,
                from: from@,
                to: to@,
                subject: subject@,
            },
            RecordedAction::Delete { uid, subject } => RecordedActionV::Delete {
                uid: *uid,
                subject: subject@,
            },
            RecordedAction::AddLabel { uid, label } => RecordedActionV::AddLabel {
                uid: *uid,
                label: label@,
            },
            RecordedAction::RemoveLabel { uid, label } => RecordedActionV::RemoveLabel {
                uid: *uid,
                label: label@,
            },
            RecordedAction::CreateLabel { label } => RecordedActionV::CreateLabel {
                label: label@,
            },
            RecordedAction::Select { mailbox } => RecordedActionV::Select { mailbox: mailbox@ },
        }
    }
}

impl DeepView for RecordedAction {
    type V = RecordedActionV;

    open spec fn deep_view(&self) -> RecordedActionV {
        self@
    }
}

impl Clone for RecordedAction {
    fn clone(&self) -> (r: RecordedAction)
        ensures
            r@ == self@,
    {
        match self {
            RecordedAction::Star { uid, subject } => RecordedAction::Star {
                uid: *uid,
                subject: subject.clone(),
            },
            RecordedAction::Flag { uid, subject } => RecordedAction::Flag {
                uid: *uid,
                subject: subject.clone(),
            },
            RecordedAction::Move { uid, from, to, subject } => RecordedAction::Move {
                uid: *uid,
                from: from.clone(),
                to: to.clone(),
                subject: subject.clone(),
            },
            RecordedAction::Delete { uid, subject } => RecordedAction::Delete {
                uid: *uid,
                subject: subject.clone(),
            },
            RecordedAction::AddLabel { uid, label } => RecordedAction::AddLabel {
                uid: *uid,
                label: label.clone(),
            },
            RecordedAction::RemoveLabel { uid, label } => RecordedAction::RemoveLabel {
                uid: *uid,
                label: label.clone(),
            },
            RecordedAction::CreateLabel { label } => RecordedAction::CreateLabel {
                label: label.clone(),
            },
            RecordedAction::Select { mailbox } => RecordedAction::Select {
                mailbox: mailbox.clone(),
            },
        }
    }
}

impl PartialEq for RecordedAction {
    fn eq(&self, other: &RecordedAction) -> (r: bool) {
        match (self, other) {
            (
                RecordedAction::Star { uid: u1, subject: s1 },
                RecordedAction::Star { uid: u2, subject: s2 },
            ) => u1 == u2 && *s1 == *s2,
            (
                RecordedAction::Flag { uid: u1, subject: s1 },
                RecordedAction::Flag { uid: u2, subject: s2 },
            ) => u1 == u2 && *s1 == *s2,
            (
                RecordedAction::Move { uid: u1, from: f1, to: t1, subject: s1 },
                RecordedAction::Move { uid: u2, from: f2, to: t2, subject: s2 },
            ) => u1 == u2 && *f1 == *f2 && *t1 == *t2 && *s1 == *s2,
            (
                RecordedAction::Delete { uid: u1, subject: s1 },
                RecordedAction::Delete { uid: u2, subject: s2 },
            ) => u1 == u2 && *s1 == *s2,
            (
                RecordedAction::AddLabel { uid: u1, label: l1 },
                RecordedAction::AddLabel { uid: u2, label: l2 },
            ) => u1 == u2 && *l1 == *l2,
            (
                RecordedAction::RemoveLabel { uid: u1, label: l1 },
                RecordedAction::RemoveLabel { uid: u2, label: l2 },
            ) => u1 == u2 && *l1 == *l2,
            (
                RecordedAction::CreateLabel { label: l1 },
                RecordedAction::CreateLabel { label: l2 },
            ) => *l1 == *l2,
            (
                RecordedAction::Select { mailbox: m1 },
                RecordedAction::Select { mailbox: m2 },
            ) => *m1 == *m2,
            _ => false,
        }
    }
}

impl vstd::std_specs::cmp::PartialEqSpecImpl for RecordedAction {
    open spec fn obeys_eq_spec() -> bool {
        true
    }

    open spec fn eq_spec(&self, other: &RecordedAction) -> bool {
        self@ == other@
    }
}

impl Eq for RecordedAction {

}

impl RecordedAction {
    /// Whether this is a star action for the uid.
    pub fn is_star_for(&self, uid: u32) -> (r: bool)
        ensures
            r == (self@ matches RecordedActionV::Star { uid: u, .. } && u == uid),
    {
        match self {
            RecordedAction::Star { uid: u, .. } => *u == uid,
            _ => false,
        }
    }

    /// Whether this is a flag action for the uid.
    pub fn is_flag_for(&self, uid: u32) -> (r: bool)
        ensures
            r == (self@ matches RecordedActionV::Flag { uid: u, .. } && u == uid),
    {
        match self {
            RecordedAction::Flag { uid: u, .. } => *u == uid,
            _ => false,
        }
    }

    /// Whether this is a move action to the destination.
    pub fn is_move_to(&self, destination: &str) -> (r: bool)
        ensures
            r == (self@ matches RecordedActionV::Move { to, .. } && to == destination@),
    {
        match self {
            RecordedAction::Move { to, .. } => str_eq(to.as_str(), destination),
            _ => false,
        }
    }

    /// Whether this is a delete action for the uid.
    pub fn is_delete_for(&self, uid: u32) -> (r: bool)
        ensures
            r == (self@ matches RecordedActionV::Delete { uid: u, .. } && u == uid),
    {
        match self {
            RecordedAction::Delete { uid: u, .. } => *u == uid,
            _ => false,
        }
    }
}

/// The in-memory client: a virtual mailbox, a controllable clock, and the
/// record of every action taken.
#[derive(Debug)]
pub struct MockIMAPClient {
    mailbox: VirtualMailbox,
    actions: Vec<RecordedAction>,
    current_folder: String,
    clock: VirtualClock,
}

impl MockIMAPClient {
    /// A client over the given mailbox and clock, starting in INBOX.
    pub fn new(mailbox: VirtualMailbox, clock: VirtualClock) -> (r: MockIMAPClient)
        ensures
            r.actions_view().len() == 0,
            r.folder_view() == "INBOX"@,
            r.mailbox_spec() == mailbox,
    {
        MockIMAPClient {
            mailbox,
            actions: Vec::new(),
            current_folder: String::from_str("INBOX"),
            clock,
        }
    }

    /// The underlying mailbox, for specification purposes.
    pub closed spec fn mailbox_spec(&self) -> VirtualMailbox {
        self.mailbox
    }

    /// The recorded actions, as mathematical values.
    pub closed spec fn actions_view(&self) -> Seq<RecordedActionV> {
        self.actions.deep_view()
    }

    /// The selected folder, as a character sequence.
    pub closed spec fn folder_view(&self) -> Seq<char> {
        self.current_folder@
    }

    /// The underlying mailbox.
    pub fn mailbox(&self) -> (r: &VirtualMailbox)
        ensures
            r == self.mailbox_spec(),
    {
        &self.mailbox
    }

    /// The underlying mailbox, for direct test setup.
    pub fn mailbox_mut(&mut self) -> (r: &mut VirtualMailbox)
        ensures
            *r == old(self).mailbox_spec(),
            final(self).mailbox_spec() == *final(r),
    {
        &mut self.mailbox
    }

    /// Stores a message in the mailbox, returning its assigned uid.
    pub fn add_message(&mut self, message: MailboxMessage) -> (uid: u32)
        requires
            old(self).mailbox_spec().next_uid_spec() < 0xffffffffu32,
    {
        self.mailbox.add_message(message)
    }

    /// The current virtual instant.
    pub fn now(&self) -> i64 {
        self.clock.now()
    }

    /// The currently selected folder.
    pub fn current_folder(&self) -> (r: &str)
        ensures
            r@ == self.folder_view(),
    {
        self.current_folder.as_str()
    }

    /// Selects a folder and records it.
    pub fn select_folder(&mut self, folder: &str) -> (r: Result<(), ClientError>)
        ensures
            r is Ok,
            final(self).folder_view() == folder@,
            final(self).actions_view().len() == old(self).actions_view().len() + 1,
            final(self).actions_view().last() == (RecordedActionV::Select { mailbox: folder@ }),
    {
        self.current_folder = folder.to_owned();
        self.actions.push(RecordedAction::Select { mailbox: folder.to_owned() });
        Ok(())
    }

    /// The uids of the non-deleted messages in the current folder.
    pub fn search_all(&self) -> (r: Result<Vec<u32>, ClientError>) {
        let msgs = self.mailbox.get_messages_with_label(self.current_folder.as_str());
        let mut uids: Vec<u32> = Vec::new();
        let mut i: usize = 0;
        while i < msgs.len()
            decreases msgs@.len() - i,
        {
            uids.push(msgs[i].uid);
            i += 1;
        }
        Ok(uids)
    }

    /// The non-deleted messages of the current folder, as mailbox records.
    pub fn fetch_mailbox_messages(&self) -> (r: Result<Vec<MailboxMessage>, ClientError>) {
        Ok(self.mailbox.get_messages_with_label(self.current_folder.as_str()))
    }

    /// The stored message with this uid, if any.
    pub fn get_message(&self, uid: u32) -> (r: Option<MailboxMessage>) {
        match self.mailbox.get_message(uid) {
            Some(m) => Some(m.clone()),
            None => None,
        }
    }

    /// The labels of the message with this uid, or nothing for an unknown
    /// uid.
    pub fn get_message_labels(&self, uid: u32) -> (r: Result<Vec<String>, ClientError>) {
        match self.mailbox.get_message(uid) {
            Some(m) => Ok(clone_string_vec(&m.labels)),
            None => Ok(Vec::new()),
        }
    }

    fn subject_of(&self, uid: u32) -> (r: String) {
        match self.mailbox.get_message(uid) {
            Some(m) => m.subject.clone(),
            None => String::new(),
        }
    }

    /// Adds a flag or label to a message and records the action: the
    /// starred and important flags record as star and flag actions, the
    /// deleted flag deletes, and anything else records as a label
    /// addition.
    pub fn add_flags(&mut self, uid: u32, flag: &str) -> (r: Result<(), ClientError>)
        ensures
            r is Ok,
            final(self).actions_view().len() == old(self).actions_view().len() + 1,
    {
        let subject = self.subject_of(uid);
        let action: RecordedAction = if str_eq(flag, "\\Starred") {
            RecordedAction::Star { uid, subject }
        } else if str_eq(flag, "\\Important") {
            RecordedAction::Flag { uid, subject }
        } else if str_eq(flag, "\\Deleted") {
            let _ = self.mailbox.delete_message(uid);
            RecordedAction::Delete { uid, subject }
        } else {
            RecordedAction::AddLabel { uid, label: flag.to_owned() }
        };
        let _ = self.mailbox.add_label(uid, flag);
        self.actions.push(action);
        Ok(())
    }

    /// Removes a flag or label from a message and records the removal.
    pub fn remove_flags(&mut self, uid: u32, flag: &str) -> (r: Result<(), ClientError>)
        ensures
            r is Ok,
            final(self).actions_view().len() == old(self).actions_view().len() + 1,
    {
        let _ = self.mailbox.remove_label(uid, flag);
        self.actions.push(RecordedAction::RemoveLabel { uid, label: flag.to_owned() });
        Ok(())
    }

    /// Moves a message from the current folder to the destination,
    /// creating the destination if needed, and records the move.
    pub fn move_message(&mut self, uid: u32, destination: &str) -> (r: Result<(), ClientError>)
        ensures
            r is Ok,
    {
        let subject = self.subject_of(uid);
        let _ = self.ensure_label(destination);
        let from = self.current_folder.clone();
        let action = RecordedAction::Move {
            uid,
            from,
            to: destination.to_owned(),
            subject,
        };
        let _ = self.mailbox.move_message(uid, self.current_folder.clone().as_str(), destination);
        self.actions.push(action);
        Ok(())
    }

    /// Makes a label exist, recording its creation when it was missing.
    pub fn ensure_label(&mut self, label: &str) -> (r: Result<(), ClientError>)
        ensures
            r is Ok,
            final(self).mailbox_spec().labels_view().contains(label@),
    {
        if !self.mailbox.label_exists(label) {
            self.mailbox.create_label(label);
            self.actions.push(RecordedAction::CreateLabel { label: label.to_owned() });
        }
        Ok(())
    }

    /// Whether the label exists.
    pub fn label_exists(&self, label: &str) -> (r: bool)
        ensures
            r == self.mailbox_spec().labels_view().contains(label@),
    {
        self.mailbox.label_exists(label)
    }

    /// Ends the session; nothing to do in memory.
    pub fn end_session(&mut self) -> (r: Result<(), ClientError>)
        ensures
            r is Ok,
    {
        Ok(())
    }

    /// Every recorded action, oldest first.
    pub fn get_recorded_actions(&self) -> (r: Vec<RecordedAction>)
        ensures
            r.deep_view() == self.actions_view(),
    {
        let mut out: Vec<RecordedAction> = Vec::new();
        let mut i: usize = 0;
        while i < self.actions.len()
            invariant
                i <= self.actions@.len(),
                out.deep_view() =~= self.actions.deep_view().subrange(0, i as int),
            decreases self.actions@.len() - i,
        {
            let ghost prev = out.deep_view();
            out.push(self.actions[i].clone());
            proof {
                assert(out.deep_view() =~= prev.push(self.actions.deep_view()[i as int]));
                assert(self.actions.deep_view().subrange(0, i as int + 1) =~= prev.push(
                    self.actions.deep_view()[i as int],
                ));
            }
            i += 1;
        }
        proof {
            assert(self.actions.deep_view().subrange(0, self.actions@.len() as int)
                =~= self.actions.deep_view());
        }
        out
    }

    /// Forgets every recorded action.
    pub fn clear_recorded_actions(&mut self)
        ensures
            final(self).actions_view().len() == 0,
            final(self).mailbox_spec() == old(self).mailbox_spec(),
    {
        self.actions.clear();
    }

    /// How many actions are recorded.
    pub fn action_count(&self) -> (r: usize)
        ensures
            r == self.actions_view().len(),
    {
        self.actions.len()
    }

    /// Whether this exact action was recorded.
    pub fn has_action(&self, action: &RecordedAction) -> (r: bool)
        ensures
            r == self.actions_view().contains(action@),
    {
        let n = self.actions.len();
        let mut i: usize = 0;
        while i < n
            invariant
                n == self.actions@.len(),
                i <= n,
                forall|t: int| 0 <= t < i ==> #[trigger] self.actions.deep_view()[t] != action@,
            decreases n - i,
        {
            if self.actions[i] == *action {
                proof {
                    assert(self.actions.deep_view()[i as int] == action@);
                }
                return true;
            }
            i += 1;
        }
        false
    }

    /// The recorded star actions, in order.
    pub fn get_star_actions(&self) -> (r: Vec<RecordedAction>)
        ensures
            forall|t: int|
                0 <= t < r.deep_view().len() ==> (#[trigger] r.deep_view()[t]) matches RecordedActionV::Star { .. },
    {
        let mut out: Vec<RecordedAction> = Vec::new();
        let mut i: usize = 0;
        while i < self.actions.len()
            invariant
                forall|t: int|
                    0 <= t < out.deep_view().len() ==> (#[trigger] out.deep_view()[t]) matches RecordedActionV::Star { .. },
            decreases self.actions@.len() - i,
        {
            match &self.actions[i] {
                RecordedAction::Star { .. } => {
                    let ghost prev = out.deep_view();
                    out.push(self.actions[i].clone());
                    proof {
                        assert(forall|t: int|
                            0 <= t < prev.len() ==> #[trigger] out.deep_view()[t] == prev[t]);
                        assert(out.deep_view()[prev.len() as int] == self.actions.deep_view()[
                            i as int]);
                    }
                },
                _ => {},
            }
            i += 1;
        }
        out
    }

    /// The recorded move actions, in order.
    pub fn get_move_actions(&self) -> (r: Vec<RecordedAction>)
        ensures
            forall|t: int|
                0 <= t < r.deep_view().len() ==> (#[trigger] r.deep_view()[t]) matches RecordedActionV::Move { .. },
    {
        let mut out: Vec<RecordedAction> = Vec::new();
        let mut i: usize = 0;
        while i < self.actions.len()
            invariant
                forall|t: int|
                    0 <= t < out.deep_view().len() ==> (#[trigger] out.deep_view()[t]) matches RecordedActionV::Move { .. },
            decreases self.actions@.len() - i,
        {
            match &self.actions[i] {
                RecordedAction::Move { .. } => {
                    let ghost prev = out.deep_view();
                    out.push(self.actions[i].clone());
                    proof {
                        assert(forall|t: int|
                            0 <= t < prev.len() ==> #[trigger] out.deep_view()[t] == prev[t]);
                        assert(out.deep_view()[prev.len() as int] == self.actions.deep_view()[
                            i as int]);
                    }
                },
                _ => {},
            }
            i += 1;
        }
        out
    }

    /// The recorded delete actions, in order.
    pub fn get_delete_actions(&self) -> (r: Vec<RecordedAction>)
        ensures
            forall|t: int|
                0 <= t < r.deep_view().len() ==> (#[trigger] r.deep_view()[t]) matches RecordedActionV::Delete { .. },
    {
        let mut out: Vec<RecordedAction> = Vec::new();
        let mut i: usize = 0;
        while i < self.actions.len()
            invariant
                forall|t: int|
                    0 <= t < out.deep_view().len() ==> (#[trigger] out.deep_view()[t]) matches RecordedActionV::Delete { .. },
            decreases self.actions@.len() - i,
        {
            match &self.actions[i] {
                RecordedAction::Delete { .. } => {
                    let ghost prev = out.deep_view();
                    out.push(self.actions[i].clone());
                    proof {
                        assert(forall|t: int|
                            0 <= t < prev.len() ==> #[trigger] out.deep_view()[t] == prev[t]);
                        assert(out.deep_view()[prev.len() as int] == self.actions.deep_view()[
                            i as int]);
                    }
                },
                _ => {},
            }
            i += 1;
        }
        out
    }
}

/// Turns a mailbox record into the engine's parsed message: recipients as
/// bare addresses, the label and flag sets folded into one normalized
/// label list.
fn mailbox_record_to_message(m: &MailboxMessage) -> (r: Message) {
    let mut labels: Vec<Label> = Vec::new();
    let mut i: usize = 0;
    while i < m.labels.len()
        decreases m.labels@.len() - i,
    {
        labels.push(Label::new(m.labels[i].as_str()));
        i += 1;
    }
    let mut j: usize = 0;
    while j < m.flags.len()
        decreases m.flags@.len() - j,
    {
        labels.push(Label::new(m.flags[j].as_str()));
        j += 1;
    }
    Message {
        uid: m.uid,
        seq: m.seq,
        to: bare_addresses(&m.to),
        cc: bare_addresses(&m.cc),
        from: bare_addresses(&m.from),
        subject: m.subject.clone(),
        date: m.date.clone(),
        labels,
        headers: clone_pair_vec(&m.headers),
        message_id: match &m.message_id {
            Some(s) => Some(s.clone()),
            None => None,
        },
        in_reply_to: match &m.in_reply_to {
            Some(s) => Some(s.clone()),
            None => None,
        },
        references: clone_string_vec(&m.references),
        thread_id: match &m.thread_id {
            Some(s) => Some(s.clone()),
            None => None,
        },
    }
}

fn bare_addresses(v: &Vec<String>) -> (r: Vec<EmailAddress>) {
    let mut out: Vec<EmailAddress> = Vec::new();
    let mut i: usize = 0;
    while i < v.len()
        decreases v@.len() - i,
    {
        out.push(EmailAddress { name: String::new(), email: v[i].clone() });
        i += 1;
    }
    out
}

impl IMAPClientOps for MockIMAPClient {
    fn select(&mut self, mailbox: &str) -> Result<(), ClientError> {
        self.select_folder(mailbox)
    }

    fn search(&mut self, query: &str) -> Result<Vec<u32>, ClientError> {
        let _ = query;
        self.search_all()
    }

    fn fetch_messages(&mut self, seq_set: &str) -> Result<Vec<Message>, ClientError> {
        let _ = seq_set;
        let records = match self.fetch_mailbox_messages() {
            Ok(r) => r,
            Err(e) => {
                return Err(e);
            },
        };
        let mut out: Vec<Message> = Vec::new();
        let mut i: usize = 0;
        while i < records.len()
            decreases records@.len() - i,
        {
            out.push(mailbox_record_to_message(&records[i]));
            i += 1;
        }
        Ok(out)
    }

    fn uid_store_add_flags(&mut self, uid: u32, flags: &str) -> Result<(), ClientError> {
        self.add_flags(uid, flags)
    }

    fn uid_store_remove_flags(&mut self, uid: u32, flags: &str) -> Result<(), ClientError> {
        self.remove_flags(uid, flags)
    }

    fn uid_move(&mut self, uid: u32, destination: &str) -> Result<(), ClientError> {
        self.move_message(uid, destination)
    }

    fn ensure_label_exists(&mut self, label: &str) -> Result<(), ClientError> {
        self.ensure_label(label)
    }

    fn get_labels(&mut self, uid: u32) -> Result<Vec<String>, ClientError> {
        self.get_message_labels(uid)
    }

    fn set_label(&mut self, uid: u32, label: &str, subject: &str) -> Result<(), ClientError> {
        let _ = subject;
        // adding an already-present label performs no mutation and records
        // no action
        let already = match self.mailbox.get_message(uid) {
            Some(m) => strings_contain(&m.labels, label),
            None => false,
        };
        if already {
            return Ok(());
        }
        let _ = self.ensure_label(label);
        self.add_flags(uid, label)
    }

    fn logout(&mut self) -> Result<(), ClientError> {
        self.end_session()
    }

    fn expunge(&mut self) -> Result<(), ClientError> {
        let _ = self.mailbox.expunge();
        Ok(())
    }
}

} // verus!
