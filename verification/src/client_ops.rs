//! The capability interface to the mailbox: the same filter logic runs
//! against the real transport or an in-memory test mailbox, selected by
//! dependency injection. The clock is injected the same way, so retention
//! evaluation is deterministic under test.

use vstd::prelude::*;

use crate::message::Message;

verus! {

/// A remote mailbox operation failure, carried as the lower level's error
/// text so that it can be classified.
#[derive(Debug)]
pub struct ClientError {
    pub text: String,
}

impl View for ClientError {
    type V = Seq<char>;

    open spec fn view(&self) -> Seq<char> {
        self.text@
    }
}

impl Clone for ClientError {
    fn clone(&self) -> (r: ClientError)
        ensures
            r@ == self@,
    {
        ClientError { text: self.text.clone() }
    }
}

/// The mailbox operations the engine needs. The real transport and the
/// in-memory test mailbox both implement this.
pub trait IMAPClientOps {
    /// Selects a mailbox/folder.
    fn select(&mut self, mailbox: &str) -> Result<(), ClientError>;

    /// Searches for messages matching a query.
    fn search(&mut self, query: &str) -> Result<Vec<u32>, ClientError>;

    /// Fetches the messages of a sequence set.
    fn fetch_messages(&mut self, seq_set: &str) -> Result<Vec<Message>, ClientError>;

    /// Adds flags to a message.
    fn uid_store_add_flags(&mut self, uid: u32, flags: &str) -> Result<(), ClientError>;

    /// Removes flags from a message.
    fn uid_store_remove_flags(&mut self, uid: u32, flags: &str) -> Result<(), ClientError>;

    /// Moves a message to another folder.
    fn uid_move(&mut self, uid: u32, destination: &str) -> Result<(), ClientError>;

    /// Ensures a label/folder exists, creating it if necessary.
    fn ensure_label_exists(&mut self, label: &str) -> Result<(), ClientError>;

    /// The labels currently on a message.
    fn get_labels(&mut self, uid: u32) -> Result<Vec<String>, ClientError>;

    /// Adds a label to a message, creating the label if needed; adding an
    /// already-present label performs no mutation.
    fn set_label(&mut self, uid: u32, label: &str, subject: &str) -> Result<(), ClientError>;

    /// Ends the session.
    fn logout(&mut self) -> Result<(), ClientError>;

    /// Expunges deleted messages.
    fn expunge(&mut self) -> Result<(), ClientError>;
}

/// A time source, injected so that retention evaluation is deterministic
/// under test. `now` is the current instant in epoch seconds.
pub trait Clock {
    /// The current instant, in seconds since the Unix epoch.
    fn now(&self) -> i64;
}

/// Relies on chrono::Utc::now and timestamp for the system time; nothing
/// can be promised of the value.
#[verifier::external_body]
pub(crate) fn system_now_secs() -> i64 {
    chrono::Utc::now().timestamp()
}

/// The real clock: system time.
#[derive(Debug, Clone, Copy, PartialEq, Eq, Structural, Default)]
pub struct RealClock;

impl Clock for RealClock {
    fn now(&self) -> i64 {
        system_now_secs()
    }
}

} // verus!
