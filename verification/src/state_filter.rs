//! The retention engine: a `StateFilter` selects messages by label and
//! expires them by age against a time-to-live, with separate thresholds for
//! read and unread messages when configured.

use vstd::prelude::*;
use vstd::string::*;

use crate::label::{Label, LabelV};
use crate::message::{Message, MessageV};
use crate::message_filter::{labels_meet, vec_contains_label};

verus! {

/// Seconds in one day.
pub open spec fn day_secs() -> int {
    86400
}

/// A time-to-live: never expire, one threshold in days, or separate read
/// and unread thresholds in days.
#[derive(Debug, Clone, Copy, PartialEq, Eq, Structural)]
pub enum Ttl {
    Keep,
    Days(i64),
    Detailed { read: i64, unread: i64 },
}

/// The action a state filter applies on expiry.
#[derive(Debug)]
pub enum StateAction {
    Move(String),
    Delete,
}

/// The mathematical value of a [`StateAction`].
pub enum StateActionV {
    Move(Seq<char>),
    Delete,
}

impl View for StateAction {
    type V = StateActionV;

    open spec fn view(&self) -> StateActionV {
        match self {
            StateAction::Move(l) => StateActionV::Move(l@),
            StateAction::Delete => StateActionV::Delete,
        }
    }
}

impl DeepView for StateAction {
    type V = StateActionV;

    open spec fn deep_view(&self) -> StateActionV {
        self@
    }
}

impl Clone for StateAction {
    fn clone(&self) -> (r: StateAction)
        ensures
            r@ == self@,
    {
        match self {
            StateAction::Move(l) => StateAction::Move(l.clone()),
            StateAction::Delete => StateAction::Delete,
        }
    }
}

impl PartialEq for StateAction {
    fn eq(&self, other: &StateAction) -> (r: bool) {
        match (self, other) {
            (StateAction::Move(a), StateAction::Move(b)) => *a == *b,
            (StateAction::Delete, StateAction::Delete) => true,
            _ => false,
        }
    }
}

impl vstd::std_specs::cmp::PartialEqSpecImpl for StateAction {
    open spec fn obeys_eq_spec() -> bool {
        true
    }

    open spec fn eq_spec(&self, other: &StateAction) -> bool {
        self@ == other@
    }
}

impl Eq for StateAction {

}

/// The error of a retention evaluation: the message's stored timestamp is
/// not a parsable absolute instant.
#[derive(Debug, PartialEq, Eq, Structural)]
pub enum RetentionError {
    MalformedTimestamp,
}

/// A named retention rule: the labels it applies to (none means all), its
/// time-to-live, the action on expiry, and the dry-run flag.
#[derive(Debug)]
pub struct StateFilter {
    pub name: String,
    pub labels: Vec<Label>,
    pub ttl: Ttl,
    pub action: StateAction,
    pub nerf: bool,
}

/// The mathematical value of a [`StateFilter`].
pub struct StateFilterV {
    pub name: Seq<char>,
    pub labels: Seq<LabelV>,
    pub ttl: Ttl,
    pub action: StateActionV,
    pub nerf: bool,
}

impl View for StateFilter {
    type V = StateFilterV;

    open spec fn view(&self) -> StateFilterV {
        StateFilterV {
            name: self.name@,
            labels: self.labels.deep_view(),
            ttl: self.ttl,
            action: self.action@,
            nerf: self.nerf,
        }
    }
}

impl Clone for StateFilter {
    fn clone(&self) -> (r: StateFilter)
        ensures
            r@ == self@,
    {
        StateFilter {
            name: self.name.clone(),
            labels: crate::message::clone_label_vec(&self.labels),
            ttl: self.ttl,
            action: self.action.clone(),
            nerf: self.nerf,
        }
    }
}

impl DeepView for StateFilter {
    type V = StateFilterV;

    open spec fn deep_view(&self) -> StateFilterV {
        self@
    }
}

/// What the epoch-second reading of an RFC 3339 timestamp is, if the text
/// parses as one.
pub uninterp spec fn rfc3339_epoch_of(s: Seq<char>) -> Option<int>;

/// Relies on chrono's DateTime::parse_from_rfc3339, with_timezone and
/// timestamp: the parse and its epoch-second reading depend on the text
/// alone.
#[verifier::external_body]
pub(crate) fn parse_rfc3339_secs(s: &str) -> (r: Option<i64>)
    ensures
        r is Some <==> rfc3339_epoch_of(s@) is Some,
        r matches Some(v) ==> rfc3339_epoch_of(s@) == Some(v as int),
{
    match chrono::DateTime::parse_from_rfc3339(s) {
        Ok(dt) => Some(dt.with_timezone(&chrono::Utc).timestamp()),
        Err(_) => None,
    }
}

/// Whether the message carries a seen/read marker among its labels.
pub open spec fn is_read(m: MessageV) -> bool {
    m.labels.contains(LabelV::Custom("Seen"@)) || m.labels.contains(LabelV::Custom("\\Seen"@))
}

/// A state filter applies to a message when its label list is empty or
/// shares a label with the message.
pub open spec fn state_filter_applies(f: StateFilterV, m: MessageV) -> bool {
    f.labels.len() == 0 || labels_meet(m.labels, f.labels)
}

/// The threshold, in days, that the message's age is held against; `None`
/// for `Keep`, which never expires.
pub open spec fn ttl_threshold_days(ttl: Ttl, m: MessageV) -> Option<int> {
    match ttl {
        Ttl::Keep => None,
        Ttl::Days(d) => Some(d as int),
        Ttl::Detailed { read, unread } => if is_read(m) {
            Some(read as int)
        } else {
            Some(unread as int)
        },
    }
}

/// Whether a message whose timestamp reads `ts` is expired at `now` under
/// the filter's time-to-live: its age has reached the threshold.
pub open spec fn ttl_expired(f: StateFilterV, m: MessageV, ts: int, now: int) -> bool {
    match ttl_threshold_days(f.ttl, m) {
        None => false,
        Some(days) => now - ts >= days * day_secs(),
    }
}

impl StateFilter {
    /// Whether the filter applies to this message: always when its label
    /// list is empty, else when some message label is listed.
    pub fn matches(&self, msg: &Message) -> (r: bool)
        ensures
            r == state_filter_applies(self@, msg@),
    {
        if self.labels.len() == 0 {
            proof {
                assert(self@.labels.len() == self.labels@.len());
            }
            return true;
        }
        proof {
            assert(self@.labels.len() == self.labels@.len());
        }
        let n = msg.labels.len();
        let mut i: usize = 0;
        while i < n
            invariant
                n == msg.labels.len(),
                i <= n,
                forall|t: int|
                    0 <= t < i ==> !self.labels.deep_view().contains(
                        #[trigger] msg.labels.deep_view()[t],
                    ),
            decreases n - i,
        {
            if vec_contains_label(&self.labels, &msg.labels[i]) {
                assert(self.labels.deep_view().contains(msg.labels.deep_view()[i as int]));
                return true;
            }
            i += 1;
        }
        false
    }

    /// Evaluates the time-to-live of this filter against the message at the
    /// given instant (epoch seconds). The stored timestamp must parse as an
    /// absolute RFC 3339 instant, else the evaluation fails; `Keep` never
    /// expires; otherwise the message expires exactly when its age has
    /// reached the threshold — the read threshold for seen messages and the
    /// unread one for others, under a `Detailed` time-to-live.
    pub fn evaluate_ttl(&self, msg: &Message, now_secs: i64) -> (r: Result<
        Option<StateAction>,
        RetentionError,
    >)
        ensures
            r is Err <==> rfc3339_epoch_of(msg@.date) is None,
            r is Err ==> r == Result::<Option<StateAction>, RetentionError>::Err(
                RetentionError::MalformedTimestamp,
            ),
            rfc3339_epoch_of(msg@.date) matches Some(ts) ==> match r {
                Ok(Some(a)) => ttl_expired(self@, msg@, ts, now_secs as int) && a@ == self@.action,
                Ok(None) => !ttl_expired(self@, msg@, ts, now_secs as int),
                Err(_) => false,
            },
    {
        let ts = match parse_rfc3339_secs(self_date(msg)) {
            Some(t) => t,
            None => {
                return Err(RetentionError::MalformedTimestamp);
            },
        };
        let read = message_is_read(msg);
        let days = match self.ttl {
            Ttl::Keep => {
                return Ok(None);
            },
            Ttl::Days(d) => d,
            Ttl::Detailed { read: r_days, unread: u_days } => if read {
                r_days
            } else {
                u_days
            },
        };
        let age: i128 = now_secs as i128 - ts as i128;
        let threshold: i128 = days as i128 * 86400;
        if age >= threshold {
            Ok(Some(self.action.clone()))
        } else {
            Ok(None)
        }
    }
}

/// The stored date of the message, as text.
fn self_date(msg: &Message) -> (r: &str)
    ensures
        r@ == msg@.date,
{
    msg.date.as_str()
}

/// Whether the message carries the seen/read marker.
fn message_is_read(msg: &Message) -> (r: bool)
    ensures
        r == is_read(msg@),
{
    let n = msg.labels.len();
    let mut i: usize = 0;
    while i < n
        invariant
            n == msg.labels.len(),
            i <= n,
            forall|t: int|
                0 <= t < i ==> #[trigger] msg.labels.deep_view()[t] != LabelV::Custom("Seen"@)
                    && msg.labels.deep_view()[t] != LabelV::Custom("\\Seen"@),
        decreases n - i,
    {
        let hit = match &msg.labels[i] {
            Label::Custom(s) => {
                crate::text::str_eq(s.as_str(), "Seen") || crate::text::str_eq(
                    s.as_str(),
                    "\\Seen",
                )
            },
            _ => false,
        };
        if hit {
            proof {
                assert(msg.labels.deep_view()[i as int] == LabelV::Custom("Seen"@)
                    || msg.labels.deep_view()[i as int] == LabelV::Custom("\\Seen"@));
            }
            return true;
        }
        i += 1;
    }
    proof {
        if is_read(msg@) {
            if msg@.labels.contains(LabelV::Custom("Seen"@)) {
                let w = choose|w: int|
                    0 <= w < msg@.labels.len() && msg@.labels[w] == LabelV::Custom("Seen"@);
                assert(msg.labels.deep_view()[w] == LabelV::Custom("Seen"@));
            } else {
                let w = choose|w: int|
                    0 <= w < msg@.labels.len() && msg@.labels[w] == LabelV::Custom("\\Seen"@);
                assert(msg.labels.deep_view()[w] == LabelV::Custom("\\Seen"@));
            }
        }
    }
    false
}

/// The boundary of expiry under `Days(d)`: an age of exactly `d` days
/// expires, one second less does not.
pub proof fn lemma_ttl_boundary(f: StateFilterV, m: MessageV, ts: int, d: i64)
    requires
        f.ttl == Ttl::Days(d),
    ensures
        ttl_expired(f, m, ts, ts + d * day_secs()),
        !ttl_expired(f, m, ts, ts + d * day_secs() - 1),
{
}

} // verus!
