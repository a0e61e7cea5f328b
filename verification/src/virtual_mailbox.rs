//! The in-memory mailbox: one of the two implementations of the client
//! capability, simulating a server's mailbox state without any transport.
//! Labels behave as sets, moves are recorded, and deletion is a two-step
//! mark-and-expunge.

use vstd::prelude::*;
use vstd::string::*;

use crate::message::{clone_pair_vec, clone_string_vec};
use crate::text::str_eq;

verus! {

/// The mathematical value of a [`MailboxMessage`].
pub struct MailboxMessageV {
    pub uid: u32,
    pub seq: u32,
    pub to: Seq<Seq<char>>,
    pub cc: Seq<Seq<char>>,
    pub from: Seq<Seq<char>>,
    pub subject: Seq<char>,
    pub date: Seq<char>,
    pub labels: Seq<Seq<char>>,
    pub flags: Seq<Seq<char>>,
    pub headers: Seq<(Seq<char>, Seq<char>)>,
    pub message_id: Option<Seq<char>>,
    pub in_reply_to: Option<Seq<char>>,
    pub references: Seq<Seq<char>>,
    pub thread_id: Option<Seq<char>>,
    pub deleted: bool,
}

/// The state of one message in the in-memory mailbox.
#[derive(Debug)]
pub struct MailboxMessage {
    pub uid: u32,
    pub seq: u32,
    pub to: Vec<String>,
    pub cc: Vec<String>,
    pub from: Vec<String>,
    pub subject: String,
    pub date: String,
    pub labels: Vec<String>,
    pub flags: Vec<String>,
    pub headers: Vec<(String, String)>,
    pub message_id: Option<String>,
    pub in_reply_to: Option<String>,
    pub references: Vec<String>,
    pub thread_id: Option<String>,
    pub deleted: bool,
}

impl View for MailboxMessage {
    type V = MailboxMessageV;

    open spec fn view(&self) -> MailboxMessageV {
        MailboxMessageV {
            uid: self.uid,
            seq: self.seq,
            to: self.to.deep_view(),
            cc: self.cc.deep_view(),
            from: self.from.deep_view(),
            subject: self.subject@,
            date: self.date@,
            labels: self.labels.deep_view(),
            flags: self.flags.deep_view(),
            headers: self.headers.deep_view(),
            message_id: self.message_id.deep_view(),
            in_reply_to: self.in_reply_to.deep_view(),
            references: self.references.deep_view(),
            thread_id: self.thread_id.deep_view(),
            deleted: self.deleted,
        }
    }
}

impl DeepView for MailboxMessage {
    type V = MailboxMessageV;

    open spec fn deep_view(&self) -> MailboxMessageV {
        self@
    }
}

fn clone_opt_string(v: &Option<String>) -> (r: Option<String>)
    ensures
        r.deep_view() == v.deep_view(),
{
    match v {
        Some(s) => Some(s.clone()),
        None => None,
    }
}

impl Clone for MailboxMessage {
    fn clone(&self) -> (r: MailboxMessage)
        ensures
            r@ == self@,
    {
        MailboxMessage {
            uid: self.uid,
            seq: self.seq,
            to: clone_string_vec(&self.to),
            cc: clone_string_vec(&self.cc),
            from: clone_string_vec(&self.from),
            subject: self.subject.clone(),
            date: self.date.clone(),
            labels: clone_string_vec(&self.labels),
            flags: clone_string_vec(&self.flags),
            headers: clone_pair_vec(&self.headers),
            message_id: clone_opt_string(&self.message_id),
            in_reply_to: clone_opt_string(&self.in_reply_to),
            references: clone_string_vec(&self.references),
            thread_id: clone_opt_string(&self.thread_id),
            deleted: self.deleted,
        }
    }
}

/// Whether a string list holds this string.
pub fn strings_contain(v: &Vec<String>, s: &str) -> (r: bool)
    ensures
        r == v.deep_view().contains(s@),
{
    let n = v.len();
    let mut i: usize = 0;
    while i < n
        invariant
            n == v.len(),
            i <= n,
            forall|t: int| 0 <= t < i ==> #[trigger] v.deep_view()[t] != s@,
        decreases n - i,
    {
        if str_eq(v[i].as_str(), s) {
            assert(v.deep_view()[i as int] == s@);
            return true;
        }
        i += 1;
    }
    false
}

/// Adds the string when absent, keeping set semantics.
fn strings_insert(v: &mut Vec<String>, s: &str)
    ensures
        old(v).deep_view().contains(s@) ==> final(v).deep_view() == old(v).deep_view(),
        !old(v).deep_view().contains(s@) ==> final(v).deep_view() == old(v).deep_view().push(s@),
        final(v).deep_view().contains(s@),
        forall|x: Seq<char>|
            old(v).deep_view().contains(x) ==> final(v).deep_view().contains(x),
{
    if !strings_contain(v, s) {
        let ghost prev = v.deep_view();
        v.push(s.to_owned());
        proof {
            assert(v.deep_view() =~= prev.push(s@));
            assert(v.deep_view()[prev.len() as int] == s@);
            assert forall|x: Seq<char>| prev.contains(x) implies v.deep_view().contains(x) by {
                let w = choose|w: int| 0 <= w < prev.len() && prev[w] == x;
                assert(v.deep_view()[w] == x);
            }
        }
    }
}

/// Removes every occurrence of the string.
fn strings_remove(v: &mut Vec<String>, s: &str)
    ensures
        !final(v).deep_view().contains(s@),
        forall|x: Seq<char>|
            final(v).deep_view().contains(x) ==> old(v).deep_view().contains(x),
        forall|x: Seq<char>|
            old(v).deep_view().contains(x) && x != s@ ==> final(v).deep_view().contains(x),
{
    let ghost oldv = v.deep_view();
    let mut out: Vec<String> = Vec::new();
    let n = v.len();
    let mut i: usize = 0;
    while i < n
        invariant
            n == v@.len(),
            oldv == v.deep_view(),
            oldv.len() == n,
            i <= n,
            !out.deep_view().contains(s@),
            forall|x: Seq<char>| out.deep_view().contains(x) ==> oldv.contains(x),
            forall|t: int|
                0 <= t < i && #[trigger] oldv[t] != s@ ==> out.deep_view().contains(oldv[t]),
        decreases n - i,
    {
        if !str_eq(v[i].as_str(), s) {
            let ghost prev = out.deep_view();
            out.push(v[i].clone());
            proof {
                assert(out.deep_view() =~= prev.push(oldv[i as int]));
                assert forall|x: Seq<char>| out.deep_view().contains(x) implies oldv.contains(
                    x,
                ) by {
                    let w = choose|w: int|
                        0 <= w < out.deep_view().len() && out.deep_view()[w] == x;
                    if w < prev.len() {
                        assert(prev[w] == x);
                    } else {
                        assert(oldv[i as int] == x);
                        assert(oldv.contains(x)) by {
                            assert(oldv[i as int] == x);
                        }
                    }
                }
                assert forall|t: int|
                    0 <= t < i + 1 && #[trigger] oldv[t] != s@ implies out.deep_view().contains(
                    oldv[t],
                ) by {
                    if t < i {
                        let w = choose|w: int| 0 <= w < prev.len() && prev[w] == oldv[t];
                        assert(out.deep_view()[w] == oldv[t]);
                    } else {
                        assert(out.deep_view()[prev.len() as int] == oldv[t]);
                    }
                }
            }
        }
        i += 1;
    }
    proof {
        assert forall|x: Seq<char>|
            oldv.contains(x) && x != s@ implies out.deep_view().contains(x) by {
            let w = choose|w: int| 0 <= w < oldv.len() && oldv[w] == x;
        }
    }
    *v = out;
}

impl MailboxMessage {
    /// A message with the minimal required fields; everything else empty.
    pub fn new(uid: u32, subject: &str, from: &str, to: &str, date: &str) -> (r: MailboxMessage)
        ensures
            r@.uid == uid,
            r@.seq == uid,
            r@.subject == subject@,
            r@.from =~= seq![from@],
            r@.to =~= seq![to@],
            r@.cc.len() == 0,
            r@.date == date@,
            r@.labels.len() == 0,
            r@.flags.len() == 0,
            r@.deleted == false,
            r@.message_id is None,
            r@.in_reply_to is None,
            r@.references.len() == 0,
            r@.thread_id is None,
    {
        let mut to_v: Vec<String> = Vec::new();
        to_v.push(to.to_owned());
        let mut from_v: Vec<String> = Vec::new();
        from_v.push(from.to_owned());
        let r = MailboxMessage {
            uid,
            seq: uid,
            to: to_v,
            cc: Vec::new(),
            from: from_v,
            subject: subject.to_owned(),
            date: date.to_owned(),
            labels: Vec::new(),
            flags: Vec::new(),
            headers: Vec::new(),
            message_id: None,
            in_reply_to: None,
            references: Vec::new(),
            thread_id: None,
            deleted: false,
        };
        proof {
            assert(r@.to =~= seq![to@]);
            assert(r@.from =~= seq![from@]);
        }
        r
    }

    /// Adds the given labels.
    pub fn with_labels(self, labels: &[&str]) -> (r: MailboxMessage) {
        let mut m = self;
        let mut i: usize = 0;
        while i < labels.len()
            decreases labels.len() - i,
        {
            strings_insert(&mut m.labels, labels[i]);
            i += 1;
        }
        m
    }

    /// Sets the Message-ID header used for threading.
    pub fn with_message_id(self, message_id: &str) -> (r: MailboxMessage)
        ensures
            r@.message_id == Some(message_id@),
            r@.uid == self@.uid,
    {
        let mut m = self;
        m.message_id = Some(message_id.to_owned());
        m
    }

    /// Sets the In-Reply-To header used for threading.
    pub fn with_in_reply_to(self, in_reply_to: &str) -> (r: MailboxMessage)
        ensures
            r@.in_reply_to == Some(in_reply_to@),
            r@.uid == self@.uid,
    {
        let mut m = self;
        m.in_reply_to = Some(in_reply_to.to_owned());
        m
    }

    /// Sets the References header used for threading.
    pub fn with_references(self, refs: &[&str]) -> (r: MailboxMessage) {
        let mut m = self;
        let mut out: Vec<String> = Vec::new();
        let mut i: usize = 0;
        while i < refs.len()
            decreases refs.len() - i,
        {
            out.push(refs[i].to_owned());
            i += 1;
        }
        m.references = out;
        m
    }

    /// Sets the provider thread id.
    pub fn with_thread_id(self, thread_id: &str) -> (r: MailboxMessage)
        ensures
            r@.thread_id == Some(thread_id@),
            r@.uid == self@.uid,
    {
        let mut m = self;
        m.thread_id = Some(thread_id.to_owned());
        m
    }

    /// Sets the carbon-copy recipients.
    pub fn with_cc(self, cc: &[&str]) -> (r: MailboxMessage) {
        let mut m = self;
        let mut out: Vec<String> = Vec::new();
        let mut i: usize = 0;
        while i < cc.len()
            decreases cc.len() - i,
        {
            out.push(cc[i].to_owned());
            i += 1;
        }
        m.cc = out;
        m
    }

    /// Adds one header.
    pub fn with_header(self, name: &str, value: &str) -> (r: MailboxMessage) {
        let mut m = self;
        m.headers.push((name.to_owned(), value.to_owned()));
        m
    }
}

/// One recorded move: which message went from which label to which.
#[derive(Debug)]
pub struct MoveRecord {
    pub uid: u32,
    pub from_label: String,
    pub to_label: String,
}

impl Clone for MoveRecord {
    fn clone(&self) -> (r: MoveRecord)
        ensures
            r.uid == self.uid,
            r.from_label@ == self.from_label@,
            r.to_label@ == self.to_label@,
    {
        MoveRecord {
            uid: self.uid,
            from_label: self.from_label.clone(),
            to_label: self.to_label.clone(),
        }
    }
}

impl PartialEq for MoveRecord {
    fn eq(&self, other: &MoveRecord) -> (r: bool) {
        self.uid == other.uid && self.from_label == other.from_label && self.to_label
            == other.to_label
    }
}

impl vstd::std_specs::cmp::PartialEqSpecImpl for MoveRecord {
    open spec fn obeys_eq_spec() -> bool {
        true
    }

    open spec fn eq_spec(&self, other: &MoveRecord) -> bool {
        self.uid == other.uid && self.from_label@ == other.from_label@ && self.to_label@
            == other.to_label@
    }
}

impl Eq for MoveRecord {

}

/// The index of the message carrying this uid, scanning in storage order.
pub open spec fn mb_index_of(ms: Seq<MailboxMessageV>, uid: u32) -> Option<int>
    decreases ms.len(),
{
    if ms.len() == 0 {
        None
    } else if ms[0].uid == uid {
        Some(0)
    } else {
        match mb_index_of(ms.drop_first(), uid) {
            Some(i) => Some(i + 1),
            None => None,
        }
    }
}

/// How many of the messages are not marked deleted.
pub open spec fn live_count(ms: Seq<MailboxMessageV>) -> int
    decreases ms.len(),
{
    if ms.len() == 0 {
        0int
    } else {
        live_count(ms.drop_last()) + if ms.last().deleted {
            0int
        } else {
            1int
        }
    }
}

/// The in-memory mailbox state.
#[derive(Debug)]
pub struct VirtualMailbox {
    messages: Vec<MailboxMessage>,
    next_uid: u32,
    labels: Vec<String>,
    moves: Vec<MoveRecord>,
}

proof fn lemma_mb_index_of_at(ms: Seq<MailboxMessageV>, uid: u32, i: int)
    requires
        0 <= i <= ms.len(),
        forall|t: int| 0 <= t < i ==> (#[trigger] ms[t]).uid != uid,
        i < ms.len() ==> ms[i].uid == uid,
    ensures
        i < ms.len() ==> mb_index_of(ms, uid) == Some(i),
        i == ms.len() ==> mb_index_of(ms, uid) is None,
    decreases i,
{
    if ms.len() == 0 {
    } else if i == 0 {
    } else {
        let d = ms.drop_first();
        assert(forall|t: int| 0 <= t < d.len() ==> #[trigger] d[t] == ms[t + 1]);
        lemma_mb_index_of_at(d, uid, i - 1);
    }
}

impl VirtualMailbox {
    /// An empty mailbox carrying the standard labels.
    pub fn new() -> (r: VirtualMailbox)
        ensures
            r@.len() == 0,
            r.labels_view().contains("INBOX"@),
            r.labels_view().contains("\\Starred"@),
            r.labels_view().contains("\\Important"@),
            r.labels_view().contains("Starred"@),
            r.labels_view().contains("Important"@),
            r.moves_view().len() == 0,
            r.next_uid_spec() == 1,
    {
        let mut labels: Vec<String> = Vec::new();
        strings_insert(&mut labels, "INBOX");
        strings_insert(&mut labels, "\\Starred");
        strings_insert(&mut labels, "\\Important");
        strings_insert(&mut labels, "Starred");
        strings_insert(&mut labels, "Important");
        let r = VirtualMailbox { messages: Vec::new(), next_uid: 1, labels, moves: Vec::new() };
        proof {
            assert(r@ =~= Seq::<MailboxMessageV>::empty());
            assert(r.moves_view() =~= Seq::<MoveRecord>::empty());
        }
        r
    }

    /// The messages, as mathematical values.
    pub closed spec fn view(&self) -> Seq<MailboxMessageV> {
        self.messages.deep_view()
    }

    /// The known labels, as mathematical values.
    pub closed spec fn labels_view(&self) -> Seq<Seq<char>> {
        self.labels.deep_view()
    }

    /// The recorded moves.
    pub closed spec fn moves_view(&self) -> Seq<MoveRecord> {
        self.moves@
    }

    /// The next uid to be assigned.
    pub closed spec fn next_uid_spec(&self) -> u32 {
        self.next_uid
    }

    /// Stores a message, assigning it the next uid (also as its sequence
    /// number), and returns that uid.
    pub fn add_message(&mut self, message: MailboxMessage) -> (uid: u32)
        requires
            old(self).next_uid_spec() < 0xffffffffu32,
        ensures
            uid == old(self).next_uid_spec(),
            final(self).next_uid_spec() == old(self).next_uid_spec() + 1,
            final(self)@.len() == old(self)@.len() + 1,
            final(self)@.last().uid == uid,
            final(self)@.last().subject == message@.subject,
            final(self)@.last().labels == message@.labels,
            final(self)@.last().date == message@.date,
            final(self)@.last().deleted == message@.deleted,
            forall|t: int| 0 <= t < old(self)@.len() ==> #[trigger] final(self)@[t] == old(self)@[t],
            final(self).labels_view() == old(self).labels_view(),
            final(self).moves_view() == old(self).moves_view(),
    {
        let uid = self.next_uid;
        self.next_uid = self.next_uid + 1;
        let mut message = message;
        message.uid = uid;
        message.seq = uid;
        let ghost prev = self.messages.deep_view();
        self.messages.push(message);
        proof {
            assert(self.messages.deep_view() =~= prev.push(self.messages@.last()@));
        }
        uid
    }

    /// The index of the message with this uid, if it is stored.
    fn find_index(&self, uid: u32) -> (r: Option<usize>)
        ensures
            match r {
                Some(i) => mb_index_of(self@, uid) == Some(i as int) && i < self@.len()
                    && self@[i as int].uid == uid,
                None => mb_index_of(self@, uid) is None,
            },
    {
        let n = self.messages.len();
        let mut i: usize = 0;
        while i < n
            invariant
                n == self@.len(),
                i <= n,
                forall|t: int| 0 <= t < i ==> (#[trigger] self@[t]).uid != uid,
            decreases n - i,
        {
            if self.messages[i].uid == uid {
                proof {
                    assert(self@[i as int].uid == uid);
                    lemma_mb_index_of_at(self@, uid, i as int);
                }
                return Some(i);
            }
            i += 1;
        }
        proof {
            lemma_mb_index_of_at(self@, uid, n as int);
        }
        None
    }

    /// The stored message with this uid, if any.
    pub fn get_message(&self, uid: u32) -> (r: Option<&MailboxMessage>)
        ensures
            match r {
                Some(m) => mb_index_of(self@, uid) matches Some(i) && self@[i] == m@,
                None => mb_index_of(self@, uid) is None,
            },
    {
        match self.find_index(uid) {
            Some(i) => Some(&self.messages[i]),
            None => None,
        }
    }

    /// A mutable handle on the stored message with this uid, if any.
    pub fn get_message_mut(&mut self, uid: u32) -> (r: Option<&mut MailboxMessage>) {
        match self.find_index(uid) {
            Some(i) => Some(&mut self.messages[i]),
            None => None,
        }
    }

    /// All messages not marked deleted, in storage order, as copies.
    pub fn get_all_messages(&self) -> (r: Vec<MailboxMessage>)
        ensures
            r@.len() == live_count(self@),
            forall|t: int|
                0 <= t < r.deep_view().len() ==> self@.contains(#[trigger] r.deep_view()[t])
                    && !r.deep_view()[t].deleted,
    {
        let n = self.messages.len();
        let mut out: Vec<MailboxMessage> = Vec::new();
        let mut i: usize = 0;
        while i < n
            invariant
                n == self@.len(),
                i <= n,
                out@.len() == live_count(self@.subrange(0, i as int)),
                forall|t: int|
                    0 <= t < out.deep_view().len() ==> self@.contains(
                        #[trigger] out.deep_view()[t],
                    ) && !out.deep_view()[t].deleted,
            decreases n - i,
        {
            proof {
                let pre2 = self@.subrange(0, i as int + 1);
                assert(pre2.drop_last() =~= self@.subrange(0, i as int));
                assert(pre2.last() == self@[i as int]);
            }
            if !self.messages[i].deleted {
                let ghost prev = out.deep_view();
                out.push(self.messages[i].clone());
                proof {
                    assert(out.deep_view() =~= prev.push(self@[i as int]));
                    assert(self@.contains(self@[i as int])) by {
                        assert(self@[i as int] == self@[i as int]);
                    }
                }
            }
            i += 1;
        }
        proof {
            assert(self@.subrange(0, n as int) =~= self@);
        }
        out
    }

    /// The messages not marked deleted that carry this label, as copies.
    pub fn get_messages_with_label(&self, label: &str) -> (r: Vec<MailboxMessage>)
        ensures
            forall|t: int|
                0 <= t < r.deep_view().len() ==> self@.contains(#[trigger] r.deep_view()[t])
                    && !r.deep_view()[t].deleted && r.deep_view()[t].labels.contains(label@),
            forall|t: int|
                0 <= t < self@.len() && !(#[trigger] self@[t]).deleted && self@[t].labels.contains(
                    label@,
                ) ==> r.deep_view().contains(self@[t]),
    {
        let n = self.messages.len();
        let mut out: Vec<MailboxMessage> = Vec::new();
        let mut i: usize = 0;
        while i < n
            invariant
                n == self@.len(),
                i <= n,
                forall|t: int|
                    0 <= t < out.deep_view().len() ==> self@.contains(
                        #[trigger] out.deep_view()[t],
                    ) && !out.deep_view()[t].deleted && out.deep_view()[t].labels.contains(label@),
                forall|t: int|
                    0 <= t < i && !(#[trigger] self@[t]).deleted && self@[t].labels.contains(
                        label@,
                    ) ==> out.deep_view().contains(self@[t]),
            decreases n - i,
        {
            if !self.messages[i].deleted && strings_contain(&self.messages[i].labels, label) {
                let ghost prev = out.deep_view();
                out.push(self.messages[i].clone());
                proof {
                    assert(out.deep_view() =~= prev.push(self@[i as int]));
                    assert(self@.contains(self@[i as int])) by {
                        assert(self@[i as int] == self@[i as int]);
                    }
                    assert forall|t: int|
                        0 <= t < i + 1 && !(#[trigger] self@[t]).deleted
                            && self@[t].labels.contains(label@) implies out.deep_view().contains(
                        self@[t],
                    ) by {
                        if t < i {
                            let w = choose|w: int| 0 <= w < prev.len() && prev[w] == self@[t];
                            assert(out.deep_view()[w] == self@[t]);
                        } else {
                            assert(out.deep_view()[prev.len() as int] == self@[t]);
                        }
                    }
                }
            }
            i += 1;
        }
        out
    }

    /// Adds a label to the message with this uid; an already-present label
    /// leaves the message unchanged. False when no such message is stored.
    pub fn add_label(&mut self, uid: u32, label: &str) -> (r: bool)
        ensures
            r == (mb_index_of(old(self)@, uid) is Some),
            mb_index_of(old(self)@, uid) matches Some(i) ==> {
                &&& final(self)@.len() == old(self)@.len()
                &&& (forall|t: int|
                    0 <= t < old(self)@.len() && t != i ==> #[trigger] final(self)@[t] == old(self)@[t])
                &&& final(self)@[i].uid == old(self)@[i].uid
                &&& final(self)@[i].deleted == old(self)@[i].deleted
                &&& final(self)@[i].labels.contains(label@)
                &&& (old(self)@[i].labels.contains(label@) ==> final(self)@[i] == old(self)@[i])
                &&& (!old(self)@[i].labels.contains(label@) ==> final(self)@[i].labels == old(self)@[i].labels.push(label@))
            },
            mb_index_of(old(self)@, uid) is None ==> final(self)@ == old(self)@,
            final(self).labels_view() == old(self).labels_view(),
            final(self).moves_view() == old(self).moves_view(),
            final(self).next_uid_spec() == old(self).next_uid_spec(),
    {
        let idx = self.find_index(uid);
        match idx {
            Some(i) => {
                let ghost prev = self.messages.deep_view();
                let mut m = self.messages[i].clone();
                strings_insert(&mut m.labels, label);
                self.messages.set(i, m);
                proof {
                    assert(forall|t: int|
                        0 <= t < prev.len() && t != i ==> #[trigger] self.messages.deep_view()[t]
                            == prev[t]);
                    if prev[i as int].labels.contains(label@) {
                        assert(self.messages.deep_view()[i as int] == prev[i as int]);
                    }
                }
                true
            },
            None => {
                false
            },
        }
    }

    /// Removes a label from the message with this uid. False when no such
    /// message is stored.
    pub fn remove_label(&mut self, uid: u32, label: &str) -> (r: bool)
        ensures
            r == (mb_index_of(old(self)@, uid) is Some),
            mb_index_of(old(self)@, uid) matches Some(i) ==> {
                &&& final(self)@.len() == old(self)@.len()
                &&& (forall|t: int|
                    0 <= t < old(self)@.len() && t != i ==> #[trigger] final(self)@[t] == old(self)@[t])
                &&& final(self)@[i].uid == old(self)@[i].uid
                &&& !final(self)@[i].labels.contains(label@)
                &&& (forall|x: Seq<char>|
                    old(self)@[i].labels.contains(x) && x != label@ ==> final(self)@[i].labels.contains(x))
            },
            mb_index_of(old(self)@, uid) is None ==> final(self)@ == old(self)@,
    {
        let idx = self.find_index(uid);
        match idx {
            Some(i) => {
                let ghost prev = self.messages.deep_view();
                let mut m = self.messages[i].clone();
                strings_remove(&mut m.labels, label);
                self.messages.set(i, m);
                proof {
                    assert(forall|t: int|
                        0 <= t < prev.len() && t != i ==> #[trigger] self.messages.deep_view()[t]
                            == prev[t]);
                }
                true
            },
            None => {
                false
            },
        }
    }

    /// Moves a message between labels: the source label is removed, the
    /// destination label added and created if missing, and the move is
    /// recorded. False when no such message is stored.
    pub fn move_message(&mut self, uid: u32, from: &str, to: &str) -> (r: bool)
        ensures
            r == (mb_index_of(old(self)@, uid) is Some),
            mb_index_of(old(self)@, uid) matches Some(i) ==> {
                &&& final(self)@.len() == old(self)@.len()
                &&& (forall|t: int|
                    0 <= t < old(self)@.len() && t != i ==> #[trigger] final(self)@[t] == old(self)@[t])
                &&& final(self)@[i].uid == old(self)@[i].uid
                &&& !final(self)@[i].labels.contains(from@) || from@ == to@
                &&& final(self)@[i].labels.contains(to@)
                &&& final(self).moves_view().len() == old(self).moves_view().len() + 1
                &&& final(self).moves_view().last().uid == uid
                &&& final(self).moves_view().last().from_label@ == from@
                &&& final(self).moves_view().last().to_label@ == to@
                &&& final(self).labels_view().contains(to@)
            },
            mb_index_of(old(self)@, uid) is None ==> final(self)@ == old(self)@
                && final(self).moves_view() == old(self).moves_view(),
            forall|t: int|
                0 <= t < old(self).moves_view().len() ==> #[trigger] final(self).moves_view()[t]
                    == old(self).moves_view()[t],
    {
        let idx = self.find_index(uid);
        match idx {
            Some(i) => {
                let ghost prev = self.messages.deep_view();
                let mut m = self.messages[i].clone();
                strings_remove(&mut m.labels, from);
                strings_insert(&mut m.labels, to);
                self.messages.set(i, m);
                let ghost prev_moves = self.moves@;
                self.moves.push(
                    MoveRecord { uid, from_label: from.to_owned(), to_label: to.to_owned() },
                );
                strings_insert(&mut self.labels, to);
                proof {
                    assert(forall|t: int|
                        0 <= t < prev.len() && t != i ==> #[trigger] self.messages.deep_view()[t]
                            == prev[t]);
                    assert(self.moves@.last().uid == uid);
                }
                true
            },
            None => {
                false
            },
        }
    }

    /// Marks a message deleted and gives it the deleted flag. False when no
    /// such message is stored.
    pub fn delete_message(&mut self, uid: u32) -> (r: bool)
        ensures
            r == (mb_index_of(old(self)@, uid) is Some),
            mb_index_of(old(self)@, uid) matches Some(i) ==> {
                &&& final(self)@.len() == old(self)@.len()
                &&& (forall|t: int|
                    0 <= t < old(self)@.len() && t != i ==> #[trigger] final(self)@[t] == old(self)@[t])
                &&& final(self)@[i].uid == old(self)@[i].uid
                &&& final(self)@[i].deleted
                &&& final(self)@[i].flags.contains("\\Deleted"@)
            },
            mb_index_of(old(self)@, uid) is None ==> final(self)@ == old(self)@,
    {
        let idx = self.find_index(uid);
        match idx {
            Some(i) => {
                let ghost prev = self.messages.deep_view();
                let mut m = self.messages[i].clone();
                m.deleted = true;
                strings_insert(&mut m.flags, "\\Deleted");
                self.messages.set(i, m);
                proof {
                    assert(forall|t: int|
                        0 <= t < prev.len() && t != i ==> #[trigger] self.messages.deep_view()[t]
                            == prev[t]);
                }
                true
            },
            None => {
                false
            },
        }
    }

    /// Removes every deleted message for good and returns their uids, in
    /// storage order.
    pub fn expunge(&mut self) -> (r: Vec<u32>)
        ensures
            forall|t: int| 0 <= t < final(self)@.len() ==> !(#[trigger] final(self)@[t]).deleted,
            forall|t: int|
                0 <= t < final(self)@.len() ==> old(self)@.contains(#[trigger] final(self)@[t]),
            forall|t: int|
                0 <= t < old(self)@.len() && !(#[trigger] old(self)@[t]).deleted ==> final(self)@.contains(old(self)@[t]),
            forall|t: int|
                0 <= t < old(self)@.len() && (#[trigger] old(self)@[t]).deleted ==> r@.contains(
                    old(self)@[t].uid,
                ),
    {
        let ghost oldv = self.messages.deep_view();
        let mut kept: Vec<MailboxMessage> = Vec::new();
        let mut gone: Vec<u32> = Vec::new();
        let n = self.messages.len();
        let mut i: usize = 0;
        while i < n
            invariant
                n == self.messages@.len(),
                oldv == self.messages.deep_view(),
                oldv.len() == n,
                i <= n,
                forall|t: int|
                    0 <= t < kept.deep_view().len() ==> !(#[trigger] kept.deep_view()[t]).deleted
                        && oldv.contains(kept.deep_view()[t]),
                forall|t: int|
                    0 <= t < i && !(#[trigger] oldv[t]).deleted ==> kept.deep_view().contains(
                        oldv[t],
                    ),
                forall|t: int|
                    0 <= t < i && (#[trigger] oldv[t]).deleted ==> gone@.contains(oldv[t].uid),
            decreases n - i,
        {
            if self.messages[i].deleted {
                let ghost prevg = gone@;
                gone.push(self.messages[i].uid);
                proof {
                    assert(gone@ =~= prevg.push(oldv[i as int].uid));
                    assert forall|t: int|
                        0 <= t < i + 1 && (#[trigger] oldv[t]).deleted implies gone@.contains(
                        oldv[t].uid,
                    ) by {
                        if t < i {
                            let w = choose|w: int| 0 <= w < prevg.len() && prevg[w] == oldv[t].uid;
                            assert(gone@[w] == oldv[t].uid);
                        } else {
                            assert(gone@[prevg.len() as int] == oldv[t].uid);
                        }
                    }
                }
            } else {
                let ghost prevk = kept.deep_view();
                kept.push(self.messages[i].clone());
                proof {
                    assert(kept.deep_view() =~= prevk.push(oldv[i as int]));
                    assert(oldv.contains(oldv[i as int])) by {
                        assert(oldv[i as int] == oldv[i as int]);
                    }
                    assert forall|t: int|
                        0 <= t < i + 1 && !(#[trigger] oldv[t]).deleted implies kept.deep_view()
                        .contains(oldv[t]) by {
                        if t < i {
                            let w = choose|w: int| 0 <= w < prevk.len() && prevk[w] == oldv[t];
                            assert(kept.deep_view()[w] == oldv[t]);
                        } else {
                            assert(kept.deep_view()[prevk.len() as int] == oldv[t]);
                        }
                    }
                }
            }
            i += 1;
        }
        self.messages = kept;
        gone
    }

    /// The move history, oldest first.
    pub fn get_move_history(&self) -> (r: &Vec<MoveRecord>)
        ensures
            r@ == self.moves_view(),
    {
        &self.moves
    }

    /// Whether this label or folder is known.
    pub fn label_exists(&self, label: &str) -> (r: bool)
        ensures
            r == self.labels_view().contains(label@),
    {
        strings_contain(&self.labels, label)
    }

    /// Makes the label known.
    pub fn create_label(&mut self, label: &str)
        ensures
            final(self).labels_view().contains(label@),
            final(self)@ == old(self)@,
            final(self).moves_view() == old(self).moves_view(),
    {
        strings_insert(&mut self.labels, label);
    }

    /// How many messages are stored and not marked deleted.
    pub fn message_count(&self) -> (r: usize)
        ensures
            r == live_count(self@),
    {
        let n = self.messages.len();
        let mut count: usize = 0;
        let mut i: usize = 0;
        while i < n
            invariant
                n == self@.len(),
                i <= n,
                count == live_count(self@.subrange(0, i as int)),
                count <= i,
            decreases n - i,
        {
            proof {
                let pre2 = self@.subrange(0, i as int + 1);
                assert(pre2.drop_last() =~= self@.subrange(0, i as int));
                assert(pre2.last() == self@[i as int]);
            }
            if !self.messages[i].deleted {
                count = count + 1;
            }
            i += 1;
        }
        proof {
            assert(self@.subrange(0, n as int) =~= self@);
        }
        count
    }

    /// Forgets the move history.
    pub fn clear_move_history(&mut self)
        ensures
            final(self).moves_view().len() == 0,
            final(self)@ == old(self)@,
    {
        self.moves.clear();
    }
}

impl Default for VirtualMailbox {
    fn default() -> (r: VirtualMailbox)
        ensures
            r@.len() == 0,
    {
        VirtualMailbox::new()
    }
}

} // verus!
