//! The content filter engine: a `MessageFilter` is a conjunction of
//! address, subject, label and header clauses, each backed by glob
//! patterns; a message matches when every configured clause holds.

use vstd::prelude::*;
use vstd::string::*;

use crate::label::{Label, LabelV};
use crate::message::{assoc_last, EmailAddress, EmailAddressV, Message, MessageV};
use crate::text::str_eq;

verus! {

/// Whether `globset` accepts this pattern.
pub uninterp spec fn glob_valid(pat: Seq<char>) -> bool;

/// Whether the compiled pattern matches the text; defined only where the
/// pattern is valid.
pub uninterp spec fn glob_match(pat: Seq<char>, text: Seq<char>) -> bool;

/// Relies on globset::Glob::new: it returns Ok exactly for well-formed glob
/// syntax, depending on the pattern alone.
#[verifier::external_body]
fn glob_check(pat: &str) -> (r: bool)
    ensures
        r == glob_valid(pat@),
{
    globset::Glob::new(pat).is_ok()
}

/// Relies on globset::Glob::new and GlobMatcher::is_match: for a valid
/// pattern the match outcome depends on pattern and text alone.
#[verifier::external_body]
fn glob_is_match(pat: &str, text: &str) -> (r: bool)
    requires
        glob_valid(pat@),
    ensures
        r == glob_match(pat@, text@),
{
    match globset::Glob::new(pat) {
        Ok(g) => g.compile_matcher().is_match(text),
        Err(_) => false,
    }
}

/// Every pattern of the list is a valid glob.
pub open spec fn patterns_wf(ps: Seq<Seq<char>>) -> bool {
    forall|i: int| 0 <= i < ps.len() ==> glob_valid(#[trigger] ps[i])
}

/// Some pattern matches some text.
pub open spec fn any_glob_match(ps: Seq<Seq<char>>, texts: Seq<Seq<char>>) -> bool {
    exists|i: int, j: int|
        0 <= i < ps.len() && 0 <= j < texts.len() && glob_match(#[trigger] ps[i], #[trigger] texts[j])
}

/// Checks that every pattern of the list is a valid glob.
fn all_patterns_valid(ps: &Vec<String>) -> (r: bool)
    ensures
        r == patterns_wf(ps.deep_view()),
{
    let n = ps.len();
    let mut i: usize = 0;
    while i < n
        invariant
            n == ps.len(),
            i <= n,
            forall|t: int| 0 <= t < i ==> glob_valid(#[trigger] ps.deep_view()[t]),
        decreases n - i,
    {
        if !glob_check(ps[i].as_str()) {
            assert(!glob_valid(ps.deep_view()[i as int]));
            return false;
        }
        i += 1;
    }
    true
}

/// An ordered list of glob patterns over addresses.
#[derive(Debug)]
pub struct AddressFilter {
    pub patterns: Vec<String>,
}

impl View for AddressFilter {
    type V = Seq<Seq<char>>;

    open spec fn view(&self) -> Seq<Seq<char>> {
        self.patterns.deep_view()
    }
}

impl Clone for AddressFilter {
    fn clone(&self) -> (r: AddressFilter)
        ensures
            r@ == self@,
    {
        AddressFilter { patterns: crate::message::clone_string_vec(&self.patterns) }
    }
}

impl AddressFilter {
    /// Whether any of the emails matches any pattern of the list.
    pub fn matches(&self, emails: &Vec<String>) -> (r: bool)
        requires
            patterns_wf(self@),
        ensures
            r == any_glob_match(self@, emails.deep_view()),
    {
        let n = self.patterns.len();
        let m = emails.len();
        let mut i: usize = 0;
        while i < n
            invariant
                n == self.patterns.len(),
                m == emails.len(),
                patterns_wf(self@),
                i <= n,
                forall|t: int, j: int|
                    0 <= t < i && 0 <= j < emails.deep_view().len() ==> !glob_match(
                        #[trigger] self@[t],
                        #[trigger] emails.deep_view()[j],
                    ),
            decreases n - i,
        {
            let mut j: usize = 0;
            while j < m
                invariant
                    n == self.patterns.len(),
                    m == emails.len(),
                    patterns_wf(self@),
                    i < n,
                    j <= m,
                    forall|t: int, j2: int|
                        0 <= t < i && 0 <= j2 < emails.deep_view().len() ==> !glob_match(
                            #[trigger] self@[t],
                            #[trigger] emails.deep_view()[j2],
                        ),
                    forall|j2: int|
                        0 <= j2 < j ==> !glob_match(
                            self@[i as int],
                            #[trigger] emails.deep_view()[j2],
                        ),
                decreases m - j,
            {
                proof {
                    assert(glob_valid(#[trigger] self@[i as int]));
                    assert(self.patterns[i as int]@ == self@[i as int]);
                    assert(emails[j as int]@ == emails.deep_view()[j as int]);
                }
                if glob_is_match(self.patterns[i].as_str(), emails[j].as_str()) {
                    assert(glob_match(self@[i as int], emails.deep_view()[j as int]));
                    return true;
                }
                j += 1;
            }
            i += 1;
        }
        false
    }
}

/// The action a matched content filter applies.
#[derive(Debug)]
pub enum FilterAction {
    Star,
    Flag,
    Move(String),
}

/// The mathematical value of a [`FilterAction`].
pub enum FilterActionV {
    Star,
    Flag,
    Move(Seq<char>),
}

impl View for FilterAction {
    type V = FilterActionV;

    open spec fn view(&self) -> FilterActionV {
        match self {
            FilterAction::Star => FilterActionV::Star,
            FilterAction::Flag => FilterActionV::Flag,
            FilterAction::Move(l) => FilterActionV::Move(l@),
        }
    }
}

impl DeepView for FilterAction {
    type V = FilterActionV;

    open spec fn deep_view(&self) -> FilterActionV {
        self@
    }
}

impl Clone for FilterAction {
    fn clone(&self) -> (r: FilterAction)
        ensures
            r@ == self@,
    {
        match self {
            FilterAction::Star => FilterAction::Star,
            FilterAction::Flag => FilterAction::Flag,
            FilterAction::Move(l) => FilterAction::Move(l.clone()),
        }
    }
}

impl PartialEq for FilterAction {
    fn eq(&self, other: &FilterAction) -> (r: bool) {
        match (self, other) {
            (FilterAction::Star, FilterAction::Star) => true,
            (FilterAction::Flag, FilterAction::Flag) => true,
            (FilterAction::Move(a), FilterAction::Move(b)) => *a == *b,
            _ => false,
        }
    }
}

impl vstd::std_specs::cmp::PartialEqSpecImpl for FilterAction {
    open spec fn obeys_eq_spec() -> bool {
        true
    }

    open spec fn eq_spec(&self, other: &FilterAction) -> bool {
        self@ == other@
    }
}

impl Eq for FilterAction {

}

/// The label clauses of a content filter: labels the message must carry one
/// of, and labels it must carry none of.
#[derive(Debug)]
pub struct LabelsFilter {
    pub included: Vec<Label>,
    pub excluded: Vec<Label>,
}

/// The mathematical value of a [`LabelsFilter`].
pub struct LabelsFilterV {
    pub included: Seq<LabelV>,
    pub excluded: Seq<LabelV>,
}

impl View for LabelsFilter {
    type V = LabelsFilterV;

    open spec fn view(&self) -> LabelsFilterV {
        LabelsFilterV { included: self.included.deep_view(), excluded: self.excluded.deep_view() }
    }
}

impl Clone for LabelsFilter {
    fn clone(&self) -> (r: LabelsFilter)
        ensures
            r@ == self@,
    {
        LabelsFilter {
            included: crate::message::clone_label_vec(&self.included),
            excluded: crate::message::clone_label_vec(&self.excluded),
        }
    }
}

impl LabelsFilter {
    /// A filter without label clauses, constraining nothing.
    pub fn empty() -> (r: LabelsFilter)
        ensures
            r@.included.len() == 0,
            r@.excluded.len() == 0,
    {
        let r = LabelsFilter { included: Vec::new(), excluded: Vec::new() };
        proof {
            assert(r@.included =~= Seq::<LabelV>::empty());
            assert(r@.excluded =~= Seq::<LabelV>::empty());
        }
        r
    }
}

impl Default for LabelsFilter {
    fn default() -> (r: LabelsFilter)
        ensures
            r@.included.len() == 0,
            r@.excluded.len() == 0,
    {
        LabelsFilter::empty()
    }
}

/// Whether the list holds this label value.
pub fn vec_contains_label(v: &Vec<Label>, l: &Label) -> (r: bool)
    ensures
        r == v.deep_view().contains(l@),
{
    let n = v.len();
    let mut i: usize = 0;
    while i < n
        invariant
            n == v.len(),
            i <= n,
            forall|t: int| 0 <= t < i ==> #[trigger] v.deep_view()[t] != l@,
        decreases n - i,
    {
        if v[i] == *l {
            assert(v.deep_view()[i as int] == l@);
            return true;
        }
        i += 1;
    }
    false
}

/// Some label of the message lies in `set`.
pub open spec fn labels_meet(msg_labels: Seq<LabelV>, set: Seq<LabelV>) -> bool {
    exists|i: int| 0 <= i < msg_labels.len() && set.contains(#[trigger] msg_labels[i])
}

/// Whether some label of `msg_labels` lies in `set`.
fn labels_meet_x(msg_labels: &Vec<Label>, set: &Vec<Label>) -> (r: bool)
    ensures
        r == labels_meet(msg_labels.deep_view(), set.deep_view()),
{
    let n = msg_labels.len();
    let mut i: usize = 0;
    while i < n
        invariant
            n == msg_labels.len(),
            i <= n,
            forall|t: int|
                0 <= t < i ==> !set.deep_view().contains(#[trigger] msg_labels.deep_view()[t]),
        decreases n - i,
    {
        if vec_contains_label(set, &msg_labels[i]) {
            assert(set.deep_view().contains(msg_labels.deep_view()[i as int]));
            return true;
        }
        i += 1;
    }
    false
}

/// A named content filter: optional address clauses for to, cc and from,
/// subject patterns, label clauses, header clauses, and the actions applied
/// on a match.
#[derive(Debug)]
pub struct MessageFilter {
    pub name: String,
    pub to: Option<AddressFilter>,
    pub cc: Option<AddressFilter>,
    pub from: Option<AddressFilter>,
    pub subject: Vec<String>,
    pub labels: LabelsFilter,
    pub headers: Vec<(String, Vec<String>)>,
    pub actions: Vec<FilterAction>,
}

/// The mathematical value of a [`MessageFilter`].
pub struct MessageFilterV {
    pub name: Seq<char>,
    pub to: Option<Seq<Seq<char>>>,
    pub cc: Option<Seq<Seq<char>>>,
    pub from: Option<Seq<Seq<char>>>,
    pub subject: Seq<Seq<char>>,
    pub labels: LabelsFilterV,
    pub headers: Seq<(Seq<char>, Seq<Seq<char>>)>,
    pub actions: Seq<FilterActionV>,
}

impl View for MessageFilter {
    type V = MessageFilterV;

    open spec fn view(&self) -> MessageFilterV {
        MessageFilterV {
            name: self.name@,
            to: match self.to {
                Some(ref af) => Some(af@),
                None => None,
            },
            cc: match self.cc {
                Some(ref af) => Some(af@),
                None => None,
            },
            from: match self.from {
                Some(ref af) => Some(af@),
                None => None,
            },
            subject: self.subject.deep_view(),
            labels: self.labels@,
            headers: self.headers.deep_view(),
            actions: self.actions.deep_view(),
        }
    }
}

impl DeepView for MessageFilter {
    type V = MessageFilterV;

    open spec fn deep_view(&self) -> MessageFilterV {
        self@
    }
}

/// The bare email addresses of an address list.
pub open spec fn emails_of(addrs: Seq<EmailAddressV>) -> Seq<Seq<char>> {
    addrs.map_values(|a: EmailAddressV| a.email)
}

/// One address clause: an empty pattern list demands that the field hold no
/// addresses; a non-empty list demands that some address match some
/// pattern.
pub open spec fn address_clause(af: Seq<Seq<char>>, emails: Seq<Seq<char>>) -> bool {
    if af.len() == 0 {
        emails.len() == 0
    } else {
        any_glob_match(af, emails)
    }
}

/// Whether every configured clause of the filter holds of the message; the
/// absence of a clause constrains nothing.
pub open spec fn message_filter_matches(f: MessageFilterV, m: MessageV) -> bool {
    &&& match f.to {
        Some(af) => address_clause(af, emails_of(m.to)),
        None => true,
    }
    &&& match f.cc {
        Some(af) => address_clause(af, emails_of(m.cc)),
        None => true,
    }
    &&& match f.from {
        Some(af) => address_clause(af, emails_of(m.from)),
        None => true,
    }
    &&& (f.subject.len() > 0 ==> any_glob_match(f.subject, seq![m.subject]))
    &&& (f.labels.included.len() > 0 ==> labels_meet(m.labels, f.labels.included))
    &&& (f.labels.excluded.len() > 0 ==> !labels_meet(m.labels, f.labels.excluded))
    &&& forall|h: int|
        0 <= h < f.headers.len() ==> match assoc_last(m.headers, (#[trigger] f.headers[h]).0) {
            Some(v) => any_glob_match(f.headers[h].1, seq![v]),
            None => false,
        }
}

/// All glob patterns the filter is configured with are valid.
pub open spec fn message_filter_wf(f: MessageFilterV) -> bool {
    &&& match f.to {
        Some(af) => patterns_wf(af),
        None => true,
    }
    &&& match f.cc {
        Some(af) => patterns_wf(af),
        None => true,
    }
    &&& match f.from {
        Some(af) => patterns_wf(af),
        None => true,
    }
    &&& patterns_wf(f.subject)
    &&& forall|h: int| 0 <= h < f.headers.len() ==> patterns_wf((#[trigger] f.headers[h]).1)
}

/// The bare email strings of an address list.
fn extract_emails(addrs: &Vec<EmailAddress>) -> (r: Vec<String>)
    ensures
        r.deep_view() == emails_of(addrs.deep_view()),
{
    let mut out: Vec<String> = Vec::new();
    let mut i: usize = 0;
    while i < addrs.len()
        invariant
            i <= addrs.len(),
            out.deep_view() =~= emails_of(addrs.deep_view().subrange(0, i as int)),
        decreases addrs.len() - i,
    {
        let ghost prev = out.deep_view();
        out.push(addrs[i].email.clone());
        proof {
            assert(out.deep_view() =~= prev.push(addrs.deep_view()[i as int].email));
            assert(emails_of(addrs.deep_view().subrange(0, i as int + 1)) =~= prev.push(
                addrs.deep_view()[i as int].email,
            ));
        }
        i += 1;
    }
    proof {
        assert(addrs.deep_view().subrange(0, addrs.len() as int) =~= addrs.deep_view());
    }
    out
}

/// One optional address clause of the filter, applied to one address field.
fn address_clause_holds(af: &Option<AddressFilter>, addrs: &Vec<EmailAddress>) -> (r: bool)
    requires
        match af {
            Some(f) => patterns_wf(f@),
            None => true,
        },
    ensures
        r == match af {
            Some(f) => address_clause(f@, emails_of(addrs.deep_view())),
            None => true,
        },
{
    match af {
        Some(f) => {
            let emails = extract_emails(addrs);
            if f.patterns.len() == 0 {
                proof {
                    assert(emails.deep_view().len() == emails@.len());
                }
                emails.len() == 0
            } else {
                f.matches(&emails)
            }
        },
        None => true,
    }
}

impl MessageFilter {
    /// Whether this filter matches the message: every configured clause
    /// must hold. Demands that the configured patterns are valid globs;
    /// [`MessageFilter::matches_checked`] establishes that first.
    pub fn matches(&self, msg: &Message) -> (r: bool)
        requires
            message_filter_wf(self@),
        ensures
            r == message_filter_matches(self@, msg@),
    {
        if !address_clause_holds(&self.to, &msg.to) {
            return false;
        }
        if !address_clause_holds(&self.cc, &msg.cc) {
            return false;
        }
        if !address_clause_holds(&self.from, &msg.from) {
            return false;
        }
        // subject: some configured pattern must match
        if self.subject.len() > 0 {
            let mut found = false;
            let n = self.subject.len();
            let mut i: usize = 0;
            while i < n
                invariant
                    n == self.subject.len(),
                    patterns_wf(self@.subject),
                    i <= n,
                    found ==> any_glob_match(self@.subject, seq![msg@.subject]),
                    !found ==> forall|t: int|
                        0 <= t < i ==> !glob_match(#[trigger] self@.subject[t], msg@.subject),
                decreases n - i,
            {
                proof {
                    assert(glob_valid(#[trigger] self@.subject[i as int]));
                    assert(self.subject[i as int]@ == self@.subject[i as int]);
                }
                if glob_is_match(self.subject[i].as_str(), msg.subject.as_str()) {
                    proof {
                        assert(glob_match(self@.subject[i as int], seq![msg@.subject][0]));
                    }
                    found = true;
                    i = n;
                } else {
                    i += 1;
                }
            }
            if !found {
                proof {
                    assert forall|t: int, j: int|
                        0 <= t < self@.subject.len() && 0 <= j < seq![msg@.subject].len()
                            implies !glob_match(
                        #[trigger] self@.subject[t],
                        #[trigger] seq![msg@.subject][j],
                    ) by {
                        assert(seq![msg@.subject][j] == msg@.subject);
                    }
                }
                return false;
            }
        }
        // labels: one of included must appear, none of excluded may
        if self.labels.included.len() > 0 && !labels_meet_x(&msg.labels, &self.labels.included) {
            proof {
                assert(self@.labels.included.len() == self.labels.included@.len());
            }
            return false;
        }
        if self.labels.excluded.len() > 0 && labels_meet_x(&msg.labels, &self.labels.excluded) {
            proof {
                assert(self@.labels.excluded.len() == self.labels.excluded@.len());
            }
            return false;
        }
        // headers: each configured header must be present and match
        let hn = self.headers.len();
        let mut h: usize = 0;
        while h < hn
            invariant
                hn == self.headers.len(),
                message_filter_wf(self@),
                h <= hn,
                forall|t: int|
                    0 <= t < h ==> match assoc_last(msg@.headers, (#[trigger] self@.headers[t]).0) {
                        Some(v) => any_glob_match(self@.headers[t].1, seq![v]),
                        None => false,
                    },
        decreases hn - h,
        {
            let value = match msg.header_get(self.headers[h].0.as_str()) {
                Some(v) => v,
                None => {
                    proof {
                        assert(self.headers[h as int].0@ == self@.headers[h as int].0);
                    }
                    return false;
                },
            };
            let pats = &self.headers[h].1;
            let pn = pats.len();
            let mut p: usize = 0;
            let mut matched = false;
            proof {
                assert(self@.headers[h as int].1 == pats.deep_view());
                assert(patterns_wf(pats.deep_view()));
            }
            while p < pn
                invariant
                    pn == pats.len(),
                    patterns_wf(pats.deep_view()),
                    p <= pn,
                    matched ==> any_glob_match(pats.deep_view(), seq![value@]),
                    !matched ==> forall|t: int|
                        0 <= t < p ==> !glob_match(#[trigger] pats.deep_view()[t], value@),
                decreases pn - p,
            {
                proof {
                    assert(glob_valid(#[trigger] pats.deep_view()[p as int]));
                    assert(pats[p as int]@ == pats.deep_view()[p as int]);
                }
                if glob_is_match(pats[p].as_str(), value.as_str()) {
                    proof {
                        assert(glob_match(pats.deep_view()[p as int], seq![value@][0]));
                    }
                    matched = true;
                    p = pn;
                } else {
                    p += 1;
                }
            }
            if !matched {
                proof {
                    assert forall|t: int, j: int|
                        0 <= t < pats.deep_view().len() && 0 <= j < seq![value@].len()
                            implies !glob_match(
                        #[trigger] pats.deep_view()[t],
                        #[trigger] seq![value@][j],
                    ) by {
                        assert(seq![value@][j] == value@);
                    }
                }
                return false;
            }
            h += 1;
        }
        true
    }

    /// Whether every configured glob pattern of this filter is valid.
    pub fn patterns_valid(&self) -> (r: bool)
        ensures
            r == message_filter_wf(self@),
    {
        let to_ok = match &self.to {
            Some(f) => all_patterns_valid(&f.patterns),
            None => true,
        };
        let cc_ok = match &self.cc {
            Some(f) => all_patterns_valid(&f.patterns),
            None => true,
        };
        let from_ok = match &self.from {
            Some(f) => all_patterns_valid(&f.patterns),
            None => true,
        };
        let subject_ok = all_patterns_valid(&self.subject);
        let hn = self.headers.len();
        let mut headers_ok = true;
        let mut h: usize = 0;
        while h < hn
            invariant
                hn == self.headers.len(),
                h <= hn,
                headers_ok == forall|t: int|
                    0 <= t < h ==> patterns_wf((#[trigger] self@.headers[t]).1),
            decreases hn - h,
        {
            if !all_patterns_valid(&self.headers[h].1) {
                proof {
                    assert(self@.headers[h as int].1 == self.headers[h as int].1.deep_view());
                    assert(!patterns_wf(self@.headers[h as int].1));
                }
                headers_ok = false;
                h = hn;
            } else {
                h += 1;
            }
        }
        to_ok && cc_ok && from_ok && subject_ok && headers_ok
    }

    /// Validates every configured glob pattern and then evaluates the
    /// filter: `None` when some pattern is not a valid glob, otherwise the
    /// match outcome.
    pub fn matches_checked(&self, msg: &Message) -> (r: Option<bool>)
        ensures
            r is Some <==> message_filter_wf(self@),
            r matches Some(b) ==> b == message_filter_matches(self@, msg@),
    {
        if self.patterns_valid() {
            Some(self.matches(msg))
        } else {
            None
        }
    }
}

} // verus!
