//! Label normalization: raw label and flag strings from the server or the
//! configuration are folded into a closed set of well-known categories, with
//! a custom fallback that keeps the original text.

use vstd::prelude::*;

verus! {

/// The mathematical value of a [`Label`]: the same variants, with the custom
/// text as a sequence of characters.
pub enum LabelV {
    Inbox,
    Important,
    Starred,
    Sent,
    Draft,
    Trash,
    Spam,
    Custom(Seq<char>),
}

/// A normalized mailbox label. `Custom` holds the backslash-stripped (but not
/// case-folded) original text of anything that is not a well-known name.
#[derive(Debug)]
pub enum Label {
    Inbox,
    Important,
    Starred,
    Sent,
    Draft,
    Trash,
    Spam,
    Custom(String),
}

impl View for Label {
    type V = LabelV;

    open spec fn view(&self) -> LabelV {
        match self {
            Label::Inbox => LabelV::Inbox,
            Label::Important => LabelV::Important,
            Label::Starred => LabelV::Starred,
            Label::Sent => LabelV::Sent,
            Label::Draft => LabelV::Draft,
            Label::Trash => LabelV::Trash,
            Label::Spam => LabelV::Spam,
            Label::Custom(s) => LabelV::Custom(s@),
        }
    }
}

impl DeepView for Label {
    type V = LabelV;

    open spec fn deep_view(&self) -> LabelV {
        self@
    }
}

impl Clone for Label {
    fn clone(&self) -> (r: Label)
        ensures
            r@ == self@,
    {
        match self {
            Label::Inbox => Label::Inbox,
            Label::Important => Label::Important,
            Label::Starred => Label::Starred,
            Label::Sent => Label::Sent,
            Label::Draft => Label::Draft,
            Label::Trash => Label::Trash,
            Label::Spam => Label::Spam,
            Label::Custom(s) => Label::Custom(s.clone()),
        }
    }
}

/// ASCII upper-casing of one character; other characters are unchanged.
pub open spec fn upper_char(c: char) -> char {
    if 97 <= c as u32 && c as u32 <= 122 {
        ((c as u32 - 32) as u8) as char
    } else {
        c
    }
}

/// ASCII upper-casing of a character sequence.
pub open spec fn upper_seq(s: Seq<char>) -> Seq<char> {
    s.map_values(|c: char| upper_char(c))
}

/// One leading backslash is removed before a name is compared.
pub open spec fn strip_backslash(s: Seq<char>) -> Seq<char> {
    if s.len() > 0 && s[0] == '\\' {
        s.drop_first()
    } else {
        s
    }
}

/// What `Label::new` returns: the well-known category whose name the input
/// matches case-insensitively after stripping one leading backslash, or
/// `Custom` with the stripped text.
pub open spec fn normalize_label(raw: Seq<char>) -> LabelV {
    let t = strip_backslash(raw);
    let u = upper_seq(t);
    if u == "INBOX"@ {
        LabelV::Inbox
    } else if u == "IMPORTANT"@ {
        LabelV::Important
    } else if u == "FLAGGED"@ || u == "STARRED"@ {
        LabelV::Starred
    } else if u == "SENT"@ {
        LabelV::Sent
    } else if u == "DRAFT"@ {
        LabelV::Draft
    } else if u == "TRASH"@ {
        LabelV::Trash
    } else if u == "SPAM"@ {
        LabelV::Spam
    } else {
        LabelV::Custom(t)
    }
}

/// True of the categories with a fixed name, false of `Custom`.
pub open spec fn is_known_label(l: LabelV) -> bool {
    !(l is Custom)
}

/// Compares the ASCII upper-casing of `s` with `lit`, character by character.
fn eq_upper(s: &str, lit: &str) -> (r: bool)
    ensures
        r == (upper_seq(s@) == lit@),
{
    let n = s.unicode_len();
    let m = lit.unicode_len();
    if n != m {
        proof {
            assert(upper_seq(s@).len() == s@.len());
        }
        return false;
    }
    let mut i: usize = 0;
    while i < n
        invariant
            n == s@.len(),
            n == lit@.len(),
            i <= n,
            forall|j: int| 0 <= j < i ==> upper_seq(s@)[j] == lit@[j],
        decreases n - i,
    {
        let c = s.get_char(i);
        let code: u32 = c as u32;
        let up: char = if 97 <= code && code <= 122 {
            ((code - 32) as u8) as char
        } else {
            c
        };
        assert(up == upper_char(s@[i as int]));
        if up != lit.get_char(i) {
            assert(upper_seq(s@)[i as int] != lit@[i as int]);
            return false;
        }
        i += 1;
    }
    proof {
        assert(upper_seq(s@) =~= lit@);
    }
    true
}

impl Label {
    /// Builds a `Label` from a raw string, as it comes from the server's
    /// label or flag lists or from the configuration. Total and pure: one
    /// leading backslash is stripped, the rest is matched case-insensitively
    /// against the well-known names, and anything unmatched becomes `Custom`
    /// holding the stripped text.
    pub fn new(raw: &str) -> (r: Label)
        ensures
            r@ == normalize_label(raw@),
    {
        let n = raw.unicode_len();
        let stripped: &str = if n > 0 && raw.get_char(0) == '\\' {
            raw.substring_char(1, n)
        } else {
            raw
        };
        proof {
            assert(stripped@ =~= strip_backslash(raw@));
        }
        if eq_upper(stripped, "INBOX") {
            Label::Inbox
        } else if eq_upper(stripped, "IMPORTANT") {
            Label::Important
        } else if eq_upper(stripped, "FLAGGED") || eq_upper(stripped, "STARRED") {
            Label::Starred
        } else if eq_upper(stripped, "SENT") {
            Label::Sent
        } else if eq_upper(stripped, "DRAFT") {
            Label::Draft
        } else if eq_upper(stripped, "TRASH") {
            Label::Trash
        } else if eq_upper(stripped, "SPAM") {
            Label::Spam
        } else {
            Label::Custom(stripped.to_owned())
        }
    }
}

impl PartialEq for Label {
    fn eq(&self, other: &Label) -> (r: bool) {
        match (self, other) {
            (Label::Inbox, Label::Inbox) => true,
            (Label::Important, Label::Important) => true,
            (Label::Starred, Label::Starred) => true,
            (Label::Sent, Label::Sent) => true,
            (Label::Draft, Label::Draft) => true,
            (Label::Trash, Label::Trash) => true,
            (Label::Spam, Label::Spam) => true,
            (Label::Custom(a), Label::Custom(b)) => *a == *b,
            _ => false,
        }
    }
}

impl vstd::std_specs::cmp::PartialEqSpecImpl for Label {
    open spec fn obeys_eq_spec() -> bool {
        true
    }

    open spec fn eq_spec(&self, other: &Label) -> bool {
        self@ == other@
    }
}

impl Eq for Label {

}

/// Case-insensitivity of normalization on the well-known names: wherever a
/// raw string maps to a fixed category, its ASCII upper-casing maps to the
/// same category.
pub proof fn lemma_normalize_case_fold(raw: Seq<char>)
    ensures
        is_known_label(normalize_label(raw)) ==> normalize_label(upper_seq(raw))
            == normalize_label(raw),
{
    if is_known_label(normalize_label(raw)) {
        assert(strip_backslash(upper_seq(raw)) =~= upper_seq(strip_backslash(raw))) by {
            assert(upper_char('\\') == '\\');
        }
        assert(upper_seq(upper_seq(strip_backslash(raw))) =~= upper_seq(strip_backslash(raw)))
            by {
            assert forall|c: char| #[trigger] upper_char(upper_char(c)) == upper_char(c) by {
            }
        }
    }
}

} // verus!
