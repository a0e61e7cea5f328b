//! Built-in email samples and their parser. The loader serves a fixed
//! catalog of `.eml` texts under familiar relative paths, so tests can
//! exercise the engine with realistic messages without touching any disk.

use vstd::prelude::*;
use vstd::string::*;

use crate::message::{assoc_last, split_lines, split_name_value};
use crate::text::{find_char, index_of_char, split_whitespace_x, split_ws, str_eq};
use crate::utils::trim_ws;
use crate::virtual_mailbox::MailboxMessage;

verus! {

/// Relies on chrono's DateTime::from_timestamp and to_rfc3339: within the
/// four-digit years that the strict RFC 3339 parser reads back, the
/// produced text parses to the same instant. The upper bound is the last
/// second of year 9999.
#[verifier::external_body]
fn epoch_to_rfc3339_in_range(secs: i64) -> (r: String)
    requires
        0 <= secs <= 253402300799,
    ensures
        crate::state_filter::rfc3339_epoch_of(r@) == Some(secs as int),
{
    match chrono::DateTime::from_timestamp(secs, 0) {
        Some(dt) => dt.to_rfc3339(),
        None => String::new(),
    }
}

/// Renders an instant as RFC 3339 text that reads back as that instant; an
/// instant outside the four-digit-year epoch range is clamped to its
/// nearest edge first.
pub fn epoch_to_rfc3339(secs: i64) -> (r: String)
    ensures
        crate::state_filter::rfc3339_epoch_of(r@) is Some,
        0 <= secs <= 253402300799 ==> crate::state_filter::rfc3339_epoch_of(r@) == Some(
            secs as int,
        ),
{
    let clamped: i64 = if secs < 0 {
        0
    } else if secs > 253402300799 {
        253402300799
    } else {
        secs
    };
    epoch_to_rfc3339_in_range(clamped)
}

/// A loaded sample: the parsed message and the path it came under.
#[derive(Debug)]
pub struct EmailFixture {
    pub message: MailboxMessage,
    pub source_path: String,
}

impl Clone for EmailFixture {
    fn clone(&self) -> (r: EmailFixture)
        ensures
            r.message@ == self.message@,
            r.source_path@ == self.source_path@,
    {
        EmailFixture { message: self.message.clone(), source_path: self.source_path.clone() }
    }
}

/// A failure while loading or parsing a sample.
#[derive(Debug)]
pub enum FixtureError {
    /// The path names no known sample.
    Io(String),
    /// The text could not be parsed.
    Parse(String),
    /// A required header is absent.
    MissingHeader(String),
}

impl FixtureError {
    /// The failure, described as text.
    pub fn describe(&self) -> (r: String) {
        match self {
            FixtureError::Io(s) => {
                let mut out = String::from_str("IO error: ");
                out.append(s.as_str());
                out
            },
            FixtureError::Parse(s) => {
                let mut out = String::from_str("Parse error: ");
                out.append(s.as_str());
                out
            },
            FixtureError::MissingHeader(s) => {
                let mut out = String::from_str("Missing required header: ");
                out.append(s.as_str());
                out
            },
        }
    }
}

/// Splits a line at the first bare colon.
pub open spec fn split_colon(l: Seq<char>) -> Option<(Seq<char>, Seq<char>)> {
    let i = index_of_char(l, ':');
    if 0 <= i < l.len() {
        Some((l.subrange(0, i), l.subrange(i + 1, l.len() as int)))
    } else {
        None
    }
}

/// One header line of a sample: `name: value`, or `name:value` with the
/// value trimmed.
pub open spec fn eml_pair(l: Seq<char>) -> Option<(Seq<char>, Seq<char>)> {
    match split_name_value(l) {
        Some(p) => Some(p),
        None => match split_colon(l) {
            Some((k, v)) => Some((k, trim_ws(v))),
            None => None,
        },
    }
}

/// Whether the line continues the previous header.
pub open spec fn is_continuation(l: Seq<char>) -> bool {
    l.len() > 0 && (l[0] == ' ' || l[0] == '\t')
}

/// The header pairs of a sample's lines: read until the first empty line,
/// skipping continuations.
pub open spec fn eml_pairs(lines: Seq<Seq<char>>) -> Seq<(Seq<char>, Seq<char>)>
    decreases lines.len(),
{
    if lines.len() == 0 {
        Seq::empty()
    } else if lines[0].len() == 0 {
        Seq::empty()
    } else if is_continuation(lines[0]) {
        eml_pairs(lines.drop_first())
    } else {
        match eml_pair(lines[0]) {
            Some(p) => seq![p] + eml_pairs(lines.drop_first()),
            None => eml_pairs(lines.drop_first()),
        }
    }
}

/// The bare address of a header value: the text between the first angle
/// brackets when they stand in order, else the trimmed text.
pub open spec fn extract_email_spec(s: Seq<char>) -> Seq<char> {
    let lt = index_of_char(s, '<');
    let gt = index_of_char(s, '>');
    if lt < s.len() && gt < s.len() && lt < gt {
        s.subrange(lt + 1, gt)
    } else {
        trim_ws(s)
    }
}

/// The comma-separated segments of a value, in order, empties kept.
pub open spec fn split_commas(s: Seq<char>) -> Seq<Seq<char>>
    decreases s.len(),
{
    let i = index_of_char(s, ',');
    if 0 <= i < s.len() {
        seq![s.subrange(0, i)] + split_commas(s.subrange(i + 1, s.len() as int))
    } else {
        seq![s]
    }
}

/// Splits one header line of a sample.
fn eml_pair_x(l: &str) -> (r: Option<(String, String)>)
    ensures
        r.deep_view() == eml_pair(l@),
{
    match crate::message::split_header_line(l) {
        Some(p) => Some(p),
        None => {
            let n = l.unicode_len();
            let i = find_char(l, 0, ':');
            proof {
                crate::text::lemma_index_of_char(l@, ':', i as int);
            }
            if i < n {
                let k = l.substring_char(0, i);
                let v = l.substring_char(i + 1, n);
                let vt = trim_ws_x(v);
                proof {
                    assert(k@ =~= l@.subrange(0, i as int));
                    assert(v@ =~= l@.subrange(i as int + 1, n as int));
                }
                Some((k.to_owned(), vt))
            } else {
                None
            }
        },
    }
}

/// Trims ASCII whitespace from both ends.
fn trim_ws_x(s: &str) -> (r: String)
    ensures
        r@ == trim_ws(s@),
{
    let n = s.unicode_len();
    let mut lo: usize = 0;
    while lo < n && is_space_c(s.get_char(lo))
        invariant
            n == s@.len(),
            lo <= n,
            forall|j: int| 0 <= j < lo ==> crate::text::is_space(#[trigger] s@[j]),
        decreases n - lo,
    {
        lo += 1;
    }
    let mut hi: usize = n;
    while hi > lo && is_space_c(s.get_char(hi - 1))
        invariant
            n == s@.len(),
            lo <= hi <= n,
            forall|j: int| 0 <= j < lo ==> crate::text::is_space(#[trigger] s@[j]),
            forall|j: int| hi <= j < n ==> crate::text::is_space(#[trigger] s@[j]),
        decreases hi,
    {
        hi -= 1;
    }
    proof {
        if lo < n && !(lo < hi) {
            assert(!crate::text::is_space(s@[lo as int]));
            assert(crate::text::is_space(s@[lo as int]));
        }
        crate::utils::lemma_trim_ws_at(s@, lo as int, hi as int);
    }
    let t = s.substring_char(lo, hi);
    t.to_owned()
}

fn is_space_c(c: char) -> (r: bool)
    ensures
        r == crate::text::is_space(c),
{
    c == ' ' || c == '\t' || c == '\n' || c == '\r' || c == '\x0b' || c == '\x0c'
}

/// The bare address of a header value.
fn extract_email(header_value: &str) -> (r: String)
    ensures
        r@ == extract_email_spec(header_value@),
{
    let n = header_value.unicode_len();
    let lt = find_char(header_value, 0, '<');
    let gt = find_char(header_value, 0, '>');
    proof {
        crate::text::lemma_index_of_char(header_value@, '<', lt as int);
        crate::text::lemma_index_of_char(header_value@, '>', gt as int);
    }
    if lt < n && gt < n && lt < gt {
        let r = header_value.substring_char(lt + 1, gt);
        proof {
            assert(r@ =~= header_value@.subrange(lt as int + 1, gt as int));
        }
        r.to_owned()
    } else {
        trim_ws_x(header_value)
    }
}

/// Parses a sample's text into a mailbox record. The text must carry a
/// `From` header; `To`, `Subject` and the threading headers are optional,
/// and a missing `Date` falls back to the system clock.
pub fn parse_eml(content: &str) -> (r: Result<MailboxMessage, FixtureError>)
    ensures
        r is Ok <==> assoc_last(eml_pairs(split_lines(content@)), "From"@) is Some,
        r matches Ok(m) ==> {
            let hs = eml_pairs(split_lines(content@));
            &&& m@.headers == hs
            &&& m@.from =~= seq![
                extract_email_spec(assoc_last(hs, "From"@)->0),
            ]
            &&& m@.subject == (match assoc_last(hs, "Subject"@) {
                Some(v) => v,
                None => Seq::<char>::empty(),
            })
            &&& m@.message_id == assoc_last(hs, "Message-ID"@)
            &&& m@.in_reply_to == assoc_last(hs, "In-Reply-To"@)
            &&& m@.references == (match assoc_last(hs, "References"@) {
                Some(v) => split_ws(v),
                None => Seq::<Seq<char>>::empty(),
            })
            &&& m@.uid == 0
            &&& m@.deleted == false
        },
{
    let lines = crate::message::split_lines_exec(content);
    // collect the header pairs up to the first empty line
    let mut headers: Vec<(String, String)> = Vec::new();
    let n = lines.len();
    let mut k: usize = 0;
    let mut stopped = false;
    proof {
        assert(lines.deep_view().subrange(0, n as int) =~= lines.deep_view());
        assert(headers.deep_view() =~= Seq::<(Seq<char>, Seq<char>)>::empty());
    }
    while k < n && !stopped
        invariant
            n == lines.len(),
            k <= n,
            !stopped ==> eml_pairs(lines.deep_view()) == headers.deep_view() + eml_pairs(
                lines.deep_view().subrange(k as int, n as int),
            ),
            stopped ==> eml_pairs(lines.deep_view()) == headers.deep_view(),
        decreases n - k + (if stopped { 0int } else { 1int }),
    {
        let ghost suf = lines.deep_view().subrange(k as int, n as int);
        proof {
            assert(suf[0] == lines.deep_view()[k as int]);
            assert(suf.drop_first() =~= lines.deep_view().subrange(k as int + 1, n as int));
        }
        let line = &lines[k];
        if line.as_str().unicode_len() == 0 {
            proof {
                assert(eml_pairs(suf) =~= Seq::<(Seq<char>, Seq<char>)>::empty());
                assert(headers.deep_view() + eml_pairs(suf) =~= headers.deep_view());
            }
            stopped = true;
        } else {
            let c0 = line.as_str().get_char(0);
            if c0 == ' ' || c0 == '\t' {
                // a continuation of the previous header: skipped
            } else {
                let ghost prev = headers.deep_view();
                match eml_pair_x(line.as_str()) {
                    Some(p) => {
                        headers.push(p);
                        proof {
                            assert(headers.deep_view() =~= prev.push(eml_pair(suf[0])->0));
                            assert(prev + (seq![eml_pair(suf[0])->0] + eml_pairs(
                                suf.drop_first(),
                            )) =~= (prev + seq![eml_pair(suf[0])->0]) + eml_pairs(
                                suf.drop_first(),
                            ));
                        }
                    },
                    None => {},
                }
            }
            k += 1;
        }
    }
    proof {
        if !stopped {
            assert(lines.deep_view().subrange(n as int, n as int) =~= Seq::<Seq<char>>::empty());
            assert(headers.deep_view() + Seq::<(Seq<char>, Seq<char>)>::empty() =~= headers
                .deep_view());
        }
    }
    let from_raw = match crate::message::assoc_get(&headers, "From") {
        Some(v) => v,
        None => {
            return Err(FixtureError::MissingHeader(String::from_str("From")));
        },
    };
    let to_raw = match crate::message::assoc_get(&headers, "To") {
        Some(v) => v,
        None => String::new(),
    };
    let subject = match crate::message::assoc_get(&headers, "Subject") {
        Some(v) => v,
        None => String::new(),
    };
    let date = match crate::message::assoc_get(&headers, "Date") {
        Some(v) => v,
        None => epoch_to_rfc3339(crate::client_ops::system_now_secs()),
    };
    let from_addr = extract_email(from_raw.as_str());
    let to_addr = extract_email(to_raw.as_str());
    let mut m = MailboxMessage::new(0, subject.as_str(), from_addr.as_str(), to_addr.as_str(),
        date.as_str());
    match crate::message::assoc_get(&headers, "Message-ID") {
        Some(v) => {
            m.message_id = Some(v);
        },
        None => {},
    }
    match crate::message::assoc_get(&headers, "In-Reply-To") {
        Some(v) => {
            m.in_reply_to = Some(v);
        },
        None => {},
    }
    match crate::message::assoc_get(&headers, "References") {
        Some(v) => {
            m.references = split_whitespace_x(v.as_str());
        },
        None => {},
    }
    match crate::message::assoc_get(&headers, "Cc") {
        Some(v) => {
            m.cc = split_cc(v.as_str());
        },
        None => {},
    }
    m.headers = headers;
    proof {
        assert(m@.from =~= seq![from_addr@]);
    }
    Ok(m)
}

/// What each comma segment contributes: its trimmed, bare address.
pub open spec fn cc_entry(x: Seq<char>) -> Seq<char> {
    extract_email_spec(trim_ws(x))
}

/// The addresses of a carbon-copy value: split at commas, trimmed, bare.
fn split_cc(v: &str) -> (r: Vec<String>)
    ensures
        r.deep_view() == split_commas(v@).map_values(|x: Seq<char>| cc_entry(x)),
{
    let n = v.unicode_len();
    let mut out: Vec<String> = Vec::new();
    let mut pos: usize = 0;
    proof {
        assert(v@.subrange(0, n as int) =~= v@);
        assert(out.deep_view() =~= Seq::<Seq<char>>::empty());
    }
    loop
        invariant
            n == v@.len(),
            pos <= n,
            split_commas(v@).map_values(|x: Seq<char>| cc_entry(x)) =~= out.deep_view()
                + split_commas(v@.subrange(pos as int, n as int)).map_values(
                |x: Seq<char>| cc_entry(x),
            ),
        decreases n - pos,
    {
        let ghost suf = v@.subrange(pos as int, n as int);
        let i = find_char(v, pos, ',');
        let seg = v.substring_char(pos, i);
        let trimmed = trim_ws_x(seg);
        let ghost prev = out.deep_view();
        out.push(extract_email(trimmed.as_str()));
        proof {
            assert(seg@ =~= suf.subrange(0, i - pos));
            assert(out.deep_view() =~= prev.push(cc_entry(suf.subrange(0, i - pos))));
        }
        if i >= n {
            proof {
                assert(i - pos == index_of_char(suf, ','));
                assert(!(0 <= index_of_char(suf, ',') < suf.len()));
                assert(suf.subrange(0, suf.len() as int) =~= suf);
                assert(split_commas(suf) =~= seq![suf]);
                assert(split_commas(suf).map_values(|x: Seq<char>| cc_entry(x)) =~= seq![
                    cc_entry(suf),
                ]);
                assert(out.deep_view() =~= prev + seq![cc_entry(suf)]);
            }
            return out;
        }
        proof {
            assert(i - pos == index_of_char(suf, ','));
            assert(0 <= i - pos < suf.len());
            let ns = v@.subrange(i as int + 1, n as int);
            assert(suf.subrange(i - pos + 1, suf.len() as int) =~= ns);
            assert(split_commas(suf).map_values(|x: Seq<char>| cc_entry(x)) =~= seq![
                cc_entry(suf.subrange(0, i - pos)),
            ] + split_commas(ns).map_values(|x: Seq<char>| cc_entry(x)));
            assert(prev + (seq![cc_entry(suf.subrange(0, i - pos))] + split_commas(ns).map_values(
                |x: Seq<char>| cc_entry(x),
            )) =~= (prev + seq![cc_entry(suf.subrange(0, i - pos))]) + split_commas(ns).map_values(
                |x: Seq<char>| cc_entry(x),
            ));
        }
        pos = i + 1;
    }
}

/// The loader of the built-in samples.
#[derive(Debug)]
pub struct FixtureLoader {
    base_path: String,
}

fn builtin_sample(path: &str) -> (r: Option<&'static str>) {
    if str_eq(path, "simple/direct-message.eml") {
        Some(
            "From: sender@company.com\nTo: me@example.com\nSubject: Direct message to you\nDate: 2024-01-10T09:00:00+00:00\nMessage-ID: <direct-001@company.com>\n\nA short direct note.\n",
        )
    } else if str_eq(path, "simple/with-cc.eml") {
        Some(
            "From: sender@company.com\nTo: me@example.com\nCc: colleague@company.com, manager@company.com\nSubject: Team update with CC\nDate: 2024-01-11T09:00:00+00:00\nMessage-ID: <cc-001@company.com>\n\nAn update for the whole team.\n",
        )
    } else if str_eq(path, "simple/mailing-list.eml") {
        Some(
            "From: noreply@github.com\nTo: me@example.com\nSubject: [repo/project] New issue opened\nDate: 2024-01-12T09:00:00+00:00\nMessage-ID: <list-001@github.com>\nList-Id: <repo.project.github.com>\n\nAn issue was opened.\n",
        )
    } else if str_eq(path, "simple/newsletter.eml") {
        Some(
            "From: newsletter@news.example.com\nTo: me@example.com\nSubject: Weekly digest\nDate: 2024-01-13T09:00:00+00:00\nMessage-ID: <news-001@news.example.com>\n\nThis week in brief.\n",
        )
    } else if str_eq(path, "threads/thread-01/01-initial.eml") {
        Some(
            "From: alice@example.com\nTo: bob@example.com\nSubject: Project discussion\nDate: 2024-01-15T10:00:00+00:00\nMessage-ID: <thread01-m1@example.com>\n\nShall we start?\n",
        )
    } else if str_eq(path, "threads/thread-01/02-reply.eml") {
        Some(
            "From: bob@example.com\nTo: alice@example.com\nSubject: Re: Project discussion\nDate: 2024-01-15T11:00:00+00:00\nMessage-ID: <thread01-m2@example.com>\nIn-Reply-To: <thread01-m1@example.com>\nReferences: <thread01-m1@example.com>\n\nYes, let us.\n",
        )
    } else if str_eq(path, "threads/thread-01/03-follow-up.eml") {
        Some(
            "From: alice@example.com\nTo: bob@example.com\nSubject: Re: Project discussion\nDate: 2024-01-15T12:00:00+00:00\nMessage-ID: <thread01-m3@example.com>\nIn-Reply-To: <thread01-m2@example.com>\nReferences: <thread01-m1@example.com> <thread01-m2@example.com>\n\nHere is the plan.\n",
        )
    } else {
        None
    }
}

impl FixtureLoader {
    /// A loader over the standard sample tree.
    pub fn new() -> FixtureLoader {
        FixtureLoader { base_path: String::from_str("tests/fixtures/emails") }
    }

    /// A loader whose reported paths start from the given base.
    pub fn with_base_path(base_path: String) -> FixtureLoader {
        FixtureLoader { base_path }
    }

    /// The base path the reported source paths start from.
    pub fn base_path(&self) -> (r: &String) {
        &self.base_path
    }

    /// Loads one sample by its relative path.
    pub fn load_email(&self, relative_path: &str) -> (r: Result<EmailFixture, FixtureError>) {
        let text = match builtin_sample(relative_path) {
            Some(t) => t,
            None => {
                let mut s = String::from_str("no such sample: ");
                s.append(relative_path);
                return Err(FixtureError::Io(s));
            },
        };
        let message = match parse_eml(text) {
            Ok(m) => m,
            Err(e) => {
                return Err(e);
            },
        };
        let mut source_path = self.base_path.clone();
        source_path.append("/");
        source_path.append(relative_path);
        Ok(EmailFixture { message, source_path })
    }

    /// Loads every sample of a directory, sorted by file name.
    pub fn load_directory(&self, relative_path: &str) -> (r: Result<
        Vec<EmailFixture>,
        FixtureError,
    >) {
        let mut names: Vec<&'static str> = Vec::new();
        if str_eq(relative_path, "threads/thread-01") {
            names.push("threads/thread-01/01-initial.eml");
            names.push("threads/thread-01/02-reply.eml");
            names.push("threads/thread-01/03-follow-up.eml");
        } else if str_eq(relative_path, "simple") {
            names.push("simple/direct-message.eml");
            names.push("simple/mailing-list.eml");
            names.push("simple/newsletter.eml");
            names.push("simple/with-cc.eml");
        } else {
            let mut s = String::from_str("no such sample directory: ");
            s.append(relative_path);
            return Err(FixtureError::Io(s));
        }
        let mut out: Vec<EmailFixture> = Vec::new();
        let mut i: usize = 0;
        while i < names.len()
            decreases names@.len() - i,
        {
            match self.load_email(names[i]) {
                Ok(f) => {
                    out.push(f);
                },
                Err(e) => {
                    return Err(e);
                },
            }
            i += 1;
        }
        Ok(out)
    }
}

impl Default for FixtureLoader {
    fn default() -> FixtureLoader {
        FixtureLoader::new()
    }
}

} // verus!
