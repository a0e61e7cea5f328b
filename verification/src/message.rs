//! The parsed unit of work: an immutable snapshot of one mailbox entry,
//! built once per fetch from the raw header bytes, the server's label and
//! flag lists, and the server's internal date.

use vstd::prelude::*;
use vstd::string::*;

use crate::label::{normalize_label, Label, LabelV};
use crate::text::{find_char, index_of_char, split_whitespace_x, split_ws, str_eq};

verus! {

/// The mathematical value of an [`EmailAddress`].
pub struct EmailAddressV {
    pub name: Seq<char>,
    pub email: Seq<char>,
}

/// One mailbox participant: a display name (possibly empty) and an address.
#[derive(Debug)]
pub struct EmailAddress {
    pub name: String,
    pub email: String,
}

impl View for EmailAddress {
    type V = EmailAddressV;

    open spec fn view(&self) -> EmailAddressV {
        EmailAddressV { name: self.name@, email: self.email@ }
    }
}

impl DeepView for EmailAddress {
    type V = EmailAddressV;

    open spec fn deep_view(&self) -> EmailAddressV {
        self@
    }
}

impl Clone for EmailAddress {
    fn clone(&self) -> (r: EmailAddress)
        ensures
            r@ == self@,
    {
        EmailAddress { name: self.name.clone(), email: self.email.clone() }
    }
}

/// What `mailparse::addrparse` yields for a header value: the flattened
/// address list, in order, with a missing display name as the empty string;
/// text it cannot parse yields the empty sequence.
pub uninterp spec fn addrs_of(s: Seq<char>) -> Seq<EmailAddressV>;

/// Relies on mailparse::addrparse: the result depends on the text alone.
/// Single addresses and the members of groups are flattened in order, a
/// missing display name becomes the empty string, and a parse failure
/// yields no addresses.
#[verifier::external_body]
fn parse_addr_list(s: &str) -> (r: Vec<EmailAddress>)
    ensures
        r.deep_view() == addrs_of(s@),
{
    match mailparse::addrparse(s) {
        Ok(list) => list
            .iter()
            .flat_map(|a| match a {
                mailparse::MailAddr::Single(i) => vec![i.clone()],
                mailparse::MailAddr::Group(g) => g.addrs.clone(),
            })
            .map(|i| EmailAddress { name: i.display_name.unwrap_or_default(), email: i.addr })
            .collect(),
        Err(_) => Vec::new(),
    }
}

/// What `String::from_utf8_lossy` yields for these bytes.
pub uninterp spec fn lossy_of(bytes: Seq<u8>) -> Seq<char>;

/// Relies on String::from_utf8_lossy: the decoding depends on the bytes
/// alone, and well-formed UTF-8 — in particular pure ASCII — decodes to
/// itself.
#[verifier::external_body]
fn lossy_string(bytes: &[u8]) -> (s: String)
    ensures
        s@ == lossy_of(bytes@),
        (forall|i: int| 0 <= i < bytes@.len() ==> bytes@[i] < 128) ==> s@ == bytes@.map_values(
            |b: u8| b as char,
        ),
{
    String::from_utf8_lossy(bytes).into_owned()
}

/// Removes one carriage return from the end of a line, as the line splitter
/// does for lines that end in `\r\n`.
pub open spec fn strip_cr(l: Seq<char>) -> Seq<char> {
    if l.len() > 0 && l.last() == '\r' {
        l.drop_last()
    } else {
        l
    }
}

/// The lines of `s`: split at `\n`, with a `\r` immediately before the split
/// removed, and a final fragment without a newline kept as it stands.
pub open spec fn split_lines(s: Seq<char>) -> Seq<Seq<char>>
    decreases s.len(),
{
    if s.len() == 0 {
        Seq::empty()
    } else {
        let i0 = index_of_char(s, '\n');
        let i = if 0 <= i0 <= s.len() {
            i0
        } else {
            s.len() as int
        };
        if i == s.len() {
            seq![s]
        } else {
            seq![strip_cr(s.subrange(0, i))] + split_lines(s.subrange(i + 1, s.len() as int))
        }
    }
}

/// Splits a line at the first `": "`, the header name to the left and the
/// value to the right; a line without `": "` yields nothing.
pub open spec fn split_name_value(l: Seq<char>) -> Option<(Seq<char>, Seq<char>)>
    decreases l.len(),
{
    if l.len() < 2 {
        None
    } else if l[0] == ':' && l[1] == ' ' {
        Some((Seq::empty(), l.subrange(2, l.len() as int)))
    } else {
        match split_name_value(l.drop_first()) {
            None => None,
            Some(p) => Some((seq![l[0]] + p.0, p.1)),
        }
    }
}

/// The name/value pairs of the lines that contain `": "`, in line order.
pub open spec fn pairs_of_lines(lines: Seq<Seq<char>>) -> Seq<(Seq<char>, Seq<char>)>
    decreases lines.len(),
{
    if lines.len() == 0 {
        Seq::empty()
    } else {
        match split_name_value(lines[0]) {
            Some(p) => seq![p] + pairs_of_lines(lines.drop_first()),
            None => pairs_of_lines(lines.drop_first()),
        }
    }
}

/// The header map parsed out of raw header bytes.
pub open spec fn headers_of(raw: Seq<u8>) -> Seq<(Seq<char>, Seq<char>)> {
    pairs_of_lines(split_lines(lossy_of(raw)))
}

/// The value of the last pair with this name — the pair that a map built by
/// inserting the pairs in order would hold.
pub open spec fn assoc_last(ps: Seq<(Seq<char>, Seq<char>)>, key: Seq<char>) -> Option<Seq<char>>
    decreases ps.len(),
{
    if ps.len() == 0 {
        None
    } else if ps.last().0 == key {
        Some(ps.last().1)
    } else {
        assoc_last(ps.drop_last(), key)
    }
}

/// The addresses parsed from the named header, or none when the header is
/// absent.
pub open spec fn addrs_in(hs: Seq<(Seq<char>, Seq<char>)>, key: Seq<char>) -> Seq<EmailAddressV> {
    match assoc_last(hs, key) {
        Some(v) => addrs_of(v),
        None => Seq::empty(),
    }
}

/// The mathematical value of a [`Message`].
pub struct MessageV {
    pub uid: u32,
    pub seq: u32,
    pub to: Seq<EmailAddressV>,
    pub cc: Seq<EmailAddressV>,
    pub from: Seq<EmailAddressV>,
    pub subject: Seq<char>,
    pub date: Seq<char>,
    pub labels: Seq<LabelV>,
    pub headers: Seq<(Seq<char>, Seq<char>)>,
    pub message_id: Option<Seq<char>>,
    pub in_reply_to: Option<Seq<char>>,
    pub references: Seq<Seq<char>>,
    pub thread_id: Option<Seq<char>>,
}

/// An immutable snapshot of one mailbox entry. The `uid` is the stable
/// per-mailbox identifier used for every further operation; `seq` is the
/// session-scoped sequence number and is never persisted.
#[derive(Debug)]
pub struct Message {
    pub uid: u32,
    pub seq: u32,
    pub to: Vec<EmailAddress>,
    pub cc: Vec<EmailAddress>,
    pub from: Vec<EmailAddress>,
    pub subject: String,
    pub date: String,
    pub labels: Vec<Label>,
    pub headers: Vec<(String, String)>,
    pub message_id: Option<String>,
    pub in_reply_to: Option<String>,
    pub references: Vec<String>,
    pub thread_id: Option<String>,
}

impl View for Message {
    type V = MessageV;

    open spec fn view(&self) -> MessageV {
        MessageV {
            uid: self.uid,
            seq: self.seq,
            to: self.to.deep_view(),
            cc: self.cc.deep_view(),
            from: self.from.deep_view(),
            subject: self.subject@,
            date: self.date@,
            labels: self.labels.deep_view(),
            headers: self.headers.deep_view(),
            message_id: self.message_id.deep_view(),
            in_reply_to: self.in_reply_to.deep_view(),
            references: self.references.deep_view(),
            thread_id: self.thread_id.deep_view(),
        }
    }
}

impl DeepView for Message {
    type V = MessageV;

    open spec fn deep_view(&self) -> MessageV {
        self@
    }
}

/// What [`Message::new`] builds from its raw inputs.
pub open spec fn new_message_spec(
    uid: u32,
    seq: u32,
    raw: Seq<u8>,
    raw_labels: Seq<Seq<char>>,
    date: Seq<char>,
    thread_id: Option<Seq<char>>,
) -> MessageV {
    let hs = headers_of(raw);
    let to0 = addrs_in(hs, "To"@);
    MessageV {
        uid,
        seq,
        to: if to0.len() == 0 {
            addrs_in(hs, "Delivered-To"@)
        } else {
            to0
        },
        cc: addrs_in(hs, "Cc"@),
        from: addrs_in(hs, "From"@),
        subject: match assoc_last(hs, "Subject"@) {
            Some(v) => v,
            None => Seq::empty(),
        },
        date,
        labels: raw_labels.map_values(|s: Seq<char>| normalize_label(s)),
        headers: hs,
        message_id: assoc_last(hs, "Message-ID"@),
        in_reply_to: assoc_last(hs, "In-Reply-To"@),
        references: match assoc_last(hs, "References"@) {
            Some(v) => split_ws(v),
            None => Seq::empty(),
        },
        thread_id,
    }
}

/// Splits a string into its lines, as [`split_lines`] describes.
pub fn split_lines_exec(s: &str) -> (r: Vec<String>)
    ensures
        r.deep_view() == split_lines(s@),
{
    let n = s.unicode_len();
    let mut out: Vec<String> = Vec::new();
    let mut pos: usize = 0;
    proof {
        assert(s@.subrange(0, n as int) =~= s@);
        assert(out.deep_view() =~= Seq::<Seq<char>>::empty());
        assert(out.deep_view() + split_lines(s@) =~= split_lines(s@));
    }
    while pos < n
        invariant
            n == s@.len(),
            pos <= n,
            split_lines(s@) == out.deep_view() + split_lines(s@.subrange(pos as int, n as int)),
        decreases n - pos,
    {
        let ghost suf = s@.subrange(pos as int, n as int);
        let i = find_char(s, pos, '\n');
        let ghost prev = out.deep_view();
        if i < n {
            // line ends at the newline; drop a carriage return before it
            let line = if i > pos && s.get_char(i - 1) == '\r' {
                s.substring_char(pos, i - 1)
            } else {
                s.substring_char(pos, i)
            };
            proof {
                assert(suf.subrange(0, i - pos) =~= s@.subrange(pos as int, i as int));
                if i > pos && s@[i as int - 1] == '\r' {
                    assert(s@.subrange(pos as int, i as int - 1) =~= strip_cr(
                        s@.subrange(pos as int, i as int),
                    ));
                }
                assert(suf.subrange(i - pos + 1, suf.len() as int) =~= s@.subrange(
                    i as int + 1,
                    n as int,
                ));
            }
            out.push(line.to_owned());
            proof {
                let ns = s@.subrange(i as int + 1, n as int);
                assert(out.deep_view() =~= prev + seq![strip_cr(
                    s@.subrange(pos as int, i as int),
                )]);
                assert(prev + (seq![strip_cr(s@.subrange(pos as int, i as int))] + split_lines(ns))
                    =~= (prev + seq![strip_cr(s@.subrange(pos as int, i as int))]) + split_lines(
                    ns,
                ));
            }
            pos = i + 1;
        } else {
            let line = s.substring_char(pos, n);
            proof {
                assert(line@ =~= suf);
            }
            out.push(line.to_owned());
            proof {
                assert(out.deep_view() =~= prev + seq![suf]);
                assert(s@.subrange(n as int, n as int) =~= Seq::<char>::empty());
                assert(prev + (seq![suf] + Seq::<Seq<char>>::empty()) =~= (prev + seq![suf])
                    + Seq::<Seq<char>>::empty());
                assert(seq![suf] + Seq::<Seq<char>>::empty() =~= seq![suf]);
            }
            pos = n;
        }
    }
    proof {
        assert(s@.subrange(n as int, n as int) =~= Seq::<char>::empty());
        assert(out.deep_view() + Seq::<Seq<char>>::empty() =~= out.deep_view());
    }
    out
}

proof fn lemma_split_name_value_found(l: Seq<char>, i: int)
    requires
        0 <= i,
        i + 2 <= l.len(),
        l[i] == ':',
        l[i + 1] == ' ',
        forall|j: int| 0 <= j < i ==> !((#[trigger] l[j]) == ':' && l[j + 1] == ' '),
    ensures
        split_name_value(l) == Some((l.subrange(0, i), l.subrange(i + 2, l.len() as int))),
    decreases i,
{
    if i == 0 {
        assert(l.subrange(0, 0) =~= Seq::<char>::empty());
    } else {
        let d = l.drop_first();
        assert forall|j: int| 0 <= j < i - 1 implies !((#[trigger] d[j]) == ':' && d[j + 1] == ' ') by {
            assert(d[j] == l[j + 1]);
            assert(d[j + 1] == l[j + 2]);
        }
        assert(d[i - 1] == l[i]);
        assert(d[i] == l[i + 1]);
        lemma_split_name_value_found(d, i - 1);
        assert(seq![l[0]] + d.subrange(0, i - 1) =~= l.subrange(0, i));
        assert(d.subrange(i + 1, d.len() as int) =~= l.subrange(i + 2, l.len() as int));
    }
}

proof fn lemma_split_name_value_none(l: Seq<char>)
    requires
        forall|j: int| 0 <= j && j + 2 <= l.len() ==> !((#[trigger] l[j]) == ':' && l[j + 1] == ' '),
    ensures
        split_name_value(l) is None,
    decreases l.len(),
{
    if l.len() < 2 {
    } else {
        let d = l.drop_first();
        assert forall|j: int| 0 <= j && j + 2 <= d.len() implies !((#[trigger] d[j]) == ':' && d[j + 1] == ' ')
            by {
            assert(d[j] == l[j + 1]);
            assert(d[j + 1] == l[j + 2]);
        }
        lemma_split_name_value_none(d);
    }
}

/// Splits one header line at the first `": "`.
pub fn split_header_line(l: &str) -> (r: Option<(String, String)>)
    ensures
        r.deep_view() == split_name_value(l@),
{
    let n = l.unicode_len();
    if n < 2 {
        proof {
            lemma_split_name_value_none(l@);
        }
        return None;
    }
    let mut i: usize = 0;
    while i < n - 1
        invariant
            n == l@.len(),
            2 <= n,
            i <= n - 1,
            forall|j: int| 0 <= j < i ==> !((#[trigger] l@[j]) == ':' && l@[j + 1] == ' '),
        decreases n - i,
    {
        if l.get_char(i) == ':' && l.get_char(i + 1) == ' ' {
            let name = l.substring_char(0, i);
            let value = l.substring_char(i + 2, n);
            proof {
                lemma_split_name_value_found(l@, i as int);
            }
            return Some((name.to_owned(), value.to_owned()));
        }
        i += 1;
    }
    proof {
        lemma_split_name_value_none(l@);
    }
    None
}

/// Collects the name/value pairs of the given lines.
fn pairs_from_lines(lines: &Vec<String>) -> (r: Vec<(String, String)>)
    ensures
        r.deep_view() == pairs_of_lines(lines.deep_view()),
{
    let n = lines.len();
    let mut out: Vec<(String, String)> = Vec::new();
    proof {
        assert(lines.deep_view().subrange(0, n as int) =~= lines.deep_view());
        assert(out.deep_view() =~= Seq::<(Seq<char>, Seq<char>)>::empty());
    }
    let mut k: usize = 0;
    while k < n
        invariant
            n == lines.len(),
            k <= n,
            pairs_of_lines(lines.deep_view()) == out.deep_view() + pairs_of_lines(
                lines.deep_view().subrange(k as int, n as int),
            ),
        decreases n - k,
    {
        let ghost suf = lines.deep_view().subrange(k as int, n as int);
        proof {
            assert(suf[0] == lines.deep_view()[k as int]);
            assert(suf.drop_first() =~= lines.deep_view().subrange(k as int + 1, n as int));
        }
        let ghost prev = out.deep_view();
        match split_header_line(lines[k].as_str()) {
            Some(p) => {
                out.push(p);
                proof {
                    let ns = lines.deep_view().subrange(k as int + 1, n as int);
                    assert(out.deep_view() =~= prev + seq![split_name_value(suf[0]).unwrap()]);
                    assert(prev + (seq![split_name_value(suf[0]).unwrap()] + pairs_of_lines(ns))
                        =~= (prev + seq![split_name_value(suf[0]).unwrap()]) + pairs_of_lines(ns));
                }
            },
            None => {},
        }
        k += 1;
    }
    proof {
        assert(lines.deep_view().subrange(n as int, n as int) =~= Seq::<Seq<char>>::empty());
        assert(out.deep_view() + Seq::<(Seq<char>, Seq<char>)>::empty() =~= out.deep_view());
    }
    out
}

/// Parses the addresses of the named header, or none when it is absent.
fn addrs_for(headers: &Vec<(String, String)>, key: &str) -> (r: Vec<EmailAddress>)
    ensures
        r.deep_view() == addrs_in(headers.deep_view(), key@),
        r@.len() == r.deep_view().len(),
{
    match assoc_get(headers, key) {
        Some(v) => parse_addr_list(v.as_str()),
        None => {
            let e: Vec<EmailAddress> = Vec::new();
            proof {
                assert(e.deep_view() =~= Seq::<EmailAddressV>::empty());
            }
            e
        },
    }
}

/// Looks up the value of the last pair carrying this name.
pub fn assoc_get(pairs: &Vec<(String, String)>, key: &str) -> (r: Option<String>)
    ensures
        r.deep_view() == assoc_last(pairs.deep_view(), key@),
{
    let n = pairs.len();
    let mut k: usize = n;
    proof {
        assert(pairs.deep_view().subrange(0, n as int) =~= pairs.deep_view());
    }
    while k > 0
        invariant
            n == pairs.len(),
            k <= n,
            assoc_last(pairs.deep_view(), key@) == assoc_last(
                pairs.deep_view().subrange(0, k as int),
                key@,
            ),
        decreases k,
    {
        let ghost pre = pairs.deep_view().subrange(0, k as int);
        proof {
            assert(pre.last() == pairs.deep_view()[k - 1]);
            assert(pre.drop_last() =~= pairs.deep_view().subrange(0, k as int - 1));
        }
        if str_eq(pairs[k - 1].0.as_str(), key) {
            return Some(pairs[k - 1].1.clone());
        }
        k -= 1;
    }
    proof {
        assert(pairs.deep_view().subrange(0, 0) =~= Seq::<(Seq<char>, Seq<char>)>::empty());
    }
    None
}

impl Message {
    /// Builds a `Message` from the raw data of one fetch record: header
    /// bytes, label and flag strings, the server's internal date, and an
    /// optional provider thread id.
    pub fn new(
        uid: u32,
        seq: u32,
        raw_headers: Vec<u8>,
        raw_labels: Vec<String>,
        internal_date: String,
        gmail_thread_id: Option<String>,
    ) -> (m: Message)
        ensures
            m@ == new_message_spec(
                uid,
                seq,
                raw_headers@,
                raw_labels.deep_view(),
                internal_date@,
                gmail_thread_id.deep_view(),
            ),
    {
        let text = lossy_string(raw_headers.as_slice());
        let lines = split_lines_exec(text.as_str());
        let headers = pairs_from_lines(&lines);

        let mut to = addrs_for(&headers, "To");
        if to.len() == 0 {
            proof {
                assert(to.deep_view().len() == 0);
            }
            to = addrs_for(&headers, "Delivered-To");
        }
        let cc = addrs_for(&headers, "Cc");
        let from = addrs_for(&headers, "From");
        let subject = match assoc_get(&headers, "Subject") {
            Some(v) => v,
            None => String::new(),
        };

        let mut labels: Vec<Label> = Vec::new();
        let mut i: usize = 0;
        while i < raw_labels.len()
            invariant
                i <= raw_labels.len(),
                labels.deep_view() =~= raw_labels.deep_view().subrange(0, i as int).map_values(
                    |s: Seq<char>| normalize_label(s),
                ),
            decreases raw_labels.len() - i,
        {
            let ghost prev = labels.deep_view();
            labels.push(Label::new(raw_labels[i].as_str()));
            proof {
                assert(labels.deep_view() =~= prev.push(normalize_label(raw_labels.deep_view()[
                    i as int])));
                assert(raw_labels.deep_view().subrange(0, i as int + 1).map_values(
                    |s: Seq<char>| normalize_label(s),
                ) =~= prev.push(normalize_label(raw_labels.deep_view()[i as int])));
            }
            i += 1;
        }
        proof {
            assert(raw_labels.deep_view().subrange(0, raw_labels.len() as int) =~= raw_labels
                .deep_view());
        }

        let message_id = assoc_get(&headers, "Message-ID");
        let in_reply_to = assoc_get(&headers, "In-Reply-To");
        let references = match assoc_get(&headers, "References") {
            Some(v) => split_whitespace_x(v.as_str()),
            None => {
                let e: Vec<String> = Vec::new();
                proof {
                    assert(e.deep_view() =~= Seq::<Seq<char>>::empty());
                }
                e
            },
        };

        let m = Message {
            uid,
            seq,
            to,
            cc,
            from,
            subject,
            date: internal_date,
            labels,
            headers,
            message_id,
            in_reply_to,
            references,
            thread_id: gmail_thread_id,
        };
        m
    }

    /// The value of the named header, if the message carries it; of repeated
    /// headers the last one governs, as in a map built by insertion.
    pub fn header_get(&self, name: &str) -> (r: Option<String>)
        ensures
            r.deep_view() == assoc_last(self@.headers, name@),
    {
        assoc_get(&self.headers, name)
    }

    /// The display name of the first sender, or its address when the name is
    /// empty, or the empty string without any sender.
    pub fn sender_display(&self) -> (r: String)
        ensures
            r@ == sender_display_spec(self@),
    {
        if self.from.len() == 0 {
            String::new()
        } else {
            let a = &self.from[0];
            if a.name.as_str().unicode_len() == 0 {
                proof {
                    assert(a.name@.len() == 0);
                }
                a.email.clone()
            } else {
                a.name.clone()
            }
        }
    }
}

/// What [`Message::sender_display`] returns.
pub open spec fn sender_display_spec(m: MessageV) -> Seq<char> {
    if m.from.len() == 0 {
        Seq::empty()
    } else if m.from[0].name.len() == 0 {
        m.from[0].email
    } else {
        m.from[0].name
    }
}

/// Clones a list of addresses, keeping its value.
fn clone_addr_vec(v: &Vec<EmailAddress>) -> (r: Vec<EmailAddress>)
    ensures
        r.deep_view() == v.deep_view(),
{
    let mut out: Vec<EmailAddress> = Vec::new();
    let mut i: usize = 0;
    while i < v.len()
        invariant
            i <= v.len(),
            out.deep_view() =~= v.deep_view().subrange(0, i as int),
        decreases v.len() - i,
    {
        let ghost prev = out.deep_view();
        out.push(v[i].clone());
        proof {
            assert(out.deep_view() =~= prev.push(v.deep_view()[i as int]));
            assert(v.deep_view().subrange(0, i as int + 1) =~= prev.push(v.deep_view()[i as int]));
        }
        i += 1;
    }
    proof {
        assert(v.deep_view().subrange(0, v.len() as int) =~= v.deep_view());
    }
    out
}

/// Clones a list of labels, keeping its value.
pub fn clone_label_vec(v: &Vec<Label>) -> (r: Vec<Label>)
    ensures
        r.deep_view() == v.deep_view(),
{
    let mut out: Vec<Label> = Vec::new();
    let mut i: usize = 0;
    while i < v.len()
        invariant
            i <= v.len(),
            out.deep_view() =~= v.deep_view().subrange(0, i as int),
        decreases v.len() - i,
    {
        let ghost prev = out.deep_view();
        out.push(v[i].clone());
        proof {
            assert(out.deep_view() =~= prev.push(v.deep_view()[i as int]));
            assert(v.deep_view().subrange(0, i as int + 1) =~= prev.push(v.deep_view()[i as int]));
        }
        i += 1;
    }
    proof {
        assert(v.deep_view().subrange(0, v.len() as int) =~= v.deep_view());
    }
    out
}

/// Clones a list of name/value pairs, keeping its value.
pub fn clone_pair_vec(v: &Vec<(String, String)>) -> (r: Vec<(String, String)>)
    ensures
        r.deep_view() == v.deep_view(),
{
    let mut out: Vec<(String, String)> = Vec::new();
    let mut i: usize = 0;
    while i < v.len()
        invariant
            i <= v.len(),
            out.deep_view() =~= v.deep_view().subrange(0, i as int),
        decreases v.len() - i,
    {
        let ghost prev = out.deep_view();
        out.push((v[i].0.clone(), v[i].1.clone()));
        proof {
            assert(out.deep_view() =~= prev.push(v.deep_view()[i as int]));
            assert(v.deep_view().subrange(0, i as int + 1) =~= prev.push(v.deep_view()[i as int]));
        }
        i += 1;
    }
    proof {
        assert(v.deep_view().subrange(0, v.len() as int) =~= v.deep_view());
    }
    out
}

/// Clones a list of strings, keeping its value.
pub fn clone_string_vec(v: &Vec<String>) -> (r: Vec<String>)
    ensures
        r.deep_view() == v.deep_view(),
{
    let mut out: Vec<String> = Vec::new();
    let mut i: usize = 0;
    while i < v.len()
        invariant
            i <= v.len(),
            out.deep_view() =~= v.deep_view().subrange(0, i as int),
        decreases v.len() - i,
    {
        let ghost prev = out.deep_view();
        out.push(v[i].clone());
        proof {
            assert(out.deep_view() =~= prev.push(v.deep_view()[i as int]));
            assert(v.deep_view().subrange(0, i as int + 1) =~= prev.push(v.deep_view()[i as int]));
        }
        i += 1;
    }
    proof {
        assert(v.deep_view().subrange(0, v.len() as int) =~= v.deep_view());
    }
    out
}

fn clone_opt_string(v: &Option<String>) -> (r: Option<String>)
    ensures
        r.deep_view() == v.deep_view(),
{
    match v {
        Some(s) => Some(s.clone()),
        None => None,
    }
}

/// Clones a list of messages, keeping its value.
pub fn clone_message_vec(v: &Vec<Message>) -> (r: Vec<Message>)
    ensures
        r.deep_view() == v.deep_view(),
{
    let mut out: Vec<Message> = Vec::new();
    let mut i: usize = 0;
    while i < v.len()
        invariant
            i <= v.len(),
            out.deep_view() =~= v.deep_view().subrange(0, i as int),
        decreases v.len() - i,
    {
        let ghost prev = out.deep_view();
        out.push(v[i].clone());
        proof {
            assert(out.deep_view() =~= prev.push(v.deep_view()[i as int]));
            assert(v.deep_view().subrange(0, i as int + 1) =~= prev.push(v.deep_view()[i as int]));
        }
        i += 1;
    }
    proof {
        assert(v.deep_view().subrange(0, v.len() as int) =~= v.deep_view());
    }
    out
}

impl Clone for Message {
    /// Clones the snapshot, keeping its value.
    fn clone(&self) -> (r: Message)
        ensures
            r@ == self@,
    {
        Message {
            uid: self.uid,
            seq: self.seq,
            to: clone_addr_vec(&self.to),
            cc: clone_addr_vec(&self.cc),
            from: clone_addr_vec(&self.from),
            subject: self.subject.clone(),
            date: self.date.clone(),
            labels: clone_label_vec(&self.labels),
            headers: clone_pair_vec(&self.headers),
            message_id: clone_opt_string(&self.message_id),
            in_reply_to: clone_opt_string(&self.in_reply_to),
            references: clone_string_vec(&self.references),
            thread_id: clone_opt_string(&self.thread_id),
        }
    }
}

} // verus!
