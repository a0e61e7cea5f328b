//! Error classification and retry policy for remote mutations, and the
//! time-to-live duration syntax. Classification works on the remote error's
//! text; the retry policy decides, attempt by attempt, whether to back off
//! and try again or to fail with a structured error.

use vstd::prelude::*;
use vstd::string::*;

use crate::text::{contains_seq, is_space};

verus! {

/// The classification of a remote mailbox error, read off its text.
#[derive(Debug, Clone, Copy, PartialEq, Eq, Structural)]
pub enum ImapErrorKind {
    /// Rate limited by the server: back off and retry.
    RateLimit,
    /// Temporary server trouble: may succeed on retry.
    TransientError,
    /// The connection is gone.
    ConnectionLost,
    /// The message is gone or was already moved.
    MessageNotFound,
    /// A permanent refusal: do not retry.
    PermanentError,
    /// Nothing recognizable.
    Unknown,
}

/// ASCII lower-casing of one character; other characters are unchanged.
pub open spec fn lower_char(c: char) -> char {
    if 65 <= c as u32 && c as u32 <= 90 {
        ((c as u32 + 32) as u8) as char
    } else {
        c
    }
}

/// ASCII lower-casing of a character sequence.
pub open spec fn lower_seq(s: Seq<char>) -> Seq<char> {
    s.map_values(|c: char| lower_char(c))
}

/// Substring search against the ASCII-lowered text.
fn contains_in_lower(text: &str, pat: &str) -> (r: bool)
    ensures
        r == contains_seq(lower_seq(text@), pat@),
{
    let n = text.unicode_len();
    let m = pat.unicode_len();
    proof {
        assert(lower_seq(text@).len() == text@.len());
    }
    if m > n {
        return false;
    }
    if m == 0 {
        proof {
            assert(lower_seq(text@).subrange(0, 0 + pat@.len() as int) =~= pat@);
        }
        return true;
    }
    let mut i: usize = 0;
    while i <= n - m
        invariant
            n == text@.len(),
            m == pat@.len(),
            lower_seq(text@).len() == n,
            1 <= m <= n,
            i <= n - m + 1,
            forall|k: int|
                0 <= k < i ==> #[trigger] lower_seq(text@).subrange(k, k + pat@.len() as int)
                    != pat@,
        decreases n - i,
    {
        let mut j: usize = 0;
        let mut ok: bool = true;
        while j < m
            invariant
                n == text@.len(),
                m == pat@.len(),
                lower_seq(text@).len() == n,
                i + m <= n,
                j <= m,
                ok ==> forall|t: int| 0 <= t < j ==> lower_seq(text@)[i + t] == pat@[t],
                !ok ==> lower_seq(text@).subrange(i as int, i + m as int) != pat@,
            decreases m - j,
        {
            let c = text.get_char(i + j);
            let code: u32 = c as u32;
            let low: char = if 65 <= code && code <= 90 {
                ((code + 32) as u8) as char
            } else {
                c
            };
            assert(low == lower_char(text@[i + j]));
            assert(lower_seq(text@)[i + j] == low);
            if low != pat.get_char(j) {
                proof {
                    assert(lower_seq(text@).subrange(i as int, i + m as int)[j as int]
                        == lower_seq(text@)[i + j]);
                }
                ok = false;
                j = m;
            } else {
                j += 1;
            }
        }
        if ok {
            proof {
                assert(lower_seq(text@).subrange(i as int, i + m as int) =~= pat@);
            }
            return true;
        }
        i += 1;
    }
    proof {
        assert forall|k: int|
            0 <= k && k + pat@.len() <= lower_seq(text@).len() implies #[trigger] lower_seq(text@)
            .subrange(k, k + pat@.len() as int) != pat@ by {
            assert(k < i);
        }
    }
    false
}

/// Whether the lowered text holds the (lowercase) pattern.
pub open spec fn text_has(s: Seq<char>, pat: Seq<char>) -> bool {
    contains_seq(lower_seq(s), pat)
}

/// What [`classify_imap_error`] reads out of an error text: the first
/// classification whose indicator substrings occur, case-insensitively.
pub open spec fn classify_spec(s: Seq<char>) -> ImapErrorKind {
    if text_has(s, "too many"@) || text_has(s, "rate"@) || text_has(s, "throttl"@) || text_has(
        s,
        "quota"@,
    ) || text_has(s, "try again later"@) {
        ImapErrorKind::RateLimit
    } else if text_has(s, "system error"@) || text_has(s, "temporary"@) || text_has(
        s,
        "try again"@,
    ) || text_has(s, "service unavailable"@) || text_has(s, "internal error"@) {
        ImapErrorKind::TransientError
    } else if text_has(s, "connection"@) || text_has(s, "disconnected"@) || text_has(
        s,
        "broken pipe"@,
    ) || text_has(s, "reset by peer"@) || text_has(s, "timed out"@) || text_has(s, "eof"@) {
        ImapErrorKind::ConnectionLost
    } else if text_has(s, "no such message"@) || text_has(s, "not found"@) || text_has(
        s,
        "nonexistent"@,
    ) || text_has(s, "expunged"@) {
        ImapErrorKind::MessageNotFound
    } else if text_has(s, "permission denied"@) || text_has(s, "invalid"@) || text_has(
        s,
        "not supported"@,
    ) {
        ImapErrorKind::PermanentError
    } else {
        ImapErrorKind::Unknown
    }
}

/// Classifies a remote error from its text, case-insensitively, by the
/// first group of indicator substrings that occurs: rate limiting, then
/// transient trouble, connection loss, a missing message, a permanent
/// refusal, and unknown otherwise.
pub fn classify_imap_error(error_text: &str) -> (r: ImapErrorKind)
    ensures
        r == classify_spec(error_text@),
{
    if contains_in_lower(error_text, "too many") || contains_in_lower(error_text, "rate")
        || contains_in_lower(error_text, "throttl") || contains_in_lower(error_text, "quota")
        || contains_in_lower(error_text, "try again later") {
        return ImapErrorKind::RateLimit;
    }
    if contains_in_lower(error_text, "system error") || contains_in_lower(error_text, "temporary")
        || contains_in_lower(error_text, "try again") || contains_in_lower(
        error_text,
        "service unavailable",
    ) || contains_in_lower(error_text, "internal error") {
        return ImapErrorKind::TransientError;
    }
    if contains_in_lower(error_text, "connection") || contains_in_lower(
        error_text,
        "disconnected",
    ) || contains_in_lower(error_text, "broken pipe") || contains_in_lower(
        error_text,
        "reset by peer",
    ) || contains_in_lower(error_text, "timed out") || contains_in_lower(error_text, "eof") {
        return ImapErrorKind::ConnectionLost;
    }
    if contains_in_lower(error_text, "no such message") || contains_in_lower(
        error_text,
        "not found",
    ) || contains_in_lower(error_text, "nonexistent") || contains_in_lower(
        error_text,
        "expunged",
    ) {
        return ImapErrorKind::MessageNotFound;
    }
    if contains_in_lower(error_text, "permission denied") || contains_in_lower(
        error_text,
        "invalid",
    ) || contains_in_lower(error_text, "not supported") {
        return ImapErrorKind::PermanentError;
    }
    ImapErrorKind::Unknown
}

/// Whether a classification is worth another attempt.
pub open spec fn retryable(k: ImapErrorKind) -> bool {
    k == ImapErrorKind::RateLimit || k == ImapErrorKind::TransientError
}

/// The attempt ceiling of the retry policy.
pub const MAX_RETRIES: u32 = 3;

/// The first backoff delay, in milliseconds; it doubles after every failed
/// attempt.
pub const INITIAL_BACKOFF_MS: u64 = 1000;

/// The structured error of an exhausted or non-retryable remote mutation.
#[derive(Debug)]
pub struct RetryError {
    pub operation: String,
    pub uid: u32,
    pub attempts: u32,
    pub kind: ImapErrorKind,
    pub detail: String,
}

/// The mathematical value of a [`RetryError`].
pub struct RetryErrorV {
    pub operation: Seq<char>,
    pub uid: u32,
    pub attempts: u32,
    pub kind: ImapErrorKind,
    pub detail: Seq<char>,
}

impl View for RetryError {
    type V = RetryErrorV;

    open spec fn view(&self) -> RetryErrorV {
        RetryErrorV {
            operation: self.operation@,
            uid: self.uid,
            attempts: self.attempts,
            kind: self.kind,
            detail: self.detail@,
        }
    }
}

/// What the retry executor does after a failed attempt: sleep and try
/// again, or give up with the structured error.
#[derive(Debug)]
pub enum RetryDecision {
    Retry { sleep_ms: u64 },
    Fail(RetryError),
}

/// The per-operation retry state: how many attempts have failed and the
/// next backoff delay.
#[derive(Debug, Clone, Copy, PartialEq, Eq, Structural)]
pub struct RetryState {
    pub attempt: u32,
    pub backoff_ms: u64,
}

/// The backoff schedule: the delay doubles after every failed attempt.
pub open spec fn retry_state_wf(s: RetryState) -> bool {
    &&& s.attempt <= 3
    &&& (s.attempt == 0 ==> s.backoff_ms == 1000)
    &&& (s.attempt == 1 ==> s.backoff_ms == 2000)
    &&& (s.attempt == 2 ==> s.backoff_ms == 4000)
    &&& (s.attempt == 3 ==> s.backoff_ms == 8000)
}

impl RetryState {
    /// A fresh state: no attempt made, the first backoff pending.
    pub fn new() -> (s: RetryState)
        ensures
            s.attempt == 0,
            s.backoff_ms == 1000,
            retry_state_wf(s),
    {
        RetryState { attempt: 0, backoff_ms: INITIAL_BACKOFF_MS }
    }

    /// Decides what to do after one more failed attempt of `operation` on
    /// `uid` whose error reads `error_text`: retry after the current
    /// backoff exactly when the error classifies as rate limiting or
    /// transient and fewer than the ceiling of attempts have failed;
    /// otherwise fail with the structured error carrying the operation, the
    /// uid, the attempt count, the classification and the text.
    pub fn on_error(&mut self, operation: &str, uid: u32, error_text: &str) -> (d: RetryDecision)
        requires
            retry_state_wf(*old(self)),
            old(self).attempt < MAX_RETRIES,
        ensures
            retry_state_wf(*final(self)),
            final(self).attempt == old(self).attempt + 1,
            ({
                let k = classify_spec(error_text@);
                let att = old(self).attempt + 1;
                if retryable(k) && att < MAX_RETRIES {
                    d matches RetryDecision::Retry { sleep_ms } && sleep_ms == old(
                        self,
                    ).backoff_ms && final(self).backoff_ms == 2 * old(self).backoff_ms
                } else {
                    d matches RetryDecision::Fail(e) && e@.operation == operation@ && e@.uid == uid
                        && e@.attempts == att && e@.kind == k && e@.detail == error_text@
                }
            }),
    {
        self.attempt = self.attempt + 1;
        let kind = classify_imap_error(error_text);
        let should_retry = match kind {
            ImapErrorKind::RateLimit => true,
            ImapErrorKind::TransientError => true,
            _ => false,
        };
        let sleep_ms = self.backoff_ms;
        self.backoff_ms = self.backoff_ms * 2;
        if should_retry && self.attempt < MAX_RETRIES {
            RetryDecision::Retry { sleep_ms }
        } else {
            RetryDecision::Fail(
                RetryError {
                    operation: operation.to_owned(),
                    uid,
                    attempts: self.attempt,
                    kind,
                    detail: error_text.to_owned(),
                },
            )
        }
    }
}

/// An ASCII decimal digit.
pub open spec fn is_digit(c: char) -> bool {
    48 <= c as u32 <= 57
}

/// The value of one decimal digit.
pub open spec fn digit_val(c: char) -> int {
    c as u32 - 48
}

/// Every character of the sequence is a decimal digit.
pub open spec fn all_digits(s: Seq<char>) -> bool {
    forall|i: int| 0 <= i < s.len() ==> is_digit(#[trigger] s[i])
}

/// The value of a digit sequence read in base ten.
pub open spec fn dec_val(s: Seq<char>) -> int
    decreases s.len(),
{
    if s.len() == 0 {
        0
    } else {
        dec_val(s.drop_last()) * 10 + digit_val(s.last())
    }
}

proof fn lemma_dec_val_nonneg(s: Seq<char>)
    requires
        all_digits(s),
    ensures
        dec_val(s) >= 0,
    decreases s.len(),
{
    if s.len() > 0 {
        assert(all_digits(s.drop_last())) by {
            assert(forall|i: int| 0 <= i < s.len() - 1 ==> #[trigger] s.drop_last()[i] == s[i]);
        }
        lemma_dec_val_nonneg(s.drop_last());
    }
}

/// The digit part of an integer literal, after an optional sign.
pub open spec fn int_str_digits(s: Seq<char>) -> Seq<char> {
    if s.len() > 0 && (s[0] == '+' || s[0] == '-') {
        s.drop_first()
    } else {
        s
    }
}

/// Whether the literal is negative.
pub open spec fn int_str_neg(s: Seq<char>) -> bool {
    s.len() > 0 && s[0] == '-'
}

/// A well-formed integer literal: an optional sign and one or more digits.
pub open spec fn int_str_ok(s: Seq<char>) -> bool {
    int_str_digits(s).len() > 0 && all_digits(int_str_digits(s))
}

/// The value of a well-formed integer literal.
pub open spec fn int_str_val(s: Seq<char>) -> int {
    if int_str_neg(s) {
        -dec_val(int_str_digits(s))
    } else {
        dec_val(int_str_digits(s))
    }
}

/// Parses a signed decimal integer, rejecting anything malformed or out of
/// the i64 range.
fn parse_i64(s: &str) -> (r: Option<i64>)
    ensures
        r is Some <==> (int_str_ok(s@) && -9223372036854775808 <= int_str_val(s@)
            <= 9223372036854775807),
        r matches Some(v) ==> int_str_val(s@) == v as int,
{
    let n = s.unicode_len();
    if n == 0 {
        return None;
    }
    let c0 = s.get_char(0);
    let neg = c0 == '-';
    let start: usize = if c0 == '-' || c0 == '+' {
        1
    } else {
        0
    };
    let ghost digits = s@.subrange(start as int, n as int);
    proof {
        assert(digits =~= int_str_digits(s@));
        assert(neg == int_str_neg(s@));
    }
    if start == n {
        proof {
            assert(int_str_digits(s@).len() == 0);
        }
        return None;
    }
    let mut acc: i128 = 0;
    let mut i: usize = start;
    while i < n
        invariant
            n == s@.len(),
            start <= i <= n,
            digits == s@.subrange(start as int, n as int),
            digits == int_str_digits(s@),
            neg == int_str_neg(s@),
            all_digits(s@.subrange(start as int, i as int)),
            0 <= acc <= 9223372036854775809,
            dec_val(s@.subrange(start as int, i as int)) <= 9223372036854775808 ==> acc == dec_val(
                s@.subrange(start as int, i as int),
            ),
            dec_val(s@.subrange(start as int, i as int)) > 9223372036854775808 ==> acc
                == 9223372036854775809,
        decreases n - i,
    {
        let ghost prefix = s@.subrange(start as int, i as int);
        let c = s.get_char(i);
        let code: u32 = c as u32;
        if !(48 <= code && code <= 57) {
            proof {
                assert(digits =~= int_str_digits(s@));
                assert(!is_digit(c));
                assert(digits[i - start] == s@[i as int]);
                assert(0 <= i - start < digits.len());
                assert(!all_digits(digits)) by {
                    if all_digits(digits) {
                        assert(is_digit(digits[i - start]));
                    }
                }
            }
            return None;
        }
        let d: i128 = (code - 48) as i128;
        proof {
            let prefix2 = s@.subrange(start as int, i as int + 1);
            assert(prefix2.drop_last() =~= prefix);
            assert(prefix2.last() == s@[i as int]);
            assert(all_digits(prefix2)) by {
                assert(forall|t: int| 0 <= t < prefix.len() ==> prefix2[t] == prefix[t]);
            }
            lemma_dec_val_nonneg(prefix);
        }
        let next: i128 = acc * 10 + d;
        if next > 9223372036854775808 {
            acc = 9223372036854775809;
        } else {
            acc = next;
        }
        i += 1;
    }
    proof {
        assert(s@.subrange(start as int, n as int) == digits);
        assert(digits =~= int_str_digits(s@));
        assert(neg == int_str_neg(s@));
        lemma_dec_val_nonneg(digits);
    }
    if neg {
        if acc > 9223372036854775808 {
            proof {
                assert(dec_val(digits) > 9223372036854775808);
            }
            return None;
        }
        if acc == 9223372036854775808 {
            Some(i64::MIN)
        } else {
            Some(-(acc as i64))
        }
    } else {
        if acc > 9223372036854775807 {
            proof {
                assert(dec_val(digits) > 9223372036854775807);
            }
            return None;
        }
        Some(acc as i64)
    }
}

/// Whitespace removed from both ends.
pub open spec fn trim_ws(s: Seq<char>) -> Seq<char>
    decreases s.len(),
{
    if s.len() == 0 {
        s
    } else if is_space(s[0]) {
        trim_ws(s.drop_first())
    } else if is_space(s.last()) {
        trim_ws(s.drop_last())
    } else {
        s
    }
}

pub proof fn lemma_trim_ws_at(s: Seq<char>, lo: int, hi: int)
    requires
        0 <= lo <= hi <= s.len(),
        forall|j: int| 0 <= j < lo ==> is_space(#[trigger] s[j]),
        forall|j: int| hi <= j < s.len() ==> is_space(#[trigger] s[j]),
        lo < hi ==> !is_space(s[lo]) && !is_space(s[hi - 1]),
    ensures
        trim_ws(s) == s.subrange(lo, hi),
    decreases s.len(),
{
    if s.len() == 0 {
        assert(s.subrange(lo, hi) =~= s);
    } else if lo == hi {
        // all whitespace
        assert(is_space(s[0]));
        let d = s.drop_first();
        assert(forall|j: int| 0 <= j < d.len() ==> #[trigger] d[j] == s[j + 1]);
        lemma_trim_ws_at(d, 0, 0);
        assert(s.subrange(lo, hi) =~= d.subrange(0, 0));
    } else if is_space(s[0]) {
        assert(lo >= 1);
        let d = s.drop_first();
        assert(forall|j: int| 0 <= j < d.len() ==> #[trigger] d[j] == s[j + 1]);
        lemma_trim_ws_at(d, lo - 1, hi - 1);
        assert(d.subrange(lo - 1, hi - 1) =~= s.subrange(lo, hi));
    } else if is_space(s.last()) {
        assert(hi <= s.len() - 1);
        let d = s.drop_last();
        assert(forall|j: int| 0 <= j < d.len() ==> #[trigger] d[j] == s[j]);
        lemma_trim_ws_at(d, lo, hi);
        assert(d.subrange(lo, hi) =~= s.subrange(lo, hi));
    } else {
        assert(lo == 0);
        assert(hi == s.len());
        assert(s.subrange(0, s.len() as int) =~= s);
    }
}

/// The malformed time-to-live error: the text is not `<n>d`.
#[derive(Debug, PartialEq, Eq, Structural)]
pub struct TtlFormatError;

/// What [`parse_days`] accepts: the trimmed text must be an integer
/// followed by `d`, with the number of days in range.
pub open spec fn days_of(s: Seq<char>) -> Option<int> {
    let t = trim_ws(s);
    if t.len() >= 1 && t.last() == 'd' {
        let num = t.drop_last();
        if int_str_ok(num) && -9223372036854775808 <= int_str_val(num) <= 9223372036854775807 {
            Some(int_str_val(num))
        } else {
            None
        }
    } else {
        None
    }
}

/// Parses a time-to-live of the form `<n>d` — surrounding whitespace
/// tolerated — into a number of days; anything else is refused.
pub fn parse_days(s: &str) -> (r: Result<i64, TtlFormatError>)
    ensures
        r is Ok <==> days_of(s@) is Some,
        r matches Ok(d) ==> days_of(s@) == Some(d as int),
{
    let n = s.unicode_len();
    // trim whitespace from both ends
    let mut lo: usize = 0;
    while lo < n && is_space_ch(s.get_char(lo))
        invariant
            n == s@.len(),
            lo <= n,
            forall|j: int| 0 <= j < lo ==> is_space(#[trigger] s@[j]),
        decreases n - lo,
    {
        lo += 1;
    }
    let mut hi: usize = n;
    while hi > lo && is_space_ch(s.get_char(hi - 1))
        invariant
            n == s@.len(),
            lo <= hi <= n,
            forall|j: int| 0 <= j < lo ==> is_space(#[trigger] s@[j]),
            forall|j: int| hi <= j < n ==> is_space(#[trigger] s@[j]),
        decreases hi,
    {
        hi -= 1;
    }
    proof {
        if lo < n && !(lo < hi) {
            assert(!is_space(s@[lo as int]));
            assert(is_space(s@[lo as int]));
        }
        lemma_trim_ws_at(s@, lo as int, hi as int);
    }
    let t = s.substring_char(lo, hi);
    let ghost tv = trim_ws(s@);
    proof {
        assert(t@ == tv);
    }
    let tn = t.unicode_len();
    if tn == 0 {
        return Err(TtlFormatError);
    }
    if t.get_char(tn - 1) != 'd' {
        return Err(TtlFormatError);
    }
    let num = t.substring_char(0, tn - 1);
    proof {
        assert(num@ =~= tv.drop_last());
    }
    match parse_i64(num) {
        Some(v) => Ok(v),
        None => Err(TtlFormatError),
    }
}

fn is_space_ch(c: char) -> (r: bool)
    ensures
        r == is_space(c),
{
    c == ' ' || c == '\t' || c == '\n' || c == '\r' || c == '\x0b' || c == '\x0c'
}


/// The first index at or after `j` whose character is not whitespace, or
/// the length.
pub open spec fn ws_run_end(s: Seq<char>, j: int) -> int
    decreases s.len() - j,
{
    if !(0 <= j < s.len()) {
        s.len() as int
    } else if is_space(s[j]) {
        ws_run_end(s, j + 1)
    } else {
        j
    }
}

proof fn lemma_ws_run_end_at(s: Seq<char>, j: int, w: int)
    requires
        0 <= j <= w <= s.len(),
        forall|t: int| j <= t < w ==> is_space(#[trigger] s[t]),
        w < s.len() ==> !is_space(s[w]),
    ensures
        ws_run_end(s, j) == w,
    decreases w - j,
{
    if j < w {
        lemma_ws_run_end_at(s, j + 1, w);
    }
}

/// The first index at or after `k` whose character is not a digit, or the
/// length.
pub open spec fn digit_run_end(s: Seq<char>, k: int) -> int
    decreases s.len() - k,
{
    if !(0 <= k < s.len()) {
        s.len() as int
    } else if is_digit(s[k]) {
        digit_run_end(s, k + 1)
    } else {
        k
    }
}

proof fn lemma_digit_run_end_at(s: Seq<char>, k: int, d: int)
    requires
        0 <= k <= d <= s.len(),
        forall|t: int| k <= t < d ==> is_digit(#[trigger] s[t]),
        d < s.len() ==> !is_digit(s[d]),
    ensures
        digit_run_end(s, k) == d,
    decreases d - k,
{
    if k < d {
        lemma_digit_run_end_at(s, k + 1, d);
    }
}

/// Whether the literal field occurs at `i`, followed by at least one
/// whitespace character and then at least one digit.
pub open spec fn gm_match_at(s: Seq<char>, field: Seq<char>, i: int) -> bool {
    &&& 0 <= i
    &&& i + field.len() < s.len()
    &&& s.subrange(i, i + field.len() as int) == field
    &&& is_space(s[i + field.len()])
    &&& ws_run_end(s, i + field.len()) < s.len()
    &&& is_digit(s[ws_run_end(s, i + field.len())])
}

/// The captured digits of a match at `i`: the maximal digit run after the
/// whitespace run.
pub open spec fn gm_value_at(s: Seq<char>, field: Seq<char>, i: int) -> Seq<char> {
    let w = ws_run_end(s, i + field.len());
    s.subrange(w, digit_run_end(s, w))
}

/// The first index holding a match, scanning left to right.
pub open spec fn gm_first(s: Seq<char>, field: Seq<char>, from: int) -> Option<int>
    decreases s.len() - from,
{
    if !(0 <= from < s.len()) {
        None
    } else if gm_match_at(s, field, from) {
        Some(from)
    } else {
        gm_first(s, field, from + 1)
    }
}

proof fn lemma_gm_first_at(s: Seq<char>, field: Seq<char>, i: int)
    requires
        0 <= i <= s.len(),
        forall|t: int| 0 <= t < i ==> !gm_match_at(s, field, t),
        i < s.len() ==> gm_match_at(s, field, i),
    ensures
        i < s.len() ==> gm_first(s, field, 0) == Some(i),
        i == s.len() ==> gm_first(s, field, 0) is None,
{
    lemma_gm_first_from(s, field, 0, i);
}

proof fn lemma_gm_first_from(s: Seq<char>, field: Seq<char>, from: int, i: int)
    requires
        0 <= from <= i <= s.len(),
        forall|t: int| from <= t < i ==> !gm_match_at(s, field, t),
        i < s.len() ==> gm_match_at(s, field, i),
    ensures
        i < s.len() ==> gm_first(s, field, from) == Some(i),
        i == s.len() ==> gm_first(s, field, from) is None,
    decreases i - from,
{
    if from < i {
        lemma_gm_first_from(s, field, from + 1, i);
    }
}

/// What [`extract_gmail_extension`] reads out of raw fetch output: the
/// digit run after the leftmost occurrence of the field name followed by
/// whitespace and digits; nothing when no such occurrence exists.
pub open spec fn gm_extension_of(s: Seq<char>, field: Seq<char>) -> Option<Seq<char>> {
    match gm_first(s, field, 0) {
        Some(i) => Some(gm_value_at(s, field, i)),
        None => None,
    }
}

fn is_space_char(c: char) -> (r: bool)
    ensures
        r == is_space(c),
{
    c == ' ' || c == '\t' || c == '\n' || c == '\r' || c == '\x0b' || c == '\x0c'
}

fn is_digit_char(c: char) -> (r: bool)
    ensures
        r == is_digit(c),
{
    let code: u32 = c as u32;
    48 <= code && code <= 57
}

/// Whether the field occurs literally at `i`, followed by whitespace and a
/// digit; on success also finds the run boundaries.
fn gm_try_at(raw: &str, field: &str, i: usize) -> (r: Option<(usize, usize)>)
    requires
        i < raw@.len(),
    ensures
        r is Some <==> gm_match_at(raw@, field@, i as int),
        r matches Some((w, d)) ==> {
            &&& w as int == ws_run_end(raw@, i + field@.len())
            &&& d as int == digit_run_end(raw@, w as int)
            &&& i + field@.len() <= w < d <= raw@.len()
        },
{
    let n = raw.unicode_len();
    let m = field.unicode_len();
    if m >= n - i {
        proof {
            assert(!gm_match_at(raw@, field@, i as int));
        }
        return None;
    }
    // the field must stand literally at i
    let mut t: usize = 0;
    while t < m
        invariant
            n == raw@.len(),
            m == field@.len(),
            i + m < n,
            t <= m,
            forall|q: int| 0 <= q < t ==> raw@[i + q] == field@[q],
        decreases m - t,
    {
        if raw.get_char(i + t) != field.get_char(t) {
            proof {
                assert(raw@.subrange(i as int, i + field@.len() as int)[t as int] == raw@[i + t]);
                assert(raw@.subrange(i as int, i + field@.len() as int) != field@);
            }
            return None;
        }
        t += 1;
    }
    proof {
        assert(raw@.subrange(i as int, i + field@.len() as int) =~= field@);
    }
    // at least one whitespace character
    let j = i + m;
    if !is_space_char(raw.get_char(j)) {
        proof {
            assert(!is_space(raw@[j as int]));
        }
        return None;
    }
    // find the end of the whitespace run
    let mut w: usize = j;
    while w < n && is_space_char(raw.get_char(w))
        invariant
            n == raw@.len(),
            j <= w <= n,
            forall|q: int| j <= q < w ==> is_space(#[trigger] raw@[q]),
        decreases n - w,
    {
        w += 1;
    }
    proof {
        lemma_ws_run_end_at(raw@, j as int, w as int);
    }
    if w >= n {
        return None;
    }
    // at least one digit
    if !is_digit_char(raw.get_char(w)) {
        proof {
            assert(!is_digit(raw@[w as int]));
        }
        return None;
    }
    // find the end of the digit run
    let mut d: usize = w;
    while d < n && is_digit_char(raw.get_char(d))
        invariant
            n == raw@.len(),
            w <= d <= n,
            forall|q: int| w <= q < d ==> is_digit(#[trigger] raw@[q]),
        decreases n - d,
    {
        d += 1;
    }
    proof {
        lemma_digit_run_end_at(raw@, w as int, d as int);
        assert(is_digit(raw@[w as int]));
    }
    Some((w, d))
}

/// Reads a numeric provider-extension value out of raw fetch output: the
/// digits after the leftmost occurrence of the field name followed by
/// whitespace.
pub fn extract_gmail_extension(raw: &str, field: &str) -> (r: Option<String>)
    ensures
        r.deep_view() == gm_extension_of(raw@, field@),
{
    let n = raw.unicode_len();
    let mut i: usize = 0;
    while i < n
        invariant
            n == raw@.len(),
            i <= n,
            forall|t: int| 0 <= t < i ==> !gm_match_at(raw@, field@, t),
        decreases n - i,
    {
        match gm_try_at(raw, field, i) {
            Some((w, d)) => {
                proof {
                    lemma_gm_first_at(raw@, field@, i as int);
                }
                let cap = raw.substring_char(w, d);
                return Some(cap.to_owned());
            },
            None => {},
        }
        i += 1;
    }
    proof {
        lemma_gm_first_at(raw@, field@, n as int);
    }
    None
}

} // verus!
