//! Small verified helpers over strings and character sequences: equality,
//! searching, whitespace splitting, and decimal conversion. The engine's
//! parsers are built from these.

use vstd::prelude::*;
use vstd::string::*;

verus! {

/// Character-for-character string equality.
pub fn str_eq(a: &str, b: &str) -> (r: bool)
    ensures
        r == (a@ == b@),
{
    let n = a.unicode_len();
    if n != b.unicode_len() {
        return false;
    }
    let mut i: usize = 0;
    while i < n
        invariant
            n == a@.len(),
            n == b@.len(),
            i <= n,
            forall|j: int| 0 <= j < i ==> a@[j] == b@[j],
        decreases n - i,
    {
        if a.get_char(i) != b.get_char(i) {
            return false;
        }
        i += 1;
    }
    proof {
        assert(a@ =~= b@);
    }
    true
}

/// Index of the first occurrence of `c` in `s`, or `s.len()` if there is
/// none.
pub open spec fn index_of_char(s: Seq<char>, c: char) -> int
    decreases s.len(),
{
    if s.len() == 0 {
        0
    } else if s[0] == c {
        0
    } else {
        1 + index_of_char(s.drop_first(), c)
    }
}

pub proof fn lemma_index_of_char(s: Seq<char>, c: char, i: int)
    requires
        0 <= i <= s.len(),
        forall|j: int| 0 <= j < i ==> s[j] != c,
        i < s.len() ==> s[i] == c,
    ensures
        index_of_char(s, c) == i,
    decreases i,
{
    if s.len() == 0 {
    } else if s[0] == c {
    } else {
        lemma_index_of_char(s.drop_first(), c, i - 1);
    }
}

/// Finds the first occurrence of `c` in `s` at or after `from`.
pub fn find_char(s: &str, from: usize, c: char) -> (r: usize)
    requires
        from <= s@.len(),
    ensures
        from <= r <= s@.len(),
        r < s@.len() ==> s@[r as int] == c,
        forall|j: int| from <= j < r ==> s@[j] != c,
        r - from == index_of_char(s@.subrange(from as int, s@.len() as int), c),
{
    let n = s.unicode_len();
    let mut i: usize = from;
    while i < n
        invariant
            n == s@.len(),
            from <= i <= n,
            forall|j: int| from <= j < i ==> s@[j] != c,
        decreases n - i,
    {
        if s.get_char(i) == c {
            proof {
                lemma_index_of_char(s@.subrange(from as int, n as int), c, i - from);
            }
            return i;
        }
        i += 1;
    }
    proof {
        lemma_index_of_char(s@.subrange(from as int, n as int), c, n - from);
    }
    n
}

/// The ASCII whitespace characters, as `str::split_whitespace` treats the
/// usual header text.
pub open spec fn is_space(c: char) -> bool {
    c == ' ' || c == '\t' || c == '\n' || c == '\r' || c == '\x0b' || c == '\x0c'
}

fn is_space_x(c: char) -> (r: bool)
    ensures
        r == is_space(c),
{
    c == ' ' || c == '\t' || c == '\n' || c == '\r' || c == '\x0b' || c == '\x0c'
}

/// The maximal whitespace-free runs of `s`, in order.
pub open spec fn split_ws(s: Seq<char>) -> Seq<Seq<char>>
    decreases s.len(),
{
    if s.len() == 0 {
        Seq::empty()
    } else if is_space(s[0]) {
        split_ws(s.drop_first())
    } else {
        let i0 = index_of_space(s);
        let i = if i0 < 1 {
            1
        } else if i0 > s.len() {
            s.len() as int
        } else {
            i0
        };
        seq![s.subrange(0, i)] + split_ws(s.subrange(i, s.len() as int))
    }
}

/// Index of the first whitespace character of `s`, or `s.len()`.
pub open spec fn index_of_space(s: Seq<char>) -> int
    decreases s.len(),
{
    if s.len() == 0 {
        0
    } else if is_space(s[0]) {
        0
    } else {
        1 + index_of_space(s.drop_first())
    }
}

pub proof fn lemma_index_of_space(s: Seq<char>, i: int)
    requires
        0 <= i <= s.len(),
        forall|j: int| 0 <= j < i ==> !is_space(s[j]),
        i < s.len() ==> is_space(s[i]),
    ensures
        index_of_space(s) == i,
    decreases i,
{
    if s.len() == 0 {
    } else if is_space(s[0]) {
    } else {
        lemma_index_of_space(s.drop_first(), i - 1);
    }
}

/// Splits `s` into its maximal whitespace-free runs.
pub fn split_whitespace_x(s: &str) -> (r: Vec<String>)
    ensures
        r.deep_view() == split_ws(s@),
{
    let n = s.unicode_len();
    let mut out: Vec<String> = Vec::new();
    let mut pos: usize = 0;
    proof {
        assert(s@.subrange(0, n as int) =~= s@);
        assert(out.deep_view() =~= Seq::<Seq<char>>::empty());
        assert(out.deep_view() + split_ws(s@) =~= split_ws(s@));
    }
    while pos < n
        invariant
            n == s@.len(),
            pos <= n,
            split_ws(s@) == out.deep_view() + split_ws(s@.subrange(pos as int, n as int)),
        decreases n - pos,
    {
        let c = s.get_char(pos);
        if is_space_x(c) {
            proof {
                let suf = s@.subrange(pos as int, n as int);
                assert(suf.drop_first() =~= s@.subrange(pos as int + 1, n as int));
            }
            pos += 1;
        } else {
            // find the end of the current run
            let mut end: usize = pos;
            while end < n && !is_space_x(s.get_char(end))
                invariant
                    n == s@.len(),
                    pos <= end <= n,
                    forall|j: int| pos <= j < end ==> !is_space(s@[j]),
                decreases n - end,
            {
                end += 1;
            }
            assert(end > pos);
            let word = s.substring_char(pos, end);
            let ghost prev = out.deep_view();
            proof {
                let suf = s@.subrange(pos as int, n as int);
                lemma_index_of_space(suf, end - pos);
                assert(suf.subrange(0, end - pos) =~= s@.subrange(pos as int, end as int));
                assert(suf.subrange(end - pos, suf.len() as int) =~= s@.subrange(
                    end as int,
                    n as int,
                ));
            }
            out.push(String::from_str(word));
            proof {
                let ns = s@.subrange(end as int, n as int);
                assert(out.deep_view() =~= prev + seq![word@]);
                assert(prev + (seq![word@] + split_ws(ns)) =~= (prev + seq![word@]) + split_ws(
                    ns,
                ));
            }
            pos = end;
        }
    }
    proof {
        assert(s@.subrange(n as int, n as int) =~= Seq::<char>::empty());
        assert(out.deep_view() + Seq::<Seq<char>>::empty() =~= out.deep_view());
    }
    out
}

/// The decimal digit character for a value below ten.
pub open spec fn digit_char(d: int) -> char {
    ((48 + d) as u8) as char
}

/// The decimal writing of a nonnegative integer, most significant digit
/// first, with no leading zeros (a lone zero for zero).
pub open spec fn dec_of(n: int) -> Seq<char>
    decreases n,
{
    if n < 10 {
        seq![digit_char(if n < 0 { 0 } else { n })]
    } else {
        dec_of(n / 10) + seq![digit_char(n % 10)]
    }
}

fn digit_str(d: u8) -> (r: &'static str)
    requires
        d < 10,
    ensures
        r@ =~= seq![digit_char(d as int)],
{
    proof {
        reveal_strlit("0");
        reveal_strlit("1");
        reveal_strlit("2");
        reveal_strlit("3");
        reveal_strlit("4");
        reveal_strlit("5");
        reveal_strlit("6");
        reveal_strlit("7");
        reveal_strlit("8");
        reveal_strlit("9");
    }
    match d {
        0 => "0",
        1 => "1",
        2 => "2",
        3 => "3",
        4 => "4",
        5 => "5",
        6 => "6",
        7 => "7",
        8 => "8",
        _ => "9",
    }
}

/// Appends the decimal writing of `n` to `out`.
pub fn push_dec(out: &mut String, n: u64)
    ensures
        final(out)@ == old(out)@ + dec_of(n as int),
    decreases n,
{
    if n < 10 {
        out.append(digit_str(n as u8));
    } else {
        push_dec(out, n / 10);
        out.append(digit_str((n % 10) as u8));
        proof {
            assert(old(out)@ + dec_of(n as int / 10) + seq![digit_char(n as int % 10)] =~= old(
                out,
            )@ + dec_of(n as int));
        }
    }
}

/// True when `pat` occurs as a contiguous run inside `text`.
pub open spec fn contains_seq(text: Seq<char>, pat: Seq<char>) -> bool {
    exists|i: int|
        0 <= i && i + pat.len() <= text.len() && #[trigger] text.subrange(i, i + pat.len() as int)
            == pat
}

/// Substring search: whether `pat` occurs contiguously inside `text`.
pub fn contains_sub(text: &str, pat: &str) -> (r: bool)
    ensures
        r == contains_seq(text@, pat@),
{
    let n = text.unicode_len();
    let m = pat.unicode_len();
    if m > n {
        return false;
    }
    if m == 0 {
        proof {
            assert(text@.subrange(0, 0 + pat@.len() as int) =~= pat@);
        }
        return true;
    }
    let mut i: usize = 0;
    while i <= n - m
        invariant
            n == text@.len(),
            m == pat@.len(),
            1 <= m <= n,
            i <= n - m + 1,
            forall|k: int|
                0 <= k < i ==> #[trigger] text@.subrange(k, k + pat@.len() as int) != pat@,
        decreases n - i,
    {
        let mut j: usize = 0;
        let mut ok: bool = true;
        while j < m
            invariant
                n == text@.len(),
                m == pat@.len(),
                i + m <= n,
                j <= m,
                ok ==> forall|t: int| 0 <= t < j ==> text@[i + t] == pat@[t],
                !ok ==> text@.subrange(i as int, i + m as int) != pat@,
            decreases m - j,
        {
            if text.get_char(i + j) != pat.get_char(j) {
                proof {
                    assert(text@.subrange(i as int, i + m as int)[j as int] == text@[i + j]);
                }
                ok = false;
                j = m;
            } else {
                j += 1;
            }
        }
        if ok {
            proof {
                assert(text@.subrange(i as int, i + m as int) =~= pat@);
            }
            return true;
        }
        i += 1;
    }
    proof {
        assert forall|k: int| 0 <= k && k + pat@.len() <= text@.len() implies #[trigger] text@
            .subrange(k, k + pat@.len() as int) != pat@ by {
            assert(k < i);
        }
    }
    false
}

} // verus!
