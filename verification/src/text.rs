//! Character-level helpers shared by the header and document parsers.
//!
//! Lines of the wire format are sequences of unicode characters; blanks are
//! the ASCII space and tab.  Trimming and token scanning are specified by
//! recursive functions over `Seq<char>` and proved against index-based
//! executable loops.

use vstd::prelude::*;
use vstd::string::StrSliceExecFns;
use vstd::string::StringSliceAdditionalSpecFns;

verus! {

/// A blank character: space or horizontal tab.
pub open spec fn is_blank(c: char) -> bool {
    c == ' ' || c == '\t'
}

/// `s` without its leading blanks.
pub open spec fn trim_front(s: Seq<char>) -> Seq<char>
    decreases s.len(),
{
    if s.len() > 0 && is_blank(s[0]) {
        trim_front(s.skip(1))
    } else {
        s
    }
}

/// `s` without its trailing blanks.
pub open spec fn trim_back(s: Seq<char>) -> Seq<char>
    decreases s.len(),
{
    if s.len() > 0 && is_blank(s[s.len() - 1]) {
        trim_back(s.take(s.len() - 1))
    } else {
        s
    }
}

/// `s` without leading and trailing blanks.
pub open spec fn trim_spec(s: Seq<char>) -> Seq<char> {
    trim_back(trim_front(s))
}

/// A trimmed remainder, dropped entirely when nothing but blanks is left.
pub open spec fn clean_up_spec(s: Seq<char>) -> Option<Seq<char>> {
    let t = trim_spec(s);
    if t.len() == 0 {
        None
    } else {
        Some(t)
    }
}

/// Trimming the front removes exactly the leading run of blanks.
pub proof fn lemma_trim_front_skip(s: Seq<char>, k: int)
    requires
        0 <= k <= s.len(),
        forall|j: int| 0 <= j < k ==> is_blank(s[j]),
        k < s.len() ==> !is_blank(s[k]),
    ensures
        trim_front(s) == s.skip(k),
    decreases k,
{
    if k == 0 {
        assert(s.skip(0) =~= s);
    } else {
        assert(is_blank(s[0]));
        lemma_trim_front_skip(s.skip(1), k - 1);
        assert(s.skip(1).skip(k - 1) =~= s.skip(k));
    }
}

/// Trimming the back removes exactly the trailing run of blanks.
pub proof fn lemma_trim_back_take(s: Seq<char>, k: int)
    requires
        0 <= k <= s.len(),
        forall|j: int| k <= j < s.len() ==> is_blank(s[j]),
        k > 0 ==> !is_blank(s[k - 1]),
    ensures
        trim_back(s) == s.take(k),
    decreases s.len() - k,
{
    if k == s.len() {
        if s.len() > 0 {
            assert(!is_blank(s[s.len() - 1]));
        }
        assert(s.take(s.len() as int) =~= s);
    } else {
        assert(is_blank(s[s.len() - 1]));
        lemma_trim_back_take(s.take(s.len() - 1), k);
        assert(s.take(s.len() - 1).take(k) =~= s.take(k));
    }
}

/// Trimming the front never lengthens a sequence.
pub proof fn lemma_trim_front_len(s: Seq<char>)
    ensures
        trim_front(s).len() <= s.len(),
    decreases s.len(),
{
    if s.len() > 0 && is_blank(s[0]) {
        lemma_trim_front_len(s.skip(1));
    }
}

/// Trimming the back never lengthens a sequence.
pub proof fn lemma_trim_back_len(s: Seq<char>)
    ensures
        trim_back(s).len() <= s.len(),
    decreases s.len(),
{
    if s.len() > 0 && is_blank(s[s.len() - 1]) {
        lemma_trim_back_len(s.take(s.len() - 1));
    }
}

/// What trimming the back leaves never ends in a blank.
pub proof fn lemma_trim_back_last(s: Seq<char>)
    ensures
        trim_back(s).len() > 0 ==> !is_blank(trim_back(s)[trim_back(s).len() - 1]),
    decreases s.len(),
{
    if s.len() > 0 && is_blank(s[s.len() - 1]) {
        lemma_trim_back_last(s.take(s.len() - 1));
    }
}

/// What trimming the front leaves never starts with a blank.
pub proof fn lemma_trim_front_first(s: Seq<char>)
    ensures
        trim_front(s).len() > 0 ==> !is_blank(trim_front(s)[0]),
    decreases s.len(),
{
    if s.len() > 0 && is_blank(s[0]) {
        lemma_trim_front_first(s.skip(1));
    }
}

/// Trimming the back leaves a prefix of the input.
pub proof fn lemma_trim_back_prefix(s: Seq<char>)
    ensures
        trim_back(s).len() <= s.len(),
        forall|j: int| 0 <= j < trim_back(s).len() ==> trim_back(s)[j] == s[j],
    decreases s.len(),
{
    if s.len() > 0 && is_blank(s[s.len() - 1]) {
        lemma_trim_back_prefix(s.take(s.len() - 1));
        assert forall|j: int| 0 <= j < trim_back(s).len() implies trim_back(s)[j] == s[j] by {
            assert(trim_back(s)[j] == s.take(s.len() - 1)[j]);
        }
    }
}

/// Trimming is idempotent.
pub proof fn lemma_trim_spec_trimmed(s: Seq<char>)
    ensures
        trim_spec(trim_spec(s)) == trim_spec(s),
{
    let f = trim_front(s);
    let t = trim_spec(s);
    if t.len() == 0 {
        assert(trim_front(t) =~= t);
    } else {
        lemma_trim_back_len(f);
        lemma_trim_back_last(f);
        lemma_trim_back_prefix(f);
        lemma_trim_front_first(s);
        assert(t[0] == f[0]);
        assert(!is_blank(t[0]));
        assert(!is_blank(t[t.len() - 1]));
    }
}

/// A non-empty sequence that is its own trim neither starts nor ends with a
/// blank.
pub proof fn lemma_trimmed_ends(c: Seq<char>)
    requires
        trim_spec(c) == c,
        c.len() > 0,
    ensures
        !is_blank(c[0]),
        !is_blank(c[c.len() - 1]),
{
    if is_blank(c[0]) {
        lemma_trim_front_len(c.skip(1));
        lemma_trim_back_len(trim_front(c.skip(1)));
        assert(false);
    }
    lemma_trim_back_last(c);
}

/// A single leading blank disappears under trimming.
pub proof fn lemma_trim_blank_prefix(c: Seq<char>)
    requires
        trim_spec(c) == c,
    ensures
        trim_spec(seq![' '] + c) == c,
{
    let s = seq![' '] + c;
    assert(s.len() == 1 + c.len());
    assert(s[0] == ' ');
    assert(s.skip(1) =~= c);
    if c.len() == 0 {
        assert(trim_front(c) =~= c);
    } else {
        lemma_trimmed_ends(c);
    }
}

/// The line terminator of the wire format.
pub open spec fn crlf() -> Seq<char> {
    seq!['\r', '\n']
}

/// A line-terminator character.
pub open spec fn is_line_break(c: char) -> bool {
    c == '\r' || c == '\n'
}

/// Index of the first line-terminator character of `s`, or `s.len()` when
/// there is none.
pub open spec fn content_end(s: Seq<char>) -> nat
    decreases s.len(),
{
    if s.len() == 0 {
        0
    } else if is_line_break(s[0]) {
        0
    } else {
        1 + content_end(s.skip(1))
    }
}

/// [`content_end`] points at the first line terminator, if any.
pub proof fn lemma_content_end(s: Seq<char>)
    ensures
        content_end(s) <= s.len(),
        forall|j: int| 0 <= j < content_end(s) ==> !is_line_break(s[j]),
    decreases s.len(),
{
    if s.len() > 0 && !is_line_break(s[0]) {
        lemma_content_end(s.skip(1));
        assert forall|j: int| 0 <= j < content_end(s) implies !is_line_break(s[j]) by {
            if j > 0 {
                assert(s[j] == s.skip(1)[j - 1]);
            }
        }
    }
}

/// Any index with no terminator before it and a terminator (or the end) at it
/// is [`content_end`].
pub proof fn lemma_content_end_at(s: Seq<char>, k: int)
    requires
        0 <= k <= s.len(),
        forall|j: int| 0 <= j < k ==> !is_line_break(s[j]),
        k < s.len() ==> is_line_break(s[k]),
    ensures
        content_end(s) == k,
    decreases k,
{
    if k == 0 {
    } else {
        lemma_content_end_at(s.skip(1), k - 1);
    }
}

/// Exact executable counterpart of [`is_blank`].
pub fn is_blank_char(c: char) -> (r: bool)
    ensures
        r == is_blank(c),
{
    c == ' ' || c == '\t'
}

/// Characters accepted in the URL token of a link line: everything up to the
/// first blank belongs to the URL.
pub fn is_valid_link_char(c: char) -> (r: bool)
    ensures
        r == !is_blank(c),
{
    !(c == ' ' || c == '\t')
}

/// Removes leading and trailing blanks.
pub fn trim<'a>(s: &'a str) -> (r: &'a str)
    ensures
        r@ == trim_spec(s@),
{
    let n = s.unicode_len();
    let mut lo: usize = 0;
    while lo < n && is_blank_char(s.get_char(lo))
        invariant
            0 <= lo <= n,
            n == s@.len(),
            forall|j: int| 0 <= j < lo ==> is_blank(s@[j]),
        decreases n - lo,
    {
        lo = lo + 1;
    }
    let mut hi: usize = n;
    while hi > lo && is_blank_char(s.get_char(hi - 1))
        invariant
            lo <= hi <= n,
            n == s@.len(),
            forall|j: int| hi <= j < n ==> is_blank(s@[j]),
        decreases hi,
    {
        hi = hi - 1;
    }
    let r = s.substring_char(lo, hi);
    proof {
        lemma_trim_front_skip(s@, lo as int);
        lemma_trim_back_take(s@.skip(lo as int), hi - lo);
        assert(r@ =~= trim_spec(s@));
    }
    r
}

/// The trimmed remainder, or `None` when only blanks are left.
pub fn str_clean_up<'a>(i: &'a str) -> (r: Option<&'a str>)
    ensures
        match r {
            Some(t) => clean_up_spec(i@) == Some(t@),
            None => clean_up_spec(i@) is None,
        },
{
    let t = trim(i);
    if t.unicode_len() == 0 {
        None
    } else {
        Some(t)
    }
}

/// Exact executable counterpart of [`is_line_break`].
pub fn is_break_char(c: char) -> (r: bool)
    ensures
        r == is_line_break(c),
{
    c == '\r' || c == '\n'
}

/// Relies on core::str::from_utf8: it succeeds exactly on valid UTF-8 input
/// and preserves the bytes.
#[verifier::external_body]
pub(crate) fn bytes_as_str(v: &[u8]) -> (r: Option<&str>)
    ensures
        match r {
            Some(s) => vstd::utf8::valid_utf8(v@) && s.spec_bytes() == v@,
            None => !vstd::utf8::valid_utf8(v@),
        },
{
    core::str::from_utf8(v).ok()
}

/// Character-wise string equality.
pub fn str_eq(a: &str, b: &str) -> (r: bool)
    ensures
        r == (a@ == b@),
{
    let na = a.unicode_len();
    let nb = b.unicode_len();
    if na != nb {
        proof {
            if a@ == b@ {
                assert(a@.len() == b@.len());
            }
        }
        return false;
    }
    let mut i: usize = 0;
    while i < na
        invariant
            0 <= i <= na,
            na == a@.len(),
            na == b@.len(),
            forall|j: int| 0 <= j < i ==> a@[j] == b@[j],
        decreases na - i,
    {
        if a.get_char(i) != b.get_char(i) {
            return false;
        }
        i = i + 1;
    }
    proof {
        assert(a@ =~= b@);
    }
    true
}

} // verus!
