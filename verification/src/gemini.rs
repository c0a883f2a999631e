//! The line-oriented document format of successful text responses.
//!
//! A document is a CRLF-terminated sequence of lines.  Outside a
//! preformatted block each line is classified by its prefix, first match
//! wins: link, preformatted fence, heading, list item, quote, plain text.
//! Inside a preformatted block all structural detection is suspended until a
//! line that is exactly the closing fence; a longer fence-prefixed line in
//! the block is content.  Plain text is kept byte for byte; the content of
//! every structural line is trimmed of blanks on both sides.

use vstd::prelude::*;
use vstd::string::StrSliceExecFns;
use vstd::string::StringExecFns;

use crate::error::Error;
use crate::text::{
    clean_up_spec, content_end, is_blank, is_blank_char, is_line_break, is_valid_link_char,
    lemma_content_end_at, lemma_trim_front_skip, str_clean_up, trim, trim_front, trim_spec,
};
use crate::urls::{join_url, url_join_of};

verus! {

/// One line of a parsed document.
#[derive(Debug, PartialEq)]
pub enum Line {
    Text { content: String },
    Link { url: String, link_name: Option<String> },
    Preformatted { alt_text: Option<String>, lines: Vec<Line> },
    Heading { content: String, level: u8 },
    UnorderedListItem { content: String },
    Quote { content: String },
}

/// Mathematical model of [`Line`].  A preformatted block is modelled by the
/// contents of its verbatim lines.
pub enum LineV {
    Text { content: Seq<char> },
    Link { url: Seq<char>, link_name: Option<Seq<char>> },
    Preformatted { alt_text: Option<Seq<char>>, lines: Seq<Seq<char>> },
    Heading { content: Seq<char>, level: u8 },
    UnorderedListItem { content: Seq<char> },
    Quote { content: Seq<char> },
}

/// The verbatim content a line contributes to a preformatted block.
pub open spec fn text_content(l: Line) -> Seq<char> {
    match l {
        Line::Text { content } => content@,
        _ => Seq::empty(),
    }
}

impl View for Line {
    type V = LineV;

    open spec fn view(&self) -> LineV {
        match self {
            Line::Text { content } => LineV::Text { content: content@ },
            Line::Link { url, link_name } => LineV::Link {
                url: url@,
                link_name: link_name.deep_view(),
            },
            Line::Preformatted { alt_text, lines } => LineV::Preformatted {
                alt_text: alt_text.deep_view(),
                lines: lines@.map_values(|l: Line| text_content(l)),
            },
            Line::Heading { content, level } => LineV::Heading {
                content: content@,
                level: *level,
            },
            Line::UnorderedListItem { content } => LineV::UnorderedListItem { content: content@ },
            Line::Quote { content } => LineV::Quote { content: content@ },
        }
    }
}

impl Line {
    /// A preformatted block may hold nothing but plain text lines, and a
    /// heading's level lies between one and three.
    pub open spec fn wf(&self) -> bool {
        match self {
            Line::Preformatted { lines, .. } => forall|k: int|
                0 <= k < lines@.len() ==> lines@[k] is Text,
            Line::Heading { level, .. } => 1 <= *level <= 3,
            _ => true,
        }
    }

    pub fn text(content: &str) -> (r: Self)
        ensures
            r@ == (LineV::Text { content: content@ }),
            r.wf(),
    {
        Self::Text { content: content.to_owned() }
    }

    pub fn link(url: &str, link_name: Option<&str>) -> (r: Self)
        ensures
            r@ == (LineV::Link { url: url@, link_name: link_name.deep_view() }),
            r.wf(),
    {
        let name = match link_name {
            Some(n) => Some(n.to_owned()),
            None => None,
        };
        Self::Link { url: url.to_owned(), link_name: name }
    }

    pub fn preformatted(alt_text: Option<&str>, lines: Vec<Line>) -> (r: Self)
        ensures
            r@ == (LineV::Preformatted {
                alt_text: alt_text.deep_view(),
                lines: lines@.map_values(|l: Line| text_content(l)),
            }),
            (forall|k: int| 0 <= k < lines@.len() ==> lines@[k] is Text) ==> r.wf(),
    {
        let alt = match alt_text {
            Some(a) => Some(a.to_owned()),
            None => None,
        };
        Self::Preformatted { alt_text: alt, lines }
    }

    /// Heading levels above three have no rendering; such input is rejected
    /// by the parser before this constructor runs.
    pub fn heading(content: &str, level: usize) -> (r: Self)
        requires
            1 <= level <= 3,
        ensures
            r@ == (LineV::Heading { content: content@, level: level as u8 }),
            r.wf(),
    {
        Self::Heading { content: content.to_owned(), level: level as u8 }
    }

    pub fn unordered_list_item(content: &str) -> (r: Self)
        ensures
            r@ == (LineV::UnorderedListItem { content: content@ }),
            r.wf(),
    {
        Self::UnorderedListItem { content: content.to_owned() }
    }

    pub fn quote(content: &str) -> (r: Self)
        ensures
            r@ == (LineV::Quote { content: content@ }),
            r.wf(),
    {
        Self::Quote { content: content.to_owned() }
    }

    /// The content of a plain text line; `None` for every other variant.
    pub fn get_content(&self) -> (r: Option<&String>)
        ensures
            match r {
                Some(c) => self@ matches LineV::Text { content } && c@ == content,
                None => !(self@ is Text),
            },
    {
        match self {
            Line::Text { content } => Some(content),
            _ => None,
        }
    }
}

/// The view of a sequence of lines.
pub open spec fn lines_view(v: Seq<Line>) -> Seq<LineV> {
    v.map_values(|l: Line| l@)
}

/// An ordered sequence of parsed lines.
#[derive(Debug, PartialEq)]
pub struct Document {
    lines: Vec<Line>,
}

impl View for Document {
    type V = Seq<LineV>;

    closed spec fn view(&self) -> Seq<LineV> {
        lines_view(self.lines@)
    }
}

impl Document {
    /// Every preformatted block holds nothing but plain text lines.
    pub closed spec fn wf(&self) -> bool {
        forall|k: int| 0 <= k < self.lines@.len() ==> (#[trigger] self.lines@[k]).wf()
    }

    pub fn new(lines: Vec<Line>) -> (r: Self)
        ensures
            r@ == lines_view(lines@),
            (forall|k: int| 0 <= k < lines@.len() ==> (#[trigger] lines@[k]).wf()) ==> r.wf(),
    {
        Self { lines }
    }

    pub fn lines(&self) -> (r: &Vec<Line>)
        ensures
            lines_view(r@) == self@,
            self.wf() ==> forall|k: int| 0 <= k < r@.len() ==> (#[trigger] r@[k]).wf(),
    {
        &self.lines
    }
}

/// A link line: the two-character arrow marker.
pub open spec fn is_link_start(s: Seq<char>) -> bool {
    s.len() >= 2 && s[0] == '=' && s[1] == '>'
}

/// A fence line: it starts with the three-character preformat marker.
pub open spec fn is_fence(s: Seq<char>) -> bool {
    s.len() >= 3 && s[0] == '`' && s[1] == '`' && s[2] == '`'
}

/// The bare fence, which closes an open preformatted block.
pub open spec fn fence_seq() -> Seq<char> {
    seq!['`', '`', '`']
}

/// The alt text of an opening fence line: what follows the marker, trimmed,
/// absent when blank.
pub open spec fn fence_alt(s: Seq<char>) -> Option<Seq<char>> {
    clean_up_spec(s.skip(3))
}

/// Length of the leading run of non-blank characters.
pub open spec fn token_len(s: Seq<char>) -> nat
    decreases s.len(),
{
    if s.len() > 0 && !is_blank(s[0]) {
        1 + token_len(s.skip(1))
    } else {
        0
    }
}

/// Any index with only non-blanks before it and a blank (or the end) at it
/// is [`token_len`].
pub proof fn lemma_token_len_at(s: Seq<char>, k: int)
    requires
        0 <= k <= s.len(),
        forall|j: int| 0 <= j < k ==> !is_blank(s[j]),
        k < s.len() ==> is_blank(s[k]),
    ensures
        token_len(s) == k,
    decreases k,
{
    if k > 0 {
        lemma_token_len_at(s.skip(1), k - 1);
    }
}

/// Length of the leading run of heading markers.
pub open spec fn hash_count(s: Seq<char>) -> nat
    decreases s.len(),
{
    if s.len() > 0 && s[0] == '#' {
        1 + hash_count(s.skip(1))
    } else {
        0
    }
}

/// Any index with only heading markers before it and none at it is
/// [`hash_count`].
pub proof fn lemma_hash_count_at(s: Seq<char>, k: int)
    requires
        0 <= k <= s.len(),
        forall|j: int| 0 <= j < k ==> s[j] == '#',
        k < s.len() ==> s[k] != '#',
    ensures
        hash_count(s) == k,
    decreases k,
{
    if k > 0 {
        lemma_hash_count_at(s.skip(1), k - 1);
    }
}

/// What a link line denotes: marker, optional blanks, a URL token up to the
/// next blank, resolved against `base`, and an optional display name.
pub open spec fn link_spec(s: Seq<char>, base: Seq<char>) -> Option<LineV> {
    let rest = trim_front(s.skip(2));
    let t = token_len(rest) as int;
    let url_tok = rest.take(t);
    let name = clean_up_spec(rest.skip(t));
    match url_join_of(base, url_tok) {
        Some(u) => Some(LineV::Link { url: u, link_name: name }),
        None => None,
    }
}

/// What a heading line denotes; more than three markers is a parse error.
pub open spec fn heading_spec(s: Seq<char>) -> Option<LineV> {
    let k = hash_count(s);
    if 1 <= k <= 3 {
        Some(LineV::Heading { content: trim_spec(s.skip(k as int)), level: k as u8 })
    } else {
        None
    }
}

/// Classification of one line outside a preformatted block, fences aside,
/// tried in fixed priority order with plain text as the fallthrough.
pub open spec fn classify_spec(s: Seq<char>, base: Seq<char>) -> Option<LineV> {
    if is_link_start(s) {
        link_spec(s, base)
    } else if s.len() > 0 && s[0] == '#' {
        heading_spec(s)
    } else if s.len() > 0 && s[0] == '*' {
        Some(LineV::UnorderedListItem { content: trim_spec(s.skip(1)) })
    } else if s.len() > 0 && s[0] == '>' {
        Some(LineV::Quote { content: trim_spec(s.skip(1)) })
    } else {
        Some(LineV::Text { content: s })
    }
}

/// Whether the line opens (or closes) a preformatted block.
pub fn is_fence_line(l: &str) -> (r: bool)
    ensures
        r == is_fence(l@),
{
    let n = l.unicode_len();
    n >= 3 && l.get_char(0) == '`' && l.get_char(1) == '`' && l.get_char(2) == '`'
}

/// Whether the line is exactly the bare fence.
pub fn is_bare_fence(l: &str) -> (r: bool)
    ensures
        r == (l@ == fence_seq()),
{
    let n = l.unicode_len();
    let r = n == 3 && l.get_char(0) == '`' && l.get_char(1) == '`' && l.get_char(2) == '`';
    proof {
        if r {
            assert(l@ =~= fence_seq());
        }
    }
    r
}

/// Parses one line that stands outside any preformatted block.  A fence line
/// cannot be parsed alone and is rejected.
pub fn parse_line<'a>(line: &'a str, base_url: &str) -> (r: Result<Line, Error>)
    ensures
        match r {
            Ok(l) => !is_fence(line@) && classify_spec(line@, base_url@) == Some(l@) && l.wf(),
            Err(e) => e == Error::DocumentParseError && (is_fence(line@) || classify_spec(
                line@,
                base_url@,
            ) is None),
        },
{
    let n = line.unicode_len();
    if is_fence_line(line) {
        return Err(Error::DocumentParseError);
    }
    if n >= 2 && line.get_char(0) == '=' && line.get_char(1) == '>' {
        let mut p: usize = 2;
        while p < n && is_blank_char(line.get_char(p))
            invariant
                2 <= p <= n,
                n == line@.len(),
                forall|j: int| 2 <= j < p ==> is_blank(line@[j]),
            decreases n - p,
        {
            p = p + 1;
        }
        let mut q: usize = p;
        while q < n && is_valid_link_char(line.get_char(q))
            invariant
                p <= q <= n,
                n == line@.len(),
                forall|j: int| p <= j < q ==> !is_blank(line@[j]),
            decreases n - q,
        {
            q = q + 1;
        }
        let url_tok = line.substring_char(p, q);
        let after = line.substring_char(q, n);
        let name = str_clean_up(after);
        proof {
            assert forall|j: int| 0 <= j < p - 2 implies is_blank(line@.skip(2)[j]) by {
                assert(line@.skip(2)[j] == line@[j + 2]);
            }
            if p < n {
                assert(line@.skip(2)[p - 2] == line@[p as int]);
            }
            lemma_trim_front_skip(line@.skip(2), p - 2);
            assert(line@.skip(2).skip(p - 2) =~= line@.skip(p as int));
            let rest = line@.skip(p as int);
            assert forall|j: int| 0 <= j < q - p implies !is_blank(rest[j]) by {
                assert(rest[j] == line@[j + p]);
            }
            if q < n {
                assert(rest[q - p] == line@[q as int]);
            }
            lemma_token_len_at(rest, q - p);
            assert(url_tok@ =~= rest.take(q - p));
            assert(after@ =~= rest.skip(q - p));
        }
        return match join_url(base_url, url_tok) {
            Some(u) => Ok(Line::link(u.as_str(), name)),
            None => Err(Error::DocumentParseError),
        };
    }
    if n >= 1 && line.get_char(0) == '#' {
        let mut k: usize = 0;
        while k < n && line.get_char(k) == '#'
            invariant
                0 <= k <= n,
                n == line@.len(),
                forall|j: int| 0 <= j < k ==> line@[j] == '#',
            decreases n - k,
        {
            k = k + 1;
        }
        proof {
            lemma_hash_count_at(line@, k as int);
        }
        if k > 3 {
            return Err(Error::DocumentParseError);
        }
        let content = trim(line.substring_char(k, n));
        proof {
            assert(line@.subrange(k as int, n as int) =~= line@.skip(k as int));
        }
        return Ok(Line::heading(content, k));
    }
    if n >= 1 && line.get_char(0) == '*' {
        let content = trim(line.substring_char(1, n));
        proof {
            assert(line@.subrange(1, n as int) =~= line@.skip(1));
        }
        return Ok(Line::unordered_list_item(content));
    }
    if n >= 1 && line.get_char(0) == '>' {
        let content = trim(line.substring_char(1, n));
        proof {
            assert(line@.subrange(1, n as int) =~= line@.skip(1));
        }
        return Ok(Line::quote(content));
    }
    Ok(Line::text(line))
}

/// The raw lines of a document: each terminated by CRLF, none holding a
/// line-terminator character; anything else is a parse error.
pub open spec fn split_lines_spec(s: Seq<char>) -> Option<Seq<Seq<char>>>
    decreases s.len(),
{
    if s.len() == 0 {
        Some(Seq::empty())
    } else {
        let k = content_end(s) as int;
        if k + 2 <= s.len() && s[k] == '\r' && s[k + 1] == '\n' {
            match split_lines_spec(s.skip(k + 2)) {
                Some(rest) => Some(Seq::empty().push(s.take(k)) + rest),
                None => None,
            }
        } else {
            None
        }
    }
}

/// Prepends already split lines to the outcome on the remaining input.
pub open spec fn glue_split(pre: Seq<Seq<char>>, r: Option<Seq<Seq<char>>>) -> Option<
    Seq<Seq<char>>,
> {
    match r {
        Some(ls) => Some(pre + ls),
        None => None,
    }
}

/// Splits the input at CRLF terminators; every byte must be consumed.
fn split_lines<'a>(s: &'a str) -> (r: Option<Vec<&'a str>>)
    ensures
        match r {
            Some(v) => split_lines_spec(s@) == Some(v.deep_view()),
            None => split_lines_spec(s@) is None,
        },
{
    let n = s.unicode_len();
    let mut out: Vec<&'a str> = Vec::new();
    let mut start: usize = 0;
    let mut i: usize = 0;
    proof {
        assert(s@.skip(0) =~= s@);
        assert(out.deep_view() =~= Seq::<Seq<char>>::empty());
        match split_lines_spec(s@) {
            Some(ls0) => {
                assert(Seq::<Seq<char>>::empty() + ls0 =~= ls0);
            },
            None => {},
        }
    }
    loop
        invariant
            0 <= start <= i <= n,
            n == s@.len(),
            forall|j: int| start <= j < i ==> !is_line_break(s@[j]),
            split_lines_spec(s@) == glue_split(
                out.deep_view(),
                split_lines_spec(s@.skip(start as int)),
            ),
        decreases n - i,
    {
        if i == n {
            if start == n {
                proof {
                    assert(s@.skip(n as int) =~= Seq::<char>::empty());
                    assert(out.deep_view() + Seq::<Seq<char>>::empty() =~= out.deep_view());
                }
                return Some(out);
            } else {
                proof {
                    assert forall|j: int| 0 <= j < n - start implies !is_line_break(
                        s@.skip(start as int)[j],
                    ) by {
                        assert(s@.skip(start as int)[j] == s@[j + start]);
                    }
                    lemma_content_end_at(s@.skip(start as int), n - start);
                }
                return None;
            }
        }
        let c = s.get_char(i);
        if c == '\r' {
            proof {
                assert forall|j: int| 0 <= j < i - start implies !is_line_break(
                    s@.skip(start as int)[j],
                ) by {
                    assert(s@.skip(start as int)[j] == s@[j + start]);
                }
                assert(s@.skip(start as int)[i - start] == s@[i as int]);
                lemma_content_end_at(s@.skip(start as int), i - start);
            }
            if i + 1 < n && s.get_char(i + 1) == '\n' {
                let line = s.substring_char(start, i);
                proof {
                    let old_pre = out.deep_view();
                    let tail = s@.skip(start as int);
                    assert(tail.take(i - start) =~= line@);
                    assert(tail.skip(i - start + 2) =~= s@.skip(i + 2));
                    match split_lines_spec(s@.skip(i + 2)) {
                        Some(ls) => {
                            assert(old_pre + (Seq::empty().push(line@) + ls) =~= (old_pre.push(
                                line@,
                            ) + ls));
                        },
                        None => {},
                    }
                }
                out.push(line);
                proof {
                    assert(out.deep_view() =~= out.deep_view().drop_last().push(line@));
                }
                i = i + 2;
                start = i;
            } else {
                return None;
            }
        } else if c == '\n' {
            proof {
                assert forall|j: int| 0 <= j < i - start implies !is_line_break(
                    s@.skip(start as int)[j],
                ) by {
                    assert(s@.skip(start as int)[j] == s@[j + start]);
                }
                assert(s@.skip(start as int)[i - start] == s@[i as int]);
                lemma_content_end_at(s@.skip(start as int), i - start);
            }
            return None;
        } else {
            i = i + 1;
        }
    }
}

/// Distance to the first bare closing fence among the raw lines.
pub open spec fn close_dist(ls: Seq<Seq<char>>) -> nat
    decreases ls.len(),
{
    if ls.len() == 0 {
        0
    } else if ls[0] == fence_seq() {
        0
    } else {
        1 + close_dist(ls.skip(1))
    }
}

/// Any index with no bare fence before it and a bare fence (or the end) at
/// it is [`close_dist`].
pub proof fn lemma_close_dist_at(ls: Seq<Seq<char>>, k: int)
    requires
        0 <= k <= ls.len(),
        forall|j: int| 0 <= j < k ==> ls[j] != fence_seq(),
        k < ls.len() ==> ls[k] == fence_seq(),
    ensures
        close_dist(ls) == k,
    decreases k,
{
    if k > 0 {
        lemma_close_dist_at(ls.skip(1), k - 1);
    }
}

/// Groups raw lines into document lines.  An opening fence takes everything
/// up to the next bare fence verbatim; an unterminated block is a parse
/// error.
pub open spec fn group_lines_spec(ls: Seq<Seq<char>>, base: Seq<char>) -> Option<Seq<LineV>>
    decreases ls.len(),
{
    if ls.len() == 0 {
        Some(Seq::empty())
    } else if is_fence(ls[0]) {
        let d = close_dist(ls.skip(1)) as int;
        if d + 1 < ls.len() {
            let pre = LineV::Preformatted {
                alt_text: fence_alt(ls[0]),
                lines: ls.subrange(1, 1 + d),
            };
            match group_lines_spec(ls.skip(2 + d), base) {
                Some(rest) => Some(Seq::empty().push(pre) + rest),
                None => None,
            }
        } else {
            None
        }
    } else {
        match classify_spec(ls[0], base) {
            Some(l) => match group_lines_spec(ls.skip(1), base) {
                Some(rest) => Some(Seq::empty().push(l) + rest),
                None => None,
            },
            None => None,
        }
    }
}

/// Prepends already grouped lines to the outcome on the remaining raw lines.
pub open spec fn glue_group(pre: Seq<LineV>, r: Option<Seq<LineV>>) -> Option<Seq<LineV>> {
    match r {
        Some(ls) => Some(pre + ls),
        None => None,
    }
}

/// What parsing a document yields, or `None` for the inputs rejected as
/// `DocumentParseError`.
pub open spec fn doc_spec(s: Seq<char>, base: Seq<char>) -> Option<Seq<LineV>> {
    match split_lines_spec(s) {
        Some(ls) => group_lines_spec(ls, base),
        None => None,
    }
}

/// Parses a whole document against the base URL its links resolve from.
pub fn parse(i: &str, base_url: &str) -> (r: Result<Document, Error>)
    ensures
        match r {
            Ok(d) => doc_spec(i@, base_url@) == Some(d@) && d.wf(),
            Err(e) => e == Error::DocumentParseError && doc_spec(i@, base_url@) is None,
        },
{
    let lines = match split_lines(i) {
        Some(v) => v,
        None => {
            return Err(Error::DocumentParseError);
        },
    };
    let ghost ls = lines.deep_view();
    let m = lines.len();
    let mut out: Vec<Line> = Vec::new();
    let mut idx: usize = 0;
    proof {
        assert(ls.skip(0) =~= ls);
        assert(lines_view(out@) =~= Seq::<LineV>::empty());
        match group_lines_spec(ls, base_url@) {
            Some(g0) => {
                assert(Seq::<LineV>::empty() + g0 =~= g0);
            },
            None => {},
        }
    }
    while idx < m
        invariant
            0 <= idx <= m,
            m == lines@.len(),
            ls == lines.deep_view(),
            split_lines_spec(i@) == Some(ls),
            group_lines_spec(ls, base_url@) == glue_group(
                lines_view(out@),
                group_lines_spec(ls.skip(idx as int), base_url@),
            ),
            forall|k: int| 0 <= k < out@.len() ==> (#[trigger] out@[k]).wf(),
        decreases m - idx,
    {
        let l: &str = lines[idx];
        proof {
            assert(ls[idx as int] == l@);
        }
        if is_fence_line(l) {
            let mut j: usize = idx + 1;
            while j < m && !is_bare_fence(lines[j])
                invariant
                    idx + 1 <= j <= m,
                    m == lines@.len(),
                    ls == lines.deep_view(),
                    forall|t: int| idx + 1 <= t < j ==> ls[t] != fence_seq(),
                decreases m - j,
            {
                j = j + 1;
            }
            proof {
                let tail = ls.skip(idx + 1);
                assert forall|t: int| 0 <= t < j - idx - 1 implies tail[t] != fence_seq() by {
                    assert(tail[t] == ls[t + idx + 1]);
                }
                if j < m {
                    assert(tail[j - idx - 1] == ls[j as int]);
                }
                lemma_close_dist_at(tail, j - idx - 1);
                assert(ls.skip(idx as int).skip(1) =~= tail);
            }
            if j == m {
                return Err(Error::DocumentParseError);
            }
            let nl = l.unicode_len();
            let alt = str_clean_up(l.substring_char(3, nl));
            proof {
                assert(l@.subrange(3, nl as int) =~= l@.skip(3));
            }
            let mut inner: Vec<Line> = Vec::new();
            let mut t: usize = idx + 1;
            while t < j
                invariant
                    idx + 1 <= t <= j <= m,
                    m == lines@.len(),
                    ls == lines.deep_view(),
                    inner@.map_values(|x: Line| text_content(x)) =~= ls.subrange(
                        idx + 1,
                        t as int,
                    ),
                    forall|k: int| 0 <= k < inner@.len() ==> inner@[k] is Text,
                decreases j - t,
            {
                let ghost pre_map = inner@.map_values(|x: Line| text_content(x));
                inner.push(Line::text(lines[t]));
                proof {
                    assert(inner@.map_values(|x: Line| text_content(x)) =~= pre_map.push(
                        ls[t as int],
                    ));
                    assert(pre_map.push(ls[t as int]) =~= ls.subrange(idx + 1, t + 1));
                }
                t = t + 1;
            }
            let ghost pre_out = lines_view(out@);
            let pre_line = Line::preformatted(alt, inner);
            out.push(pre_line);
            proof {
                let head = ls.skip(idx as int);
                assert(head[0] == ls[idx as int]);
                let d = close_dist(head.skip(1)) as int;
                assert(d == j - idx - 1);
                assert(head.subrange(1, 1 + d) =~= ls.subrange(idx + 1, j as int));
                assert(head.skip(2 + d) =~= ls.skip(j + 1));
                assert(fence_alt(ls[idx as int]) == clean_up_spec(l@.skip(3)));
                assert(pre_line@ == (LineV::Preformatted {
                    alt_text: fence_alt(ls[idx as int]),
                    lines: ls.subrange(idx + 1, j as int),
                }));
                assert(lines_view(out@) =~= pre_out.push(pre_line@));
                match group_lines_spec(ls.skip(j + 1), base_url@) {
                    Some(rest) => {
                        assert(pre_out + (Seq::empty().push(pre_line@) + rest) =~= (pre_out.push(
                            pre_line@,
                        ) + rest));
                    },
                    None => {},
                }
            }
            idx = j + 1;
        } else {
            let parsed = match parse_line(l, base_url) {
                Ok(p) => p,
                Err(e) => {
                    proof {
                        assert(!is_fence(ls.skip(idx as int)[0]));
                    }
                    return Err(Error::DocumentParseError);
                },
            };
            let ghost pre_out = lines_view(out@);
            out.push(parsed);
            proof {
                let head = ls.skip(idx as int);
                assert(head[0] == ls[idx as int]);
                assert(!is_fence(head[0]));
                assert(head.skip(1) =~= ls.skip(idx + 1));
                assert(lines_view(out@) =~= pre_out.push(parsed@));
                match group_lines_spec(ls.skip(idx + 1), base_url@) {
                    Some(rest) => {
                        assert(pre_out + (Seq::empty().push(parsed@) + rest) =~= (pre_out.push(
                            parsed@,
                        ) + rest));
                    },
                    None => {},
                }
            }
            idx = idx + 1;
        }
    }
    proof {
        assert(ls.skip(m as int) =~= Seq::<Seq<char>>::empty());
        assert(lines_view(out@) + Seq::<LineV>::empty() =~= lines_view(out@));
    }
    Ok(Document::new(out))
}

/// What building a document from raw bytes yields: the bytes must be valid
/// UTF-8 and parse as a document.
pub open spec fn build_document_spec(data: Seq<u8>, base: Seq<char>) -> Option<Seq<LineV>> {
    if vstd::utf8::valid_utf8(data) {
        doc_spec(vstd::utf8::decode_utf8(data), base)
    } else {
        None
    }
}

/// Decodes and parses a response body against the URL it was fetched from.
pub fn build_document(input: &[u8], url: &str) -> (r: Result<Document, Error>)
    ensures
        match r {
            Ok(d) => build_document_spec(input@, url@) == Some(d@) && d.wf(),
            Err(e) => e == Error::DocumentParseError && build_document_spec(input@, url@) is None,
        },
{
    let s = match crate::text::bytes_as_str(input) {
        Some(s) => s,
        None => {
            return Err(Error::DocumentParseError);
        },
    };
    proof {
        vstd::utf8::encode_utf8_decode_utf8(s@);
    }
    parse(s, url)
}

/// The contents of verbatim lines joined with newlines.
pub open spec fn join_nl(ls: Seq<Seq<char>>) -> Seq<char>
    decreases ls.len(),
{
    if ls.len() == 0 {
        Seq::empty()
    } else if ls.len() == 1 {
        ls[0]
    } else {
        ls[0] + seq!['\n'] + join_nl(ls.skip(1))
    }
}

/// Joining one more line appends a newline and it.
proof fn lemma_join_nl_snoc(ls: Seq<Seq<char>>, i: int)
    requires
        0 <= i < ls.len(),
    ensures
        join_nl(ls.take(i + 1)) == if i == 0 {
            ls[0]
        } else {
            join_nl(ls.take(i)) + seq!['\n'] + ls[i]
        },
    decreases i,
{
    if i == 0 {
        assert(ls.take(1)[0] == ls[0]);
    } else {
        lemma_join_nl_snoc(ls.skip(1), i - 1);
        assert(ls.take(i + 1)[0] == ls[0]);
        assert(ls.take(i + 1).skip(1) =~= ls.skip(1).take(i));
        assert(ls.take(i)[0] == ls[0]);
        assert(ls.take(i).skip(1) =~= ls.skip(1).take(i - 1));
        assert(ls.skip(1)[i - 1] == ls[i]);
        if i == 1 {
            assert(ls.take(1) =~= Seq::<Seq<char>>::empty().push(ls[0]));
        } else {
            assert((ls[0] + seq!['\n'] + (join_nl(ls.skip(1).take(i - 1)) + seq!['\n'] + ls[i]))
                =~= ((ls[0] + seq!['\n'] + join_nl(ls.skip(1).take(i - 1))) + seq!['\n'] + ls[i]));
        }
    }
}

/// Joins the contents of a preformatted block's lines with newlines, for
/// hosts that render the block as one run of text.
pub fn extract_content_from_preformatted_line(lines: &Vec<Line>) -> (r: String)
    requires
        forall|k: int| 0 <= k < lines@.len() ==> lines@[k] is Text,
    ensures
        r@ == join_nl(lines@.map_values(|l: Line| text_content(l))),
{
    let mut out = String::new();
    let ghost view = lines@.map_values(|l: Line| text_content(l));
    let n = lines.len();
    let mut i: usize = 0;
    proof {
        assert(view.take(0) =~= Seq::<Seq<char>>::empty());
    }
    while i < n
        invariant
            0 <= i <= n,
            n == lines@.len(),
            view == lines@.map_values(|l: Line| text_content(l)),
            forall|k: int| 0 <= k < lines@.len() ==> lines@[k] is Text,
            out@ == join_nl(view.take(i as int)),
        decreases n - i,
    {
        if i > 0 {
            out.append("\n");
        }
        match lines[i].get_content() {
            Some(c) => {
                out.append(c.as_str());
            },
            None => {
                proof {
                    assert(false);
                }
            },
        }
        proof {
            reveal_strlit("\n");
            assert("\n"@ =~= seq!['\n']);
            lemma_join_nl_snoc(view, i as int);
            assert(view[i as int] == text_content(lines@[i as int]));
            assert(out@ =~= join_nl(view.take(i as int + 1)));
        }
        i = i + 1;
    }
    proof {
        assert(view.take(n as int) =~= view);
    }
    out
}

} // verus!
