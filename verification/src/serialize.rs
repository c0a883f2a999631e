//! Writing parsed lines back out, and the round trip law.
//!
//! Serialization writes each line in its canonical form: marker, one blank,
//! content, CRLF; a preformatted block as its fences and verbatim lines.
//! [`lemma_parse_serialize_roundtrip`] proves that parsing what was
//! serialized reproduces the same structural sequence, for every document
//! whose lines satisfy [`rt_wf_line`] — in substance: contents carry no
//! line terminators, structural contents are their own trim, and every link
//! URL resolves to itself against the base.

use vstd::prelude::*;
use vstd::string::StringExecFns;

use crate::gemini::{
    classify_spec, close_dist, doc_spec, fence_alt, fence_seq, glue_group, glue_split,
    group_lines_spec, hash_count, is_fence, is_link_start, lemma_close_dist_at,
    lemma_hash_count_at, lemma_token_len_at, lines_view, split_lines_spec, text_content,
    token_len, Document, Line, LineV,
};
use crate::text::{
    clean_up_spec, content_end, crlf, is_blank, is_line_break, lemma_content_end,
    lemma_content_end_at, lemma_trim_blank_prefix, lemma_trim_front_skip, lemma_trim_spec_trimmed,
    trim_back, trim_front, trim_spec,
};
use crate::urls::url_join_of;

verus! {

/// A run of heading markers.
pub open spec fn hashes(k: int) -> Seq<char> {
    Seq::new(k as nat, |i: int| '#')
}

/// The canonical written form of one line, without its terminator; for a
/// preformatted block, its opening fence line.
pub open spec fn raw_line(l: LineV) -> Seq<char> {
    match l {
        LineV::Text { content } => content,
        LineV::Link { url, link_name } => match link_name {
            None => seq!['=', '>', ' '] + url,
            Some(n) => seq!['=', '>', ' '] + url + seq![' '] + n,
        },
        LineV::Preformatted { alt_text, .. } => fence_seq() + (match alt_text {
            None => Seq::<char>::empty(),
            Some(a) => seq![' '] + a,
        }),
        LineV::Heading { content, level } => hashes(level as int) + seq![' '] + content,
        LineV::UnorderedListItem { content } => seq!['*', ' '] + content,
        LineV::Quote { content } => seq!['>', ' '] + content,
    }
}

/// The raw lines one document line writes out.
pub open spec fn raw_lines(l: LineV) -> Seq<Seq<char>> {
    match l {
        LineV::Preformatted { lines, .. } => Seq::empty().push(raw_line(l)) + lines
            + Seq::empty().push(fence_seq()),
        _ => Seq::empty().push(raw_line(l)),
    }
}

/// The written form of the verbatim lines of a preformatted block.
pub open spec fn ser_pre_lines(ls: Seq<Seq<char>>) -> Seq<char>
    decreases ls.len(),
{
    if ls.len() == 0 {
        Seq::empty()
    } else {
        ls[0] + crlf() + ser_pre_lines(ls.skip(1))
    }
}

/// The written form of one line, terminator included.
pub open spec fn ser_line(l: LineV) -> Seq<char> {
    match l {
        LineV::Preformatted { lines, .. } => raw_line(l) + crlf() + ser_pre_lines(lines)
            + fence_seq() + crlf(),
        _ => raw_line(l) + crlf(),
    }
}

/// The written form of a document.
pub open spec fn ser_doc(d: Seq<LineV>) -> Seq<char>
    decreases d.len(),
{
    if d.len() == 0 {
        Seq::empty()
    } else {
        ser_line(d[0]) + ser_doc(d.skip(1))
    }
}

/// Free of line terminators.
pub open spec fn plain(s: Seq<char>) -> bool {
    forall|j: int| 0 <= j < s.len() ==> !is_line_break(s[j])
}

/// What the round trip law asks of one line.  Text must classify back to
/// itself; structural contents are their own trim; a link's URL has no
/// blanks and resolves to itself against the base; verbatim lines of a
/// block are not the bare fence.
pub open spec fn rt_wf_line(l: LineV, base: Seq<char>) -> bool {
    match l {
        LineV::Text { content } => plain(content) && !is_fence(content) && classify_spec(
            content,
            base,
        ) == Some(LineV::Text { content }),
        LineV::Link { url, link_name } => {
            &&& plain(url)
            &&& url.len() > 0
            &&& (forall|j: int| 0 <= j < url.len() ==> !is_blank(url[j]))
            &&& (match link_name {
                None => true,
                Some(n) => plain(n) && n.len() > 0 && trim_spec(n) == n,
            })
            &&& url_join_of(base, url) == Some(url)
        },
        LineV::Preformatted { alt_text, lines } => {
            &&& (match alt_text {
                None => true,
                Some(a) => plain(a) && a.len() > 0 && trim_spec(a) == a,
            })
            &&& (forall|k: int|
                0 <= k < lines.len() ==> plain(#[trigger] lines[k]) && lines[k] != fence_seq())
        },
        LineV::Heading { content, level } => 1 <= level <= 3 && plain(content) && trim_spec(
            content,
        ) == content,
        LineV::UnorderedListItem { content } => plain(content) && trim_spec(content) == content,
        LineV::Quote { content } => plain(content) && trim_spec(content) == content,
    }
}

/// What the round trip law asks of a document.
pub open spec fn rt_wf(d: Seq<LineV>, base: Seq<char>) -> bool {
    forall|k: int| 0 <= k < d.len() ==> rt_wf_line(#[trigger] d[k], base)
}

/// Splitting one plain line off the front of the input.
proof fn lemma_split_one(c: Seq<char>, rest: Seq<char>)
    requires
        plain(c),
    ensures
        split_lines_spec(c + crlf() + rest) == glue_split(
            Seq::empty().push(c),
            split_lines_spec(rest),
        ),
{
    let s = c + crlf() + rest;
    assert(s.len() == c.len() + 2 + rest.len());
    assert forall|j: int| 0 <= j < c.len() implies !is_line_break(s[j]) by {
        assert(s[j] == c[j]);
    }
    assert(s[c.len() as int] == '\r');
    lemma_content_end_at(s, c.len() as int);
    assert(s[c.len() as int + 1] == '\n');
    assert(s.take(c.len() as int) =~= c);
    assert(s.skip(c.len() as int + 2) =~= rest);
    match split_lines_spec(rest) {
        Some(ls) => {
            assert(split_lines_spec(s) == Some(Seq::empty().push(c) + ls));
        },
        None => {},
    }
}

/// Prepending split lines twice is prepending their concatenation.
proof fn lemma_glue_split_assoc(a: Seq<Seq<char>>, b: Seq<Seq<char>>, r: Option<Seq<Seq<char>>>)
    ensures
        glue_split(a, glue_split(b, r)) == glue_split(a + b, r),
{
    match r {
        Some(ls) => {
            assert(a + (b + ls) =~= (a + b) + ls);
        },
        None => {},
    }
}

/// Splitting the written verbatim lines of a block yields them back.
proof fn lemma_split_pre_lines(ls: Seq<Seq<char>>, rest: Seq<char>)
    requires
        forall|k: int| 0 <= k < ls.len() ==> plain(#[trigger] ls[k]),
    ensures
        split_lines_spec(ser_pre_lines(ls) + rest) == glue_split(ls, split_lines_spec(rest)),
    decreases ls.len(),
{
    if ls.len() == 0 {
        assert(ser_pre_lines(ls) + rest =~= rest);
        match split_lines_spec(rest) {
            Some(r0) => {
                assert(ls + r0 =~= r0);
            },
            None => {},
        }
    } else {
        let tail = ser_pre_lines(ls.skip(1)) + rest;
        assert(ser_pre_lines(ls) + rest =~= ls[0] + crlf() + tail);
        lemma_split_one(ls[0], tail);
        lemma_split_pre_lines(ls.skip(1), rest);
        lemma_glue_split_assoc(Seq::empty().push(ls[0]), ls.skip(1), split_lines_spec(rest));
        assert(Seq::empty().push(ls[0]) + ls.skip(1) =~= ls);
    }
}

/// Splitting the written form of one document line yields its raw lines.
proof fn lemma_split_line(l: LineV, base: Seq<char>, rest: Seq<char>)
    requires
        rt_wf_line(l, base),
    ensures
        split_lines_spec(ser_line(l) + rest) == glue_split(raw_lines(l), split_lines_spec(rest)),
{
    lemma_plain_raw_line(l, base);
    match l {
        LineV::Preformatted { alt_text, lines } => {
            let open = raw_line(l);
            let tail2 = fence_seq() + crlf() + rest;
            let tail1 = ser_pre_lines(lines) + tail2;
            assert(ser_line(l) + rest =~= open + crlf() + tail1);
            lemma_split_one(open, tail1);
            lemma_split_pre_lines(lines, tail2);
            assert forall|j: int| 0 <= j < fence_seq().len() implies !is_line_break(
                fence_seq()[j],
            ) by {
                assert(fence_seq()[j] == '`');
            }
            lemma_split_one(fence_seq(), rest);
            lemma_glue_split_assoc(lines, Seq::empty().push(fence_seq()), split_lines_spec(rest));
            lemma_glue_split_assoc(
                Seq::empty().push(open),
                lines + Seq::empty().push(fence_seq()),
                split_lines_spec(rest),
            );
            assert(Seq::empty().push(open) + (lines + Seq::empty().push(fence_seq()))
                =~= raw_lines(l));
        },
        _ => {
            assert(ser_line(l) + rest =~= raw_line(l) + crlf() + rest);
            lemma_split_one(raw_line(l), rest);
        },
    }
}

/// Every written line is free of line terminators.
proof fn lemma_plain_raw_line(l: LineV, base: Seq<char>)
    requires
        rt_wf_line(l, base),
    ensures
        plain(raw_line(l)),
{
    let rl = raw_line(l);
    match l {
        LineV::Text { content } => {},
        LineV::Link { url, link_name } => {
            match link_name {
                None => {
                    assert forall|j: int| 0 <= j < rl.len() implies !is_line_break(rl[j]) by {
                        if j < 3 {
                            assert(rl[j] == seq!['=', '>', ' '][j]);
                        } else {
                            assert(rl[j] == url[j - 3]);
                        }
                    }
                },
                Some(n) => {
                    assert forall|j: int| 0 <= j < rl.len() implies !is_line_break(rl[j]) by {
                        if j < 3 {
                            assert(rl[j] == seq!['=', '>', ' '][j]);
                        } else if j < 3 + url.len() {
                            assert(rl[j] == url[j - 3]);
                        } else if j == 3 + url.len() {
                            assert(rl[j] == ' ');
                        } else {
                            assert(rl[j] == n[j - 4 - url.len()]);
                        }
                    }
                },
            }
        },
        LineV::Preformatted { alt_text, .. } => {
            match alt_text {
                None => {
                    assert forall|j: int| 0 <= j < rl.len() implies !is_line_break(rl[j]) by {
                        assert(rl[j] == fence_seq()[j]);
                        assert(rl[j] == '`');
                    }
                },
                Some(a) => {
                    assert forall|j: int| 0 <= j < rl.len() implies !is_line_break(rl[j]) by {
                        if j < 3 {
                            assert(rl[j] == fence_seq()[j]);
                            assert(rl[j] == '`');
                        } else if j == 3 {
                            assert(rl[j] == ' ');
                        } else {
                            assert(rl[j] == a[j - 4]);
                        }
                    }
                },
            }
        },
        LineV::Heading { content, level } => {
            assert forall|j: int| 0 <= j < rl.len() implies !is_line_break(rl[j]) by {
                if j < level as int {
                    assert(rl[j] == hashes(level as int)[j]);
                    assert(rl[j] == '#');
                } else if j == level as int {
                    assert(rl[j] == ' ');
                } else {
                    assert(rl[j] == content[j - level - 1]);
                }
            }
        },
        LineV::UnorderedListItem { content } => {
            assert forall|j: int| 0 <= j < rl.len() implies !is_line_break(rl[j]) by {
                if j < 2 {
                    assert(rl[j] == seq!['*', ' '][j]);
                } else {
                    assert(rl[j] == content[j - 2]);
                }
            }
        },
        LineV::Quote { content } => {
            assert forall|j: int| 0 <= j < rl.len() implies !is_line_break(rl[j]) by {
                if j < 2 {
                    assert(rl[j] == seq!['>', ' '][j]);
                } else {
                    assert(rl[j] == content[j - 2]);
                }
            }
        },
    }
}

/// The written form of a simple line classifies back to it.
proof fn lemma_classify_roundtrip(l: LineV, base: Seq<char>)
    requires
        rt_wf_line(l, base),
        !(l is Preformatted),
    ensures
        !is_fence(raw_line(l)),
        classify_spec(raw_line(l), base) == Some(l),
{
    let rl = raw_line(l);
    match l {
        LineV::Text { content } => {},
        LineV::Link { url, link_name } => {
            assert(rl[0] == '=');
            assert(rl[1] == '>');
            assert(is_link_start(rl));
            let s2 = rl.skip(2);
            assert(s2[0] == ' ');
            assert(s2.len() > 1);
            assert(s2[1] == url[0]);
            lemma_trim_front_skip(s2, 1);
            let rest0 = s2.skip(1);
            match link_name {
                None => {
                    assert(rest0 =~= url);
                    lemma_token_len_at(rest0, url.len() as int);
                    assert(rest0.take(url.len() as int) =~= url);
                    assert(rest0.skip(url.len() as int) =~= Seq::<char>::empty());
                    assert(trim_front(Seq::<char>::empty()) =~= Seq::<char>::empty());
                },
                Some(n) => {
                    let tail = seq![' '] + n;
                    assert(rest0 =~= url + tail);
                    assert forall|j: int| 0 <= j < url.len() implies !is_blank(rest0[j]) by {
                        assert(rest0[j] == url[j]);
                    }
                    assert(rest0[url.len() as int] == ' ');
                    lemma_token_len_at(rest0, url.len() as int);
                    assert(rest0.take(url.len() as int) =~= url);
                    assert(rest0.skip(url.len() as int) =~= tail);
                    lemma_trim_blank_prefix(n);
                },
            }
        },
        LineV::Heading { content, level } => {
            assert(rl[0] == hashes(level as int)[0]);
            assert(rl[0] == '#');
            assert(!is_link_start(rl));
            assert(!is_fence(rl));
            assert forall|j: int| 0 <= j < level as int implies rl[j] == '#' by {
                assert(rl[j] == hashes(level as int)[j]);
            }
            assert(rl[level as int] == ' ');
            lemma_hash_count_at(rl, level as int);
            assert(rl.skip(level as int) =~= seq![' '] + content);
            lemma_trim_blank_prefix(content);
        },
        LineV::UnorderedListItem { content } => {
            assert(rl[0] == seq!['*', ' '][0]);
            assert(rl[0] == '*');
            assert(rl[1] == ' ');
            assert(!is_link_start(rl));
            assert(!is_fence(rl));
            assert(rl.skip(1) =~= seq![' '] + content);
            lemma_trim_blank_prefix(content);
        },
        LineV::Quote { content } => {
            assert(rl[0] == seq!['>', ' '][0]);
            assert(rl[0] == '>');
            assert(rl[1] == ' ');
            assert(!is_link_start(rl));
            assert(!is_fence(rl));
            assert(rl.skip(1) =~= seq![' '] + content);
            lemma_trim_blank_prefix(content);
        },
        LineV::Preformatted { .. } => {},
    }
}

/// Grouping the raw lines of one document line yields it back.
proof fn lemma_group_line(l: LineV, base: Seq<char>, rest: Seq<Seq<char>>)
    requires
        rt_wf_line(l, base),
    ensures
        group_lines_spec(raw_lines(l) + rest, base) == glue_group(
            Seq::empty().push(l),
            group_lines_spec(rest, base),
        ),
{
    let ls = raw_lines(l) + rest;
    match l {
        LineV::Preformatted { alt_text, lines } => {
            let open = raw_line(l);
            assert(ls[0] == open);
            assert(open[0] == fence_seq()[0]);
            assert(open[1] == fence_seq()[1]);
            assert(open[2] == fence_seq()[2]);
            assert(is_fence(open));
            let t = ls.skip(1);
            assert forall|k: int| 0 <= k < lines.len() implies t[k] != fence_seq() by {
                assert(t[k] == lines[k]);
            }
            assert(t[lines.len() as int] == fence_seq());
            lemma_close_dist_at(t, lines.len() as int);
            let d = lines.len() as int;
            assert(d + 1 < ls.len());
            assert(ls.subrange(1, 1 + d) =~= lines);
            assert(ls.skip(2 + d) =~= rest);
            assert(open.skip(3) =~= (match alt_text {
                None => Seq::<char>::empty(),
                Some(a) => seq![' '] + a,
            }));
            match alt_text {
                None => {
                    assert(trim_front(Seq::<char>::empty()) =~= Seq::<char>::empty());
                    assert(fence_alt(open) is None);
                },
                Some(a) => {
                    lemma_trim_blank_prefix(a);
                    assert(fence_alt(open) == Some(a));
                },
            }
        },
        _ => {
            lemma_classify_roundtrip(l, base);
            assert(ls[0] == raw_line(l));
            assert(ls.skip(1) =~= rest);
        },
    }
}

/// The round trip law: parsing the written form of a document yields the
/// same structural sequence, for every document within [`rt_wf`].  The
/// parser's own output lies within it whenever each resolved link URL
/// resolves to itself against the base.
pub proof fn lemma_parse_serialize_roundtrip(d: Seq<LineV>, base: Seq<char>)
    requires
        rt_wf(d, base),
    ensures
        doc_spec(ser_doc(d), base) == Some(d),
    decreases d.len(),
{
    if d.len() == 0 {
        assert(ser_doc(d) =~= Seq::<char>::empty());
        assert(split_lines_spec(Seq::<char>::empty()) == Some(Seq::<Seq<char>>::empty()));
        assert(Some(Seq::<LineV>::empty()) == Some(d)) by {
            assert(d =~= Seq::<LineV>::empty());
        }
    } else {
        let l = d[0];
        let tail = d.skip(1);
        assert forall|k: int| 0 <= k < tail.len() implies rt_wf_line(#[trigger] tail[k], base) by {
            assert(tail[k] == d[k + 1]);
        }
        lemma_parse_serialize_roundtrip(tail, base);
        match split_lines_spec(ser_doc(tail)) {
            Some(raw_tail) => {
                assert(group_lines_spec(raw_tail, base) == Some(tail));
                lemma_split_line(l, base, ser_doc(tail));
                assert(ser_doc(d) == ser_line(l) + ser_doc(tail));
                lemma_group_line(l, base, raw_tail);
                assert(Seq::empty().push(l) + tail =~= d);
            },
            None => {
                assert(false);
            },
        }
    }
}

/// Serializing one more line appends its written form.
proof fn lemma_ser_doc_snoc(d: Seq<LineV>, i: int)
    requires
        0 <= i < d.len(),
    ensures
        ser_doc(d.take(i + 1)) == ser_doc(d.take(i)) + ser_line(d[i]),
    decreases i,
{
    if i == 0 {
        assert(d.take(1)[0] == d[0]);
        assert(d.take(1).skip(1) =~= Seq::<LineV>::empty());
        assert(d.take(0) =~= Seq::<LineV>::empty());
        assert(ser_line(d[0]) + Seq::<char>::empty() =~= ser_line(d[0]));
        assert(Seq::<char>::empty() + ser_line(d[0]) =~= ser_line(d[0]));
    } else {
        lemma_ser_doc_snoc(d.skip(1), i - 1);
        assert(d.take(i + 1)[0] == d[0]);
        assert(d.take(i + 1).skip(1) =~= d.skip(1).take(i));
        assert(d.take(i)[0] == d[0]);
        assert(d.take(i).skip(1) =~= d.skip(1).take(i - 1));
        assert(d.skip(1)[i - 1] == d[i]);
        assert(ser_line(d[0]) + (ser_doc(d.skip(1).take(i - 1)) + ser_line(d[i])) =~= (ser_line(
            d[0],
        ) + ser_doc(d.skip(1).take(i - 1))) + ser_line(d[i]));
    }
}

/// Writing one more verbatim line appends it with its terminator.
proof fn lemma_ser_pre_snoc(ls: Seq<Seq<char>>, i: int)
    requires
        0 <= i < ls.len(),
    ensures
        ser_pre_lines(ls.take(i + 1)) == ser_pre_lines(ls.take(i)) + (ls[i] + crlf()),
    decreases i,
{
    if i == 0 {
        assert(ls.take(1)[0] == ls[0]);
        assert(ls.take(1).skip(1) =~= Seq::<Seq<char>>::empty());
        assert(ls.take(0) =~= Seq::<Seq<char>>::empty());
        assert((ls[0] + crlf()) + Seq::<char>::empty() =~= ls[0] + crlf());
        assert(Seq::<char>::empty() + (ls[0] + crlf()) =~= ls[0] + crlf());
    } else {
        lemma_ser_pre_snoc(ls.skip(1), i - 1);
        assert(ls.take(i + 1)[0] == ls[0]);
        assert(ls.take(i + 1).skip(1) =~= ls.skip(1).take(i));
        assert(ls.take(i)[0] == ls[0]);
        assert(ls.take(i).skip(1) =~= ls.skip(1).take(i - 1));
        assert(ls.skip(1)[i - 1] == ls[i]);
        assert((ls[0] + crlf()) + (ser_pre_lines(ls.skip(1).take(i - 1)) + (ls[i] + crlf()))
            =~= ((ls[0] + crlf()) + ser_pre_lines(ls.skip(1).take(i - 1))) + (ls[i] + crlf()));
    }
}

/// Appends the written form of one line.
fn push_line(out: &mut String, l: &Line)
    requires
        l.wf(),
    ensures
        final(out)@ == old(out)@ + ser_line(l@),
{
    match l {
        Line::Text { content } => {
            out.append(content.as_str());
            out.append("\r\n");
            proof {
                reveal_strlit("\r\n");
                assert((old(out)@ + content@) + "\r\n"@ =~= old(out)@ + ser_line(l@));
            }
        },
        Line::Link { url, link_name } => {
            out.append("=> ");
            out.append(url.as_str());
            match link_name {
                Some(n) => {
                    out.append(" ");
                    out.append(n.as_str());
                },
                None => {},
            }
            out.append("\r\n");
            proof {
                reveal_strlit("=> ");
                reveal_strlit(" ");
                reveal_strlit("\r\n");
                assert("=> "@ =~= seq!['=', '>', ' ']);
                assert(" "@ =~= seq![' ']);
                match link_name {
                    Some(n) => {
                        assert(((((old(out)@ + "=> "@) + url@) + " "@) + n@) + "\r\n"@ =~= old(
                            out,
                        )@ + ser_line(l@));
                    },
                    None => {
                        assert(((old(out)@ + "=> "@) + url@) + "\r\n"@ =~= old(out)@ + ser_line(
                            l@,
                        ));
                    },
                }
            }
        },
        Line::Heading { content, level } => {
            if *level == 1 {
                out.append("# ");
                proof {
                    reveal_strlit("# ");
                    assert("# "@ =~= hashes(1) + seq![' ']);
                }
            } else if *level == 2 {
                out.append("## ");
                proof {
                    reveal_strlit("## ");
                    assert("## "@ =~= hashes(2) + seq![' ']);
                }
            } else {
                out.append("### ");
                proof {
                    reveal_strlit("### ");
                    assert("### "@ =~= hashes(3) + seq![' ']);
                }
            }
            out.append(content.as_str());
            out.append("\r\n");
            proof {
                reveal_strlit("\r\n");
                assert(((old(out)@ + (hashes(*level as int) + seq![' '])) + content@) + "\r\n"@
                    =~= old(out)@ + ser_line(l@));
            }
        },
        Line::UnorderedListItem { content } => {
            out.append("* ");
            out.append(content.as_str());
            out.append("\r\n");
            proof {
                reveal_strlit("* ");
                reveal_strlit("\r\n");
                assert("* "@ =~= seq!['*', ' ']);
                assert(((old(out)@ + "* "@) + content@) + "\r\n"@ =~= old(out)@ + ser_line(l@));
            }
        },
        Line::Quote { content } => {
            out.append("> ");
            out.append(content.as_str());
            out.append("\r\n");
            proof {
                reveal_strlit("> ");
                reveal_strlit("\r\n");
                assert("> "@ =~= seq!['>', ' ']);
                assert(((old(out)@ + "> "@) + content@) + "\r\n"@ =~= old(out)@ + ser_line(l@));
            }
        },
        Line::Preformatted { alt_text, lines } => {
            out.append("```");
            match alt_text {
                Some(a) => {
                    out.append(" ");
                    out.append(a.as_str());
                },
                None => {},
            }
            out.append("\r\n");
            proof {
                reveal_strlit("```");
                reveal_strlit(" ");
                reveal_strlit("\r\n");
                assert("```"@ =~= fence_seq());
                assert(" "@ =~= seq![' ']);
                match alt_text {
                    Some(a) => {
                        assert((((old(out)@ + "```"@) + " "@) + a@) + "\r\n"@ =~= old(out)@ + (
                        raw_line(l@) + crlf()));
                    },
                    None => {
                        assert((old(out)@ + "```"@) + "\r\n"@ =~= old(out)@ + (raw_line(l@)
                            + crlf()));
                    },
                }
            }
            let ghost mid = out@;
            let ghost view = lines@.map_values(|x: Line| text_content(x));
            let n = lines.len();
            let mut i: usize = 0;
            proof {
                assert(view.take(0) =~= Seq::<Seq<char>>::empty());
                assert(mid + Seq::<char>::empty() =~= mid);
            }
            while i < n
                invariant
                    0 <= i <= n,
                    n == lines@.len(),
                    view == lines@.map_values(|x: Line| text_content(x)),
                    forall|k: int| 0 <= k < lines@.len() ==> lines@[k] is Text,
                    out@ == mid + ser_pre_lines(view.take(i as int)),
                decreases n - i,
            {
                match lines[i].get_content() {
                    Some(c) => {
                        out.append(c.as_str());
                    },
                    None => {
                        proof {
                            assert(false);
                        }
                    },
                }
                out.append("\r\n");
                proof {
                    reveal_strlit("\r\n");
                    lemma_ser_pre_snoc(view, i as int);
                    assert(view[i as int] == text_content(lines@[i as int]));
                    assert(out@ =~= mid + ser_pre_lines(view.take(i as int + 1)));
                }
                i = i + 1;
            }
            out.append("```");
            out.append("\r\n");
            proof {
                reveal_strlit("```");
                reveal_strlit("\r\n");
                assert(view.take(n as int) =~= view);
                assert(((mid + ser_pre_lines(view)) + "```"@) + "\r\n"@ =~= old(out)@ + ser_line(
                    l@,
                ));
            }
        },
    }
}

/// Writes a document back out in canonical form.
pub fn serialize(d: &Document) -> (r: String)
    requires
        d.wf(),
    ensures
        r@ == ser_doc(d@),
{
    let mut out = String::new();
    let lines = d.lines();
    let ghost view = lines_view(lines@);
    let n = lines.len();
    let mut i: usize = 0;
    proof {
        assert(view.take(0) =~= Seq::<LineV>::empty());
    }
    while i < n
        invariant
            0 <= i <= n,
            n == lines@.len(),
            view == lines_view(lines@),
            view == d@,
            forall|k: int| 0 <= k < lines@.len() ==> (#[trigger] lines@[k]).wf(),
            out@ == ser_doc(view.take(i as int)),
        decreases n - i,
    {
        push_line(&mut out, &lines[i]);
        proof {
            lemma_ser_doc_snoc(view, i as int);
            assert(view[i as int] == lines@[i as int]@);
        }
        i = i + 1;
    }
    proof {
        assert(view.take(n as int) =~= d@);
    }
    out
}

/// A link's resolved URL, fit to be written and resolved again: free of
/// terminators and blanks, non-empty, and resolving to itself against the
/// base.  True of every other line.
pub open spec fn link_url_ok(l: LineV, base: Seq<char>) -> bool {
    match l {
        LineV::Link { url, .. } => plain(url) && url.len() > 0 && (forall|j: int|
            0 <= j < url.len() ==> !is_blank(url[j])) && url_join_of(base, url) == Some(url),
        _ => true,
    }
}

/// Every link of the document satisfies [`link_url_ok`].
pub open spec fn link_urls_stable(d: Seq<LineV>, base: Seq<char>) -> bool {
    forall|k: int| 0 <= k < d.len() ==> link_url_ok(#[trigger] d[k], base)
}

/// Dropping a prefix keeps a sequence free of line terminators.
proof fn lemma_plain_skip(s: Seq<char>, k: int)
    requires
        plain(s),
        0 <= k <= s.len(),
    ensures
        plain(s.skip(k)),
{
    assert forall|j: int| 0 <= j < s.skip(k).len() implies !is_line_break(s.skip(k)[j]) by {
        assert(s.skip(k)[j] == s[j + k]);
    }
}

/// Trimming the front keeps a sequence free of line terminators.
proof fn lemma_trim_front_plain(s: Seq<char>)
    requires
        plain(s),
    ensures
        plain(trim_front(s)),
    decreases s.len(),
{
    if s.len() > 0 && is_blank(s[0]) {
        lemma_plain_skip(s, 1);
        lemma_trim_front_plain(s.skip(1));
    }
}

/// Trimming the back keeps a sequence free of line terminators.
proof fn lemma_trim_back_plain(s: Seq<char>)
    requires
        plain(s),
    ensures
        plain(trim_back(s)),
    decreases s.len(),
{
    if s.len() > 0 && is_blank(s[s.len() - 1]) {
        assert forall|j: int| 0 <= j < s.len() - 1 implies !is_line_break(
            #[trigger] s.take(s.len() - 1)[j],
        ) by {
            assert(s.take(s.len() - 1)[j] == s[j]);
        }
        lemma_trim_back_plain(s.take(s.len() - 1));
    }
}

/// Trimming keeps a sequence free of line terminators.
proof fn lemma_trim_plain(s: Seq<char>)
    requires
        plain(s),
    ensures
        plain(trim_spec(s)),
{
    lemma_trim_front_plain(s);
    lemma_trim_back_plain(trim_front(s));
}

/// The raw lines split off a document text carry no line terminators.
proof fn lemma_split_output_plain(s: Seq<char>, ls: Seq<Seq<char>>)
    requires
        split_lines_spec(s) == Some(ls),
    ensures
        forall|k: int| 0 <= k < ls.len() ==> plain(#[trigger] ls[k]),
    decreases s.len(),
{
    if s.len() == 0 {
    } else {
        let k0 = content_end(s) as int;
        lemma_content_end(s);
        match split_lines_spec(s.skip(k0 + 2)) {
            Some(rest) => {
                lemma_split_output_plain(s.skip(k0 + 2), rest);
                assert forall|j: int| 0 <= j < k0 implies !is_line_break(s.take(k0)[j]) by {
                    assert(s.take(k0)[j] == s[j]);
                }
                assert forall|k: int| 0 <= k < ls.len() implies plain(#[trigger] ls[k]) by {
                    if k == 0 {
                        assert(ls[0] == s.take(k0));
                    } else {
                        assert(ls[k] == rest[k - 1]);
                    }
                }
            },
            None => {
                assert(false);
            },
        }
    }
}

/// No raw line before [`close_dist`] is the bare fence.
proof fn lemma_close_dist_props(ls: Seq<Seq<char>>)
    ensures
        close_dist(ls) <= ls.len(),
        forall|j: int| 0 <= j < close_dist(ls) ==> ls[j] != fence_seq(),
    decreases ls.len(),
{
    if ls.len() > 0 && ls[0] != fence_seq() {
        lemma_close_dist_props(ls.skip(1));
        assert forall|j: int| 0 <= j < close_dist(ls) implies ls[j] != fence_seq() by {
            if j > 0 {
                assert(ls[j] == ls.skip(1)[j - 1]);
            }
        }
    }
}

/// What classification makes of a plain raw line lies within
/// [`rt_wf_line`], given the link URL facts.
proof fn lemma_classify_output_wf(raw: Seq<char>, base: Seq<char>, l: LineV)
    requires
        plain(raw),
        !is_fence(raw),
        classify_spec(raw, base) == Some(l),
        link_url_ok(l, base),
    ensures
        rt_wf_line(l, base),
{
    if is_link_start(raw) {
        let rest = trim_front(raw.skip(2));
        let t = token_len(rest) as int;
        let x = rest.skip(t);
        lemma_plain_skip(raw, 2);
        lemma_trim_front_plain(raw.skip(2));
        assert(0 <= t <= rest.len()) by {
            lemma_token_len_bound(rest);
        }
        lemma_plain_skip(rest, t);
        match clean_up_spec(x) {
            Some(_) => {
                lemma_trim_spec_trimmed(x);
                lemma_trim_plain(x);
            },
            None => {},
        }
    } else if raw.len() > 0 && raw[0] == '#' {
        let k = hash_count(raw) as int;
        assert(0 <= k <= raw.len()) by {
            lemma_hash_count_bound(raw);
        }
        lemma_plain_skip(raw, k);
        lemma_trim_spec_trimmed(raw.skip(k));
        lemma_trim_plain(raw.skip(k));
    } else if raw.len() > 0 && raw[0] == '*' {
        lemma_plain_skip(raw, 1);
        lemma_trim_spec_trimmed(raw.skip(1));
        lemma_trim_plain(raw.skip(1));
    } else if raw.len() > 0 && raw[0] == '>' {
        lemma_plain_skip(raw, 1);
        lemma_trim_spec_trimmed(raw.skip(1));
        lemma_trim_plain(raw.skip(1));
    } else {
    }
}

/// [`token_len`] never runs past the end.
proof fn lemma_token_len_bound(s: Seq<char>)
    ensures
        token_len(s) <= s.len(),
    decreases s.len(),
{
    if s.len() > 0 && !is_blank(s[0]) {
        lemma_token_len_bound(s.skip(1));
    }
}

/// [`hash_count`] never runs past the end.
proof fn lemma_hash_count_bound(s: Seq<char>)
    ensures
        hash_count(s) <= s.len(),
    decreases s.len(),
{
    if s.len() > 0 && s[0] == '#' {
        lemma_hash_count_bound(s.skip(1));
    }
}

/// Grouped output lies within [`rt_wf`], given the link URL facts.
proof fn lemma_group_output_wf(ls: Seq<Seq<char>>, base: Seq<char>, d: Seq<LineV>)
    requires
        group_lines_spec(ls, base) == Some(d),
        forall|k: int| 0 <= k < ls.len() ==> plain(#[trigger] ls[k]),
        link_urls_stable(d, base),
    ensures
        rt_wf(d, base),
    decreases ls.len(),
{
    if ls.len() == 0 {
    } else if is_fence(ls[0]) {
        let dd = close_dist(ls.skip(1)) as int;
        let inner = ls.subrange(1, 1 + dd);
        let pre = LineV::Preformatted { alt_text: fence_alt(ls[0]), lines: inner };
        match group_lines_spec(ls.skip(2 + dd), base) {
            Some(rest) => {
                assert forall|k: int| 0 <= k < ls.skip(2 + dd).len() implies plain(
                    #[trigger] ls.skip(2 + dd)[k],
                ) by {
                    assert(ls.skip(2 + dd)[k] == ls[k + 2 + dd]);
                }
                assert(link_urls_stable(rest, base)) by {
                    assert forall|k: int| 0 <= k < rest.len() implies link_url_ok(
                        #[trigger] rest[k],
                        base,
                    ) by {
                        assert(rest[k] == d[k + 1]);
                    }
                }
                lemma_group_output_wf(ls.skip(2 + dd), base, rest);
                let x = ls[0].skip(3);
                lemma_plain_skip(ls[0], 3);
                match clean_up_spec(x) {
                    Some(_) => {
                        lemma_trim_spec_trimmed(x);
                        lemma_trim_plain(x);
                    },
                    None => {},
                }
                lemma_close_dist_props(ls.skip(1));
                assert forall|j: int|
                    0 <= j < inner.len() implies plain(#[trigger] inner[j]) && inner[j]
                    != fence_seq() by {
                    assert(inner[j] == ls[j + 1]);
                    assert(ls.skip(1)[j] == ls[j + 1]);
                }
                assert(rt_wf_line(pre, base));
                assert forall|k: int| 0 <= k < d.len() implies rt_wf_line(#[trigger] d[k], base) by {
                    if k == 0 {
                        assert(d[0] == pre);
                    } else {
                        assert(d[k] == rest[k - 1]);
                    }
                }
            },
            None => {
                assert(false);
            },
        }
    } else {
        match classify_spec(ls[0], base) {
            Some(l) => match group_lines_spec(ls.skip(1), base) {
                Some(rest) => {
                    assert(d[0] == l);
                    lemma_classify_output_wf(ls[0], base, l);
                    assert forall|k: int| 0 <= k < ls.skip(1).len() implies plain(
                        #[trigger] ls.skip(1)[k],
                    ) by {
                        assert(ls.skip(1)[k] == ls[k + 1]);
                    }
                    assert(link_urls_stable(rest, base)) by {
                        assert forall|k: int| 0 <= k < rest.len() implies link_url_ok(
                            #[trigger] rest[k],
                            base,
                        ) by {
                            assert(rest[k] == d[k + 1]);
                        }
                    }
                    lemma_group_output_wf(ls.skip(1), base, rest);
                    assert forall|k: int|
                        0 <= k < d.len() implies rt_wf_line(#[trigger] d[k], base) by {
                        if k > 0 {
                            assert(d[k] == rest[k - 1]);
                        }
                    }
                },
                None => {
                    assert(false);
                },
            },
            None => {
                assert(false);
            },
        }
    }
}

/// The parser's own output round-trips: any document text that parses
/// yields a structural sequence whose written form parses back to exactly
/// that sequence, whenever each resolved link URL resolves to itself
/// against the base.
pub proof fn lemma_parse_output_roundtrips(s: Seq<char>, base: Seq<char>, d: Seq<LineV>)
    requires
        doc_spec(s, base) == Some(d),
        link_urls_stable(d, base),
    ensures
        rt_wf(d, base),
        doc_spec(ser_doc(d), base) == Some(d),
{
    match split_lines_spec(s) {
        Some(ls) => {
            lemma_split_output_plain(s, ls);
            lemma_group_output_wf(ls, base, d);
            lemma_parse_serialize_roundtrip(d, base);
        },
        None => {
            assert(false);
        },
    }
}

} // verus!
