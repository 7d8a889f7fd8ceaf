//! The lines of a new section: content without its trailing line feeds,
//! indented, between a begin marker and an end marker.

use crate::markers::{begin_marker, end_marker, make_begin_marker, make_end_marker, slice_of};
use crate::text::{chars_of, line_views, lines_of, split_lines};
use vstd::prelude::*;

verus! {

/// `s` without the line feeds at its end.
pub open spec fn without_trailing_newlines(s: Seq<char>) -> Seq<char>
    decreases s.len(),
{
    if s.len() > 0 && s.last() == '\n' {
        without_trailing_newlines(s.drop_last())
    } else {
        s
    }
}

/// `l` with `indent` in front, unless `l` is empty.
pub open spec fn indent_line(l: Seq<char>, indent: Seq<char>) -> Seq<char> {
    if l.len() == 0 {
        l
    } else {
        indent + l
    }
}

/// The lines of `content` without its trailing line feeds, each indented; one
/// empty line where nothing is left of the content.
pub open spec fn body_lines(content: Seq<char>, indent: Seq<char>) -> Seq<Seq<char>> {
    let ls = lines_of(without_trailing_newlines(content));
    if ls.len() == 0 {
        seq![Seq::empty()]
    } else {
        Seq::new(ls.len(), |i: int| indent_line(ls[i], indent))
    }
}

/// The lines of a section `id` that holds `content`, indented by `indent`.
pub open spec fn block_lines(id: Seq<char>, content: Seq<char>, indent: Seq<char>) -> Seq<
    Seq<char>,
> {
    seq![indent + begin_marker(id)] + body_lines(content, indent) + seq![indent + end_marker(id)]
}

/// A prefix of `s` that ends in no line feed, and after which `s` holds line
/// feeds only, is `s` without its trailing line feeds.
pub proof fn lemma_without_trailing_newlines_is(s: Seq<char>, n: int)
    requires
        0 <= n <= s.len(),
        forall|j: int| n <= j < s.len() ==> s[j] == '\n',
        n > 0 ==> s[n - 1] != '\n',
    ensures
        without_trailing_newlines(s) == s.take(n),
    decreases s.len(),
{
    if n < s.len() {
        let t = s.drop_last();
        lemma_without_trailing_newlines_is(t, n);
        assert(t.take(n) == s.take(n));
    } else {
        assert(s.take(n) == s);
    }
}

/// Copies `s` without the line feeds at its end.
pub fn strip_trailing_newlines(s: &Vec<char>) -> (out: Vec<char>)
    ensures
        out@ == without_trailing_newlines(s@),
{
    let mut n: usize = s.len();
    while n > 0 && s[n - 1] == '\n'
        invariant
            n <= s.len(),
            forall|j: int| n <= j < s.len() ==> s@[j] == '\n',
        decreases n,
    {
        n -= 1;
    }
    proof {
        lemma_without_trailing_newlines_is(s@, n as int);
    }
    slice_of(s, 0, n)
}

/// Copies the lines of `lines` from index `from` up to index `to` to the end
/// of `out`.
pub(crate) fn append_lines(out: &mut Vec<Vec<char>>, lines: &Vec<Vec<char>>, from: usize, to: usize)
    requires
        from <= to <= lines.len(),
    ensures
        line_views(final(out)@) == line_views(old(out)@) + line_views(lines@).subrange(
            from as int,
            to as int,
        ),
{
    let ghost ls = line_views(lines@);
    let ghost before = line_views(out@);
    let mut i: usize = from;
    assert(line_views(out@) == before + ls.subrange(from as int, i as int));
    while i < to
        invariant
            from <= i <= to <= lines.len(),
            ls == line_views(lines@),
            line_views(out@) == before + ls.subrange(from as int, i as int),
        decreases to - i,
    {
        let ghost sofar = line_views(out@);
        out.push(slice_of(&lines[i], 0, lines[i].len()));
        assert(lines@[i as int]@.subrange(0, lines@[i as int]@.len() as int) == lines@[i as int]@);
        assert(line_views(out@) == sofar + seq![ls[i as int]]);
        i += 1;
    }
}

/// Puts `indent` in front of `tail`.
pub fn indented(indent: &Vec<char>, tail: &Vec<char>) -> (out: Vec<char>)
    ensures
        out@ == indent@ + tail@,
{
    let mut out: Vec<char> = Vec::new();
    out.extend_from_slice(indent.as_slice());
    out.extend_from_slice(tail.as_slice());
    out
}

/// Appends to `out` the lines of `content` without its trailing line feeds,
/// each indented; one empty line where nothing is left of the content.
pub fn append_body(out: &mut Vec<Vec<char>>, content: &str, indent: &Vec<char>)
    ensures
        line_views(final(out)@) == line_views(old(out)@) + body_lines(content@, indent@),
{
    let ghost before = line_views(out@);
    let lines = split_lines(&strip_trailing_newlines(&chars_of(content)));
    let ghost ls = line_views(lines@);
    if lines.len() == 0 {
        out.push(Vec::new());
        assert(line_views(out@) == before + seq![Seq::<char>::empty()]);
        return ;
    }
    let ghost body = body_lines(content@, indent@);
    let mut i: usize = 0;
    assert(line_views(out@) == before + body.take(0));
    while i < lines.len()
        invariant
            i <= lines.len(),
            ls == line_views(lines@),
            ls == lines_of(without_trailing_newlines(content@)),
            ls.len() > 0,
            body == body_lines(content@, indent@),
            line_views(out@) == before + body.take(i as int),
        decreases lines.len() - i,
    {
        let ghost sofar = line_views(out@);
        if lines[i].len() == 0 {
            out.push(Vec::new());
        } else {
            out.push(indented(indent, &lines[i]));
        }
        assert(ls[i as int] == lines@[i as int]@);
        assert(out@.last()@ =~= indent_line(ls[i as int], indent@));
        assert(line_views(out@) == sofar + seq![body[i as int]]);
        assert(body.take(i + 1) == body.take(i as int) + seq![body[i as int]]);
        i += 1;
    }
    assert(body.take(lines.len() as int) == body);
}

/// Appends to `out` the lines of a section `id` that holds `content`,
/// indented by `indent`.
pub fn append_block(out: &mut Vec<Vec<char>>, id: &str, content: &str, indent: &Vec<char>)
    ensures
        line_views(final(out)@) == line_views(old(out)@) + block_lines(id@, content@, indent@),
{
    let ghost before = line_views(out@);
    out.push(indented(indent, &chars_of(make_begin_marker(id).as_str())));
    assert(line_views(out@) == before + seq![indent@ + begin_marker(id@)]);
    append_body(out, content, indent);
    let ghost sofar = line_views(out@);
    out.push(indented(indent, &chars_of(make_end_marker(id).as_str())));
    assert(line_views(out@) == sofar + seq![indent@ + end_marker(id@)]);
}

/// A text without its trailing line feeds does not end with a line feed.
pub proof fn lemma_without_trailing_newlines(s: Seq<char>)
    ensures
        without_trailing_newlines(s).len() > 0 ==> without_trailing_newlines(s).last() != '\n',
    decreases s.len(),
{
    if s.len() > 0 && s.last() == '\n' {
        lemma_without_trailing_newlines(s.drop_last());
    }
}

} // verus!
