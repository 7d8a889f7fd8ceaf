//! Writing lines out as text that ends as the text they came from ended.

use crate::text::{chars_of, ends_with_cr, join_lines, joined, lemma_joined_concat,
    lemma_lines_of_joined, lemma_lines_single, lemma_lines_step, line_views, lines_of, single_line,
    single_lines, string_of, without_cr_all};
use vstd::prelude::*;

verus! {

/// Whether the text ends with a line feed.
pub open spec fn ends_with_newline(s: Seq<char>) -> bool {
    s.len() > 0 && s.last() == '\n'
}

/// The lines `ls` joined, with a line feed at the end where `source` has
/// one there.
pub open spec fn rendered(ls: Seq<Seq<char>>, source: Seq<char>) -> Seq<char> {
    if ends_with_newline(source) {
        joined(ls) + seq!['\n']
    } else {
        joined(ls)
    }
}

/// Whether an empty line is the last of several.
pub open spec fn last_line_is_blank(ls: Seq<Seq<char>>) -> bool {
    ls.len() >= 2 && ls.last().len() == 0
}

/// The lines that a vector of strings stands for.
pub open spec fn string_views(v: Seq<String>) -> Seq<Seq<char>> {
    Seq::new(v.len(), |i: int| v[i]@)
}

/// Joins `lines` and ends the result with a line feed where `source` ends
/// with one.
pub fn render(lines: &Vec<Vec<char>>, source: &Vec<char>) -> (out: String)
    ensures
        out@ == rendered(line_views(lines@), source@),
{
    let mut out = join_lines(lines);
    let n = source.len();
    if n > 0 && source[n - 1] == '\n' {
        out.push('\n');
    }
    string_of(&out)
}

/// Joins `lines` with line feeds, and ends the result with a line feed where
/// `original_text` ends with one.
pub fn join_lines_preserve_trailing_newline(lines: Vec<String>, original_text: &str) -> (out:
    String)
    ensures
        out@ == rendered(string_views(lines@), original_text@),
{
    let mut chars: Vec<Vec<char>> = Vec::new();
    let mut i: usize = 0;
    while i < lines.len()
        invariant
            i <= lines.len(),
            line_views(chars@) == string_views(lines@).take(i as int),
        decreases lines.len() - i,
    {
        let ghost before = line_views(chars@);
        chars.push(chars_of(lines[i].as_str()));
        assert(line_views(chars@) == before + seq![lines@[i as int]@]);
        i += 1;
    }
    assert(string_views(lines@).take(lines.len() as int) == string_views(lines@));
    render(&chars, &chars_of(original_text))
}

/// Whether no line of `ls` ends with a carriage return that a line feed would
/// follow once the lines are written out: none but the last ends with one,
/// and the last only where `source` does not end with a line feed.
pub open spec fn survives_rendering(ls: Seq<Seq<char>>, source: Seq<char>) -> bool {
    forall|i: int|
        0 <= i < ls.len() && ends_with_cr(#[trigger] ls[i]) ==> i == ls.len() - 1
            && !ends_with_newline(source)
}

/// The lines that are read from the text that `ls` was written out to: `ls`
/// itself, but for an empty last line without a line feed behind it, which is
/// lost, and for no lines at all with a line feed behind them, which are read
/// as one empty line.
pub open spec fn read_back(ls: Seq<Seq<char>>, source: Seq<char>) -> Seq<Seq<char>> {
    if ends_with_newline(source) {
        if ls.len() == 0 {
            seq![Seq::<char>::empty()]
        } else {
            ls
        }
    } else if ls.len() > 0 && ls.last().len() == 0 {
        ls.drop_last()
    } else {
        ls
    }
}

/// Lines that are written out and split again are the lines `read_back`.
pub proof fn lemma_read_back(ls: Seq<Seq<char>>, source: Seq<char>)
    requires
        single_lines(ls),
        survives_rendering(ls, source),
    ensures
        lines_of(rendered(ls, source)) == read_back(ls, source),
{
    let e = Seq::<char>::empty();
    let nl = seq!['\n'];
    if ends_with_newline(source) {
        if ls.len() == 0 {
            assert(rendered(ls, source) == e + nl + e);
            lemma_lines_step(e, e);
        } else {
            assert(rendered(ls, source) == joined(ls) + nl + e);
            lemma_lines_of_joined(ls, e);
            assert(without_cr_all(ls) =~= ls);
        }
    } else if ls.len() == 0 {
    } else {
        let init = ls.drop_last();
        let last = ls.last();
        assert(ls == init + seq![last]);
        assert(single_line(last));
        lemma_lines_single(last);
        assert(joined(seq![last]) == last);
        if init.len() == 0 {
            assert(joined(ls) == last);
        } else {
            lemma_joined_concat(init, seq![last]);
            assert forall|i: int| 0 <= i < init.len() implies single_line(#[trigger] init[i]) by {
                assert(init[i] == ls[i]);
            }
            lemma_lines_of_joined(init, last);
            assert(without_cr_all(init) =~= init) by {
                assert forall|i: int| 0 <= i < init.len() implies !ends_with_cr(
                    #[trigger] init[i],
                ) by {
                    assert(init[i] == ls[i]);
                }
            }
        }
    }
}

/// Lines written out end with a line feed where the source text does, and
/// otherwise only where an empty line comes last of several.
pub proof fn lemma_rendered_end(ls: Seq<Seq<char>>, source: Seq<char>)
    requires
        ls.len() > 0 && ls.last().len() > 0 ==> ls.last().last() != '\n',
    ensures
        ends_with_newline(rendered(ls, source)) == (ends_with_newline(source)
            || last_line_is_blank(ls)),
{
    if ls.len() == 1 {
        assert(joined(ls) == ls[0]);
    } else if ls.len() >= 2 {
        assert(joined(ls) == joined(ls.drop_last()) + seq!['\n'] + ls.last());
    }
}

} // verus!
