//! Taking every marker line out of a text.

use crate::markers::{slice_of, starts_with_at};
use crate::text::{chars_of, line_views, lines_of, single_line, single_lines, split_lines};
use crate::theorems::theorem_trim_keeps_final_newline;
use crate::utils::{ends_with_newline, last_line_is_blank, render, rendered};
use vstd::prelude::*;

verus! {

/// Whether the line begins, without indentation, as a marker of any kind and
/// of any identifier does.
pub open spec fn marker_prefixed(l: Seq<char>) -> bool {
    ||| "<!-- KUGIRI-BEGIN:"@.is_prefix_of(l)
    ||| "<!-- KUGIRI-END:"@.is_prefix_of(l)
    ||| "<!-- KUGIRI-INSERT:"@.is_prefix_of(l)
}

/// The lines of `ls` that do not begin as a marker does, in their order.
pub open spec fn unmarked(ls: Seq<Seq<char>>) -> Seq<Seq<char>> {
    ls.filter(|l: Seq<char>| !marker_prefixed(l))
}

/// `text` without the lines that begin as a marker does.
pub open spec fn trimmed(text: Seq<char>) -> Seq<char> {
    rendered(unmarked(lines_of(text)), text)
}

/// Tells whether the line begins as a marker does.
pub fn is_marker_prefixed(l: &Vec<char>) -> (b: bool)
    ensures
        b == marker_prefixed(l@),
{
    assert(l@.skip(0) == l@);
    starts_with_at(l, 0, &chars_of("<!-- KUGIRI-BEGIN:")) || starts_with_at(
        l,
        0,
        &chars_of("<!-- KUGIRI-END:"),
    ) || starts_with_at(l, 0, &chars_of("<!-- KUGIRI-INSERT:"))
}

/// Removes every line that begins as a marker does, whatever its
/// identifier. The other lines, blank ones too, stay as they are, in their
/// order. The result ends with a line feed exactly if `text` does, unless
/// `text` ends without one and an empty line is the last of several that
/// stay.
pub fn trim(text: &str) -> (out: String)
    ensures
        out@ == trimmed(text@),
        ends_with_newline(text@) || !last_line_is_blank(unmarked(lines_of(text@)))
            ==> ends_with_newline(out@) == ends_with_newline(text@),
{
    proof {
        if ends_with_newline(text@) || !last_line_is_blank(unmarked(lines_of(text@))) {
            theorem_trim_keeps_final_newline(text@);
        }
    }
    let chars = chars_of(text);
    let lines = split_lines(&chars);
    let ghost ls = line_views(lines@);
    let ghost keep = |l: Seq<char>| !marker_prefixed(l);
    let mut out: Vec<Vec<char>> = Vec::new();
    let mut i: usize = 0;
    proof {
        assert(ls.take(0).len() == 0);
        reveal(Seq::filter);
        assert(line_views(out@) == ls.take(0).filter(keep));
    }
    while i < lines.len()
        invariant
            i <= lines.len(),
            ls == line_views(lines@),
            keep == |l: Seq<char>| !marker_prefixed(l),
            line_views(out@) == ls.take(i as int).filter(keep),
        decreases lines.len() - i,
    {
        let ghost sofar = line_views(out@);
        proof {
            assert(ls.take(i + 1) == ls.take(i as int).push(ls[i as int]));
            ls.take(i as int).lemma_filter_push(ls[i as int], keep);
        }
        if !is_marker_prefixed(&lines[i]) {
            out.push(slice_of(&lines[i], 0, lines[i].len()));
            assert(out@.last()@ =~= ls[i as int]);
            assert(line_views(out@) == sofar.push(ls[i as int]));
        }
        i += 1;
    }
    assert(ls.take(lines.len() as int) == ls);
    render(&out, &chars)
}

/// The lines that are kept do not begin as a marker does, and hold no line
/// feed where the lines they are taken from hold none.
pub proof fn lemma_unmarked(ls: Seq<Seq<char>>)
    ensures
        forall|i: int| 0 <= i < unmarked(ls).len() ==> !marker_prefixed(#[trigger] unmarked(ls)[i]),
        single_lines(ls) ==> single_lines(unmarked(ls)),
    decreases ls.len(),
{
    reveal(Seq::filter);
    if ls.len() > 0 {
        let init = ls.drop_last();
        lemma_unmarked(init);
        if single_lines(ls) {
            assert forall|i: int| 0 <= i < init.len() implies single_line(#[trigger] init[i]) by {
                assert(init[i] == ls[i]);
            }
            assert(single_line(ls.last()));
        }
    }
}

/// Lines of which none begins as a marker does are all kept.
pub proof fn lemma_unmarked_keeps(ls: Seq<Seq<char>>)
    requires
        forall|i: int| 0 <= i < ls.len() ==> !marker_prefixed(#[trigger] ls[i]),
    ensures
        unmarked(ls) == ls,
    decreases ls.len(),
{
    reveal(Seq::filter);
    if ls.len() > 0 {
        let init = ls.drop_last();
        assert forall|i: int| 0 <= i < init.len() implies !marker_prefixed(#[trigger] init[i]) by {
            assert(init[i] == ls[i]);
        }
        lemma_unmarked_keeps(init);
        assert(init.push(ls.last()) == ls);
    }
}

/// An empty line does not begin as a marker does.
pub proof fn lemma_empty_line_is_unmarked()
    ensures
        !marker_prefixed(Seq::<char>::empty()),
{
    reveal_strlit("<!-- KUGIRI-BEGIN:");
    reveal_strlit("<!-- KUGIRI-END:");
    reveal_strlit("<!-- KUGIRI-INSERT:");
}

} // verus!
