//! Putting a new section before or after an anchor.

use crate::block::{append_block, append_lines, block_lines};
use crate::error::{result_view, EditError, EditErrorView};
use crate::markers::{anchor_end, anchor_start, has_anchor, indent_of, line_indent, locate_anchor};
use crate::text::{chars_of, line_views, lines_of, split_lines};
use crate::theorems::theorem_insert_keeps_final_newline;
use crate::utils::{ends_with_newline, render, rendered};
use vstd::prelude::*;
use vstd::string::*;

verus! {

/// What an optional identifier stands for.
pub open spec fn option_view(o: Option<&str>) -> Option<Seq<char>> {
    match o {
        Some(s) => Some(s@),
        None => None,
    }
}

/// The lines `ls` with `block` and a blank line in front of the line at
/// index `at`.
pub open spec fn lines_with_block_before(ls: Seq<Seq<char>>, at: int, block: Seq<Seq<char>>) -> Seq<
    Seq<char>,
> {
    ls.take(at) + block + seq![Seq::<char>::empty()] + ls.skip(at)
}

/// The lines `ls` with a blank line and `block` behind the line at index
/// `at`.
pub open spec fn lines_with_block_after(ls: Seq<Seq<char>>, at: int, block: Seq<Seq<char>>) -> Seq<
    Seq<char>,
> {
    ls.take(at + 1) + seq![Seq::<char>::empty()] + block + ls.skip(at + 1)
}

/// `text` with a new section `id` that holds `content`, indented as the
/// anchor is: in front of the anchor `before`, or behind the anchor `after`.
/// A failure where both or neither are given, or where `text` does not hold
/// the anchor.
pub open spec fn inserted(
    text: Seq<char>,
    id: Seq<char>,
    content: Seq<char>,
    before: Option<Seq<char>>,
    after: Option<Seq<char>>,
) -> Result<Seq<char>, EditErrorView> {
    let ls = lines_of(text);
    let anchor = if before is Some {
        before->0
    } else {
        after->0
    };
    let start = anchor_start(ls, anchor);
    let block = block_lines(id, content, indent_of(ls[start]));
    if before is Some && after is Some {
        Err(EditErrorView::InvalidAnchorSpec { both: true })
    } else if before is None && after is None {
        Err(EditErrorView::InvalidAnchorSpec { both: false })
    } else if !has_anchor(ls, anchor) {
        Err(EditErrorView::AnchorNotFound { id: anchor })
    } else if before is Some {
        Ok(rendered(lines_with_block_before(ls, start, block), text))
    } else {
        Ok(rendered(lines_with_block_after(ls, anchor_end(ls, anchor), block), text))
    }
}

/// Inserts a new section `id` that holds `content`, without its trailing line
/// feeds: directly before the first line of the anchor `before`, or directly
/// after the last line of the anchor `after`, with one blank line between the
/// new section and the anchor. The new lines are indented as the anchor is;
/// every other line stays as it is.
pub fn insert(text: &str, id: &str, content: &str, before: Option<&str>, after: Option<&str>) -> (r:
    Result<String, EditError>)
    ensures
        result_view(r) == inserted(text@, id@, content@, option_view(before), option_view(after)),
        r matches Ok(t) ==> ends_with_newline(t@) == ends_with_newline(text@),
{
    proof {
        if inserted(text@, id@, content@, option_view(before), option_view(after)) is Ok {
            theorem_insert_keeps_final_newline(
                text@,
                id@,
                content@,
                option_view(before),
                option_view(after),
            );
        }
    }
    let anchor = match (before, after) {
        (Some(_), Some(_)) => {
            return Err(EditError::InvalidAnchorSpec { both: true });
        },
        (None, None) => {
            return Err(EditError::InvalidAnchorSpec { both: false });
        },
        (Some(anchor), None) => anchor,
        (None, Some(anchor)) => anchor,
    };
    let chars = chars_of(text);
    let lines = split_lines(&chars);
    let ghost ls = line_views(lines@);
    match locate_anchor(&lines, anchor) {
        Some((start, end)) => {
            let indent = line_indent(&lines[start]);
            let ghost block = block_lines(id@, content@, indent@);
            let mut out: Vec<Vec<char>> = Vec::new();
            if before.is_some() {
                append_lines(&mut out, &lines, 0, start);
                append_block(&mut out, id, content, &indent);
                let ghost sofar = line_views(out@);
                out.push(Vec::new());
                assert(line_views(out@) == sofar + seq![Seq::<char>::empty()]);
                append_lines(&mut out, &lines, start, lines.len());
                assert(line_views(out@) == lines_with_block_before(ls, start as int, block));
            } else {
                append_lines(&mut out, &lines, 0, end + 1);
                let ghost sofar = line_views(out@);
                out.push(Vec::new());
                assert(line_views(out@) == sofar + seq![Seq::<char>::empty()]);
                append_block(&mut out, id, content, &indent);
                append_lines(&mut out, &lines, end + 1, lines.len());
                assert(line_views(out@) == lines_with_block_after(ls, end as int, block));
            }
            Ok(render(&out, &chars))
        },
        None => Err(EditError::AnchorNotFound { id: String::from_str(anchor) }),
    }
}

} // verus!
