//! Taking a section out of a text.

use crate::block::append_lines;
use crate::error::{result_view, EditError, EditErrorView};
use crate::markers::{has_section, locate_section, section_end, section_start};
use crate::text::{chars_of, line_views, lines_of, split_lines};
use crate::theorems::theorem_remove_keeps_final_newline;
use crate::utils::{ends_with_newline, last_line_is_blank, render, rendered};
use vstd::prelude::*;
use vstd::string::*;

verus! {

/// The lines `ls` without those from index `start` to index `end`.
pub open spec fn lines_without(ls: Seq<Seq<char>>, start: int, end: int) -> Seq<Seq<char>> {
    ls.take(start) + ls.skip(end + 1)
}

/// The lines of `text` that are not part of its section `id`.
pub open spec fn lines_outside(text: Seq<char>, id: Seq<char>) -> Seq<Seq<char>> {
    let ls = lines_of(text);
    lines_without(ls, section_start(ls, id), section_end(ls, id))
}

/// `text` without the lines of its section `id`, markers included; a failure
/// where `text` holds no such section.
pub open spec fn removed(text: Seq<char>, id: Seq<char>) -> Result<Seq<char>, EditErrorView> {
    if has_section(lines_of(text), id) {
        Ok(rendered(lines_outside(text, id), text))
    } else {
        Err(EditErrorView::SectionNotFound { id })
    }
}

/// Removes the section `id`: every line from its begin marker to its end
/// marker. The other lines stay as they are, in their order. The result ends
/// with a line feed exactly if `text` does, unless `text` ends without one
/// and an empty line is the last of several that stay.
pub fn remove(text: &str, id: &str) -> (r: Result<String, EditError>)
    ensures
        result_view(r) == removed(text@, id@),
        r matches Ok(t) ==> ends_with_newline(text@) || !last_line_is_blank(
            lines_outside(text@, id@),
        ) ==> ends_with_newline(t@) == ends_with_newline(text@),
{
    proof {
        if removed(text@, id@) is Ok && (ends_with_newline(text@) || !last_line_is_blank(
            lines_outside(text@, id@),
        )) {
            theorem_remove_keeps_final_newline(text@, id@);
        }
    }
    let chars = chars_of(text);
    let lines = split_lines(&chars);
    match locate_section(&lines, id) {
        Some((start, end)) => {
            let ghost ls = line_views(lines@);
            let mut out: Vec<Vec<char>> = Vec::new();
            append_lines(&mut out, &lines, 0, start);
            append_lines(&mut out, &lines, end + 1, lines.len());
            assert(line_views(out@) == lines_without(ls, start as int, end as int));
            Ok(render(&out, &chars))
        },
        None => Err(EditError::SectionNotFound { id: String::from_str(id) }),
    }
}

} // verus!
