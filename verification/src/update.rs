//! Replacing the content of a section.

use crate::block::{append_body, append_lines, body_lines};
use crate::error::{result_view, EditError, EditErrorView};
use crate::markers::{has_section, indent_of, line_indent, locate_section, section_end,
    section_start};
use crate::text::{chars_of, line_views, lines_of, split_lines};
use crate::theorems::theorem_update_keeps_final_newline;
use crate::utils::{ends_with_newline, render, rendered};
use vstd::prelude::*;
use vstd::string::*;

verus! {

/// The lines `ls` with `body` in place of the lines strictly between index
/// `start` and index `end`.
pub open spec fn lines_with_body(
    ls: Seq<Seq<char>>,
    start: int,
    end: int,
    body: Seq<Seq<char>>,
) -> Seq<Seq<char>> {
    ls.take(start + 1) + body + ls.skip(end)
}

/// `text` with `content`, indented as the begin marker is, in place of the
/// lines between the markers of its section `id`; a failure where `text`
/// holds no such section.
pub open spec fn updated(text: Seq<char>, id: Seq<char>, content: Seq<char>) -> Result<
    Seq<char>,
    EditErrorView,
> {
    let ls = lines_of(text);
    let start = section_start(ls, id);
    if has_section(ls, id) {
        Ok(
            rendered(
                lines_with_body(
                    ls,
                    start,
                    section_end(ls, id),
                    body_lines(content, indent_of(ls[start])),
                ),
                text,
            ),
        )
    } else {
        Err(EditErrorView::SectionNotFound { id })
    }
}

/// Replaces the lines between the markers of the section `id` with
/// `content`, without its trailing line feeds and indented as the begin
/// marker is. The marker lines and the lines outside the section stay as they
/// are.
pub fn update(text: &str, id: &str, content: &str) -> (r: Result<String, EditError>)
    ensures
        result_view(r) == updated(text@, id@, content@),
        r matches Ok(t) ==> ends_with_newline(t@) == ends_with_newline(text@),
{
    proof {
        if updated(text@, id@, content@) is Ok {
            theorem_update_keeps_final_newline(text@, id@, content@);
        }
    }
    let chars = chars_of(text);
    let lines = split_lines(&chars);
    match locate_section(&lines, id) {
        Some((start, end)) => {
            let ghost ls = line_views(lines@);
            let indent = line_indent(&lines[start]);
            let mut out: Vec<Vec<char>> = Vec::new();
            append_lines(&mut out, &lines, 0, start + 1);
            append_body(&mut out, content, &indent);
            append_lines(&mut out, &lines, end, lines.len());
            assert(line_views(out@) == lines_with_body(
                ls,
                start as int,
                end as int,
                body_lines(content@, indent@),
            ));
            Ok(render(&out, &chars))
        },
        None => Err(EditError::SectionNotFound { id: String::from_str(id) }),
    }
}

} // verus!
