//! Putting markers around content.

use crate::block::{strip_trailing_newlines, without_trailing_newlines};
use crate::markers::{begin_marker, end_marker, make_begin_marker, make_end_marker};
use crate::text::{chars_of, string_of};
use vstd::prelude::*;

verus! {

/// The begin marker of `id`, `content` without its trailing line feeds, and
/// the end marker of `id`, one after the other with a line feed between.
pub open spec fn wrapped(content: Seq<char>, id: Seq<char>) -> Seq<char> {
    begin_marker(id) + seq!['\n'] + without_trailing_newlines(content) + seq!['\n'] + end_marker(
        id,
    )
}

/// Puts the markers of the section `id` around `content`, without
/// indentation.
pub fn wrap(content: &str, id: &str) -> (out: String)
    ensures
        out@ == wrapped(content@, id@),
{
    let mut out = chars_of(make_begin_marker(id).as_str());
    out.push('\n');
    out.extend_from_slice(strip_trailing_newlines(&chars_of(content)).as_slice());
    out.push('\n');
    out.extend_from_slice(chars_of(make_end_marker(id).as_str()).as_slice());
    string_of(&out)
}

} // verus!
