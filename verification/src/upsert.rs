//! Replacing the content of a section, or putting the section in where the
//! text does not hold it yet.

use crate::error::{result_view, EditError, EditErrorView};
use crate::insert::{insert, inserted, option_view};
use crate::markers::{find_section, has_section};
use crate::text::lines_of;
use crate::update::{update, updated};
use crate::utils::ends_with_newline;
use vstd::prelude::*;

verus! {

/// `text` with the content of its section `id` replaced, where it holds one;
/// else `text` with a new section `id` at the anchor given.
pub open spec fn upserted(
    text: Seq<char>,
    id: Seq<char>,
    content: Seq<char>,
    before: Option<Seq<char>>,
    after: Option<Seq<char>>,
) -> Result<Seq<char>, EditErrorView> {
    if has_section(lines_of(text), id) {
        updated(text, id, content)
    } else {
        inserted(text, id, content, before, after)
    }
}

/// Updates the section `id` where `text` holds it, whatever `before` and
/// `after` are; else inserts it as `insert` does.
pub fn upsert(text: &str, id: &str, content: &str, before: Option<&str>, after: Option<&str>) -> (r:
    Result<String, EditError>)
    ensures
        result_view(r) == upserted(
            text@,
            id@,
            content@,
            option_view(before),
            option_view(after),
        ),
        r matches Ok(t) ==> ends_with_newline(t@) == ends_with_newline(text@),
{
    if find_section(text, id).is_some() {
        update(text, id, content)
    } else {
        insert(text, id, content, before, after)
    }
}

} // verus!
