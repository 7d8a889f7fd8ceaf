//! Reading the content of a section.

use crate::error::{result_view, EditError, EditErrorView};
use crate::markers::{find_section, section_of};
use vstd::prelude::*;
use vstd::string::*;

verus! {

/// The content of the section `id` of `text`; a failure where `text` holds no
/// such section.
pub open spec fn extracted(text: Seq<char>, id: Seq<char>) -> Result<Seq<char>, EditErrorView> {
    match section_of(text, id) {
        Some(s) => Ok(s.content),
        None => Err(EditErrorView::SectionNotFound { id }),
    }
}

/// Returns the content of the section `id`: the lines between its markers,
/// without the indent of the begin marker.
pub fn extract(text: &str, id: &str) -> (r: Result<String, EditError>)
    ensures
        result_view(r) == extracted(text@, id@),
{
    match find_section(text, id) {
        Some(s) => Ok(s.content),
        None => Err(EditError::SectionNotFound { id: String::from_str(id) }),
    }
}

} // verus!
