//! The ways in which an editing operation fails.

use vstd::prelude::*;
use vstd::string::*;

verus! {

/// What an `EditError` stands for.
pub enum EditErrorView {
    SectionNotFound { id: Seq<char> },
    AnchorNotFound { id: Seq<char> },
    InvalidAnchorSpec { both: bool },
}

/// Why an editing operation returned no text.
#[derive(Debug, Clone, PartialEq, Eq)]
pub enum EditError {
    /// The text holds no section with this identifier.
    SectionNotFound { id: String },
    /// The text holds neither a section nor an insertion point with this
    /// identifier.
    AnchorNotFound { id: String },
    /// An insertion names both a line to go before and one to go after
    /// (`both`), or neither.
    InvalidAnchorSpec { both: bool },
}

impl View for EditError {
    type V = EditErrorView;

    open spec fn view(&self) -> EditErrorView {
        match self {
            EditError::SectionNotFound { id } => EditErrorView::SectionNotFound { id: id@ },
            EditError::AnchorNotFound { id } => EditErrorView::AnchorNotFound { id: id@ },
            EditError::InvalidAnchorSpec { both } => EditErrorView::InvalidAnchorSpec {
                both: *both,
            },
        }
    }
}

impl EditErrorView {
    /// The message that describes the failure.
    pub open spec fn message(self) -> Seq<char> {
        match self {
            EditErrorView::SectionNotFound { id } => "Section with id '"@ + id + "' not found"@,
            EditErrorView::AnchorNotFound { id } => "Marker with id '"@ + id + "' not found"@,
            EditErrorView::InvalidAnchorSpec { both } => if both {
                "Specify only one of --before or --after"@
            } else {
                "Must specify --before or --after for insert command"@
            },
        }
    }
}

impl EditError {
    /// The message that describes the failure.
    pub fn to_string(&self) -> (m: String)
        ensures
            m@ == self@.message(),
    {
        match self {
            EditError::SectionNotFound { id } => {
                let mut m = String::from_str("Section with id '");
                m.append(id.as_str());
                m.append("' not found");
                m
            },
            EditError::AnchorNotFound { id } => {
                let mut m = String::from_str("Marker with id '");
                m.append(id.as_str());
                m.append("' not found");
                m
            },
            EditError::InvalidAnchorSpec { both } => {
                if *both {
                    String::from_str("Specify only one of --before or --after")
                } else {
                    String::from_str("Must specify --before or --after for insert command")
                }
            },
        }
    }
}

/// What the result of an editing operation stands for.
pub open spec fn result_view(r: Result<String, EditError>) -> Result<Seq<char>, EditErrorView> {
    match r {
        Ok(text) => Ok(text@),
        Err(e) => Err(e@),
    }
}

} // verus!
