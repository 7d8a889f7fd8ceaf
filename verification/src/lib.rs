//! Editing of marker-delimited sections inside text.
//!
//! A section is a run of lines between a begin marker and an end marker that
//! carry the same identifier. Every operation is a pure function from text to
//! text, and each one is specified over the sequence of lines of its input.

pub mod text;
pub mod markers;
pub mod error;
pub mod utils;
pub mod block;
pub mod extract;
pub mod remove;
pub mod update;
pub mod wrap;
pub mod trim;
pub mod insert;
pub mod upsert;
pub mod theorems;

pub use crate::error::EditError;
pub use crate::extract::extract;
pub use crate::insert::insert;
pub use crate::markers::{find_marker_for_anchor, find_section, make_begin_marker, make_end_marker,
    make_insert_marker, Section};
pub use crate::remove::remove;
pub use crate::trim::trim;
pub use crate::update::update;
pub use crate::upsert::upsert;
pub use crate::utils::join_lines_preserve_trailing_newline;
pub use crate::wrap::wrap;
