//! The ways a parse can fail.
use vstd::prelude::*;

verus! {

/// Why a parse failed.
#[derive(Debug, PartialEq, Eq)]
pub enum ParseError {
    /// An end event came while no element was open.
    UnmatchedEnd,
    /// A heading level outside 1 to 6.
    InvalidHeadingLevel(u32),
    /// The markup parser rejected a fragment; its message.
    Markup(String),
}

} // verus!
