//! The classic command syntax: commands written without pipes, as in
//! `ZELDA SAY "Hey!"`, `CHOICE Do the thing` and `GOTO %START%`.
//!
//! Lines nest by four-space indentation, and nested lines become the
//! sub-statements of the speech or choice line that opens them.

pub mod choice;
pub mod goto;
pub mod indented_block;
pub mod line;
pub mod parser;
pub mod say;

use vstd::prelude::*;

verus! {

/// A failure to read text as classic syntax.
#[derive(Debug, Clone, Copy, PartialEq, Eq, Structural)]
pub enum ClassicError {
    /// The text is not a command, marker or block of the classic syntax.
    Invalid,
    /// An indented block follows a line that cannot carry sub-statements.
    SubstatementsNotAllowed,
}

impl ClassicError {
    /// A short description of the failure.
    pub fn message(&self) -> &'static str {
        match self {
            ClassicError::Invalid => "the text is not valid classic syntax",
            ClassicError::SubstatementsNotAllowed => "this line cannot carry an indented block",
        }
    }
}

} // verus!
