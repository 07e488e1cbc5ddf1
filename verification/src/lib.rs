//! A language for writing branching, interactable dialogue, and an engine
//! that steps through scripts written in it.
//!
//! A script is plain text organised by four-space indentation into a tree
//! of speech lines, multiple-choice branches and named jump targets.  The
//! [`script`] module parses that text into a document tree and formats it
//! back, reproducing the input byte for byte (blank lines excepted).  The
//! [`tree`] module is a generic append-only arena tree; [`state_tree`]
//! flattens a parsed script into such a tree and walks it one tick at a
//! time, pausing wherever a choice must be made.  [`syntax`] checks a
//! parsed script against the command shapes and marker rules, and
//! [`state_machine`] is a simpler, line-oriented walker over the top level
//! of a script.  [`classic`] reads the older pipe-less command syntax.
//!
//! ```text
//! %START%
//! ZELDA |SAY| "Hey there!"
//!     |CHOICE| "Hi yourself."
//!         |GOTO| START
//! %END%
//! ```

pub mod classic;
pub mod script;
pub mod state_machine;
pub mod state_tree;
pub mod syntax;
pub mod text;
pub mod tree;

pub use script::Script;
pub use state_tree::StateTree;
pub use syntax::{check_syntax, check_syntax_with_options};
