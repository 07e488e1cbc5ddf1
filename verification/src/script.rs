//! Script parsing and representation.  A script is a sequence of lines,
//! comments and indented blocks, and formatting a parsed script reproduces
//! the text it was parsed from byte for byte (blank lines excepted, which
//! the parser discards).

pub mod block;
pub mod command;
pub mod comment;
pub mod element;
pub mod line;
pub mod marker;
pub mod parser;

use crate::script::element::{
    ElemV, TopLevelElement, spec_elems_view, spec_flatten_from, spec_rows_text, write_elems,
};
use vstd::prelude::*;

verus! {

/// A parsed script: its top-level elements in order.
#[derive(Debug, PartialEq, Eq)]
pub struct Script(pub Vec<TopLevelElement>);

impl View for Script {
    type V = Seq<ElemV>;

    open spec fn view(&self) -> Seq<ElemV> {
        spec_elems_view(self.0@)
    }
}

/// The full text of a document: its rows at indentation level zero.
pub open spec fn spec_script_text(doc: Seq<ElemV>) -> Seq<char> {
    spec_rows_text(spec_flatten_from(doc, 0, 0))
}

impl Script {
    /// Create an empty `Script`.
    pub fn empty() -> (r: Script)
        ensures
            r@ == Seq::<ElemV>::empty(),
    {
        let r = Script(Vec::new());
        proof {
            assert(r@ =~= Seq::<ElemV>::empty());
        }
        r
    }

    /// Parse a `Script` from a string.
    ///
    /// Succeeds exactly when the text ends with a line break (or is
    /// empty) and every non-blank line is a well-formed marker, comment
    /// or command indented by a multiple of four spaces.  Formatting the
    /// result reproduces the text, less its blank lines; where the text
    /// has no blank lines, it reproduces the text exactly.
    pub fn parse(script_str: &str) -> (r: Result<Script, ParseError>)
        ensures
            r is Ok <==> parser::spec_rows_ok(script_str@),
            r matches Ok(sc) ==> spec_flatten_from(sc@, 0, 0) == parser::spec_rows_of(
                script_str@,
            ),
            r matches Ok(sc) ==> spec_script_text(sc@) == parser::spec_kept_text_of(script_str@),
            r matches Ok(sc) ==> (parser::spec_no_blank_lines(script_str@) ==> spec_script_text(
                sc@,
            ) == script_str@),
            r matches Err(e) ==> (parser::spec_well_newlined(script_str@)
                ==> parser::spec_first_bad_line(script_str@, e.line as int)),
    {
        let rows = match parser::parse_rows(script_str) {
            Ok(rows) => rows,
            Err(e) => {
                return Err(e);
            },
        };
        match parser::build_all(rows, 0) {
            Ok(elems) => {
                proof {
                    parser::lemma_rows_text_is_kept_text(script_str@);
                }
                let r = Script(elems);
                proof {
                    assert(r@ =~= spec_elems_view(elems@));
                }
                Ok(r)
            },
            Err(e) => {
                proof {
                    assert(parser::spec_rows_min_level(
                        parser::spec_rows_view(rows@),
                        0,
                    ));
                }
                Err(e)
            },
        }
    }

    /// The elements of the script, for iteration.
    pub fn iter(&self) -> (r: &Vec<TopLevelElement>)
        ensures
            self@ == spec_elems_view(r@),
    {
        &self.0
    }

    /// The elements of the script, for mutation.
    pub fn iter_mut(&mut self) -> (r: &mut Vec<TopLevelElement>)
        ensures
            *r == old(self).0,
            final(self).0 == *final(r),
    {
        &mut self.0
    }

    /// The elements of the script, by value.
    pub fn into_iter(self) -> (r: Vec<TopLevelElement>)
        ensures
            self@ == spec_elems_view(r@),
    {
        self.0
    }

    /// The full text of the script, per [`spec_script_text`].
    pub fn to_string(&self) -> (r: String)
        ensures
            r@ == spec_script_text(self@),
    {
        let mut out: Vec<char> = Vec::new();
        let indent: Vec<char> = Vec::new();
        proof {
            assert(indent@ =~= crate::script::element::spec_indent(0));
        }
        write_elems(&self.0, &indent, Ghost(0nat), &mut out);
        crate::text::string_from_chars(&out)
    }
}

/// The one kind of failure the structural parser reports: the text could
/// not be read as a script, at the given zero-based line.
///
/// Functions that parse a fragment rather than a whole script (a single
/// marker, command or line) report line `0`.
#[derive(Debug, Clone, Copy, PartialEq, Eq)]
pub struct ParseError {
    /// Zero-based index of the offending line.
    pub line: usize,
}

impl ParseError {
    /// A short description of the failure.
    pub fn message(&self) -> &'static str {
        "the text could not be parsed as a script"
    }
}

} // verus!
