//! Speech lines of the classic syntax: `SAY text` or `SUBJECT SAY text`.

use crate::classic::ClassicError;
use crate::classic::line::{ClassicLineV, Line, spec_classic_content, spec_line_core};
use crate::text::chars_of;
use vstd::prelude::*;

verus! {

/// A classic speech line: an optional subject, the text spoken, and the
/// sub-statements of any indented block beneath it.
#[derive(Debug, PartialEq, Eq)]
pub struct Say {
    pub subject: Option<String>,
    pub text: String,
    pub sub_statements: Vec<Line>,
}

impl View for Say {
    type V = ClassicLineV;

    open spec fn view(&self) -> ClassicLineV {
        crate::classic::line::spec_classic_line_view(Line::Say(*self))
    }
}

impl Say {
    /// Create a new `Say` with no sub-statements.
    pub fn new(subject: Option<String>, text: String) -> (r: Say)
        ensures
            r@ == (ClassicLineV::Say {
                subject: match subject {
                    Some(p) => Some(p@),
                    None => None,
                },
                text: text@,
                subs: Seq::<ClassicLineV>::empty(),
            }),
    {
        let r = Say { subject, text, sub_statements: Vec::new() };
        proof {
            assert(crate::classic::line::spec_classic_subs_view(r.sub_statements, 0) =~= Seq::<
                ClassicLineV,
            >::empty());
        }
        r
    }

    /// Parse a classic speech line; fails where the text is not one.
    pub fn parse(say_str: &str) -> (r: Result<Say, ClassicError>)
        ensures
            r is Ok ==> spec_classic_content(spec_line_core(say_str@)) == Some(r->Ok_0@),
            r is Ok ==> r->Ok_0@ is Say,
            spec_classic_content(spec_line_core(say_str@)) matches Some(l) && l is Say ==> r
                is Ok,
    {
        match Line::parse(say_str) {
            Ok(Line::Say(s)) => Ok(s),
            Ok(_) => Err(ClassicError::Invalid),
            Err(e) => Err(e),
        }
    }
}

} // verus!
