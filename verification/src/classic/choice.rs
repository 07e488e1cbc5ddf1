//! Choice lines of the classic syntax: `CHOICE text`.

use crate::classic::ClassicError;
use crate::classic::line::{ClassicLineV, Line, spec_classic_content, spec_line_core};
use vstd::prelude::*;

verus! {

/// A classic choice line: the text of the option and the sub-statements of
/// any indented block beneath it.
#[derive(Debug, PartialEq, Eq)]
pub struct Choice {
    pub text: String,
    pub sub_statements: Vec<Line>,
}

impl View for Choice {
    type V = ClassicLineV;

    open spec fn view(&self) -> ClassicLineV {
        crate::classic::line::spec_classic_line_view(Line::Choice(*self))
    }
}

impl Choice {
    /// Create a new `Choice` with no sub-statements.
    pub fn new(text: String) -> (r: Choice)
        ensures
            r@ == (ClassicLineV::Choice { text: text@, subs: Seq::<ClassicLineV>::empty() }),
    {
        let r = Choice { text, sub_statements: Vec::new() };
        proof {
            assert(crate::classic::line::spec_classic_subs_view(r.sub_statements, 0) =~= Seq::<
                ClassicLineV,
            >::empty());
        }
        r
    }

    /// Parse a classic choice line; fails where the text is not one.
    pub fn parse(choice_str: &str) -> (r: Result<Choice, ClassicError>)
        ensures
            r is Ok ==> spec_classic_content(spec_line_core(choice_str@)) == Some(r->Ok_0@),
            r is Ok ==> r->Ok_0@ is Choice,
            spec_classic_content(spec_line_core(choice_str@)) matches Some(l) && l is Choice
                ==> r is Ok,
    {
        match Line::parse(choice_str) {
            Ok(Line::Choice(c)) => Ok(c),
            Ok(_) => Err(ClassicError::Invalid),
            Err(e) => Err(e),
        }
    }
}

} // verus!
