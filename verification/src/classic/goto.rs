//! Jump lines of the classic syntax: `GOTO %MARKER%`.

use crate::classic::ClassicError;
use crate::classic::line::{ClassicLineV, Line, spec_classic_content, spec_line_core};
use crate::script::marker::Marker;
use vstd::prelude::*;

verus! {

/// A classic jump line: the marker jumped to.
#[derive(Debug, PartialEq, Eq)]
pub struct Goto {
    pub marker: Marker,
}

impl View for Goto {
    type V = ClassicLineV;

    open spec fn view(&self) -> ClassicLineV {
        ClassicLineV::Goto(self.marker@)
    }
}

impl Goto {
    /// Create a new `Goto` to the given marker.
    pub fn new(marker: Marker) -> (r: Goto)
        ensures
            r@ == ClassicLineV::Goto(marker@),
    {
        Goto { marker }
    }

    /// Parse a classic jump line; fails where the text is not one.
    pub fn parse(goto_str: &str) -> (r: Result<Goto, ClassicError>)
        ensures
            r is Ok ==> spec_classic_content(spec_line_core(goto_str@)) == Some(r->Ok_0@),
            r is Ok ==> r->Ok_0@ is Goto,
            spec_classic_content(spec_line_core(goto_str@)) matches Some(l) && l is Goto ==> r
                is Ok,
    {
        match Line::parse(goto_str) {
            Ok(Line::Goto(g)) => Ok(g),
            Ok(_) => Err(ClassicError::Invalid),
            Err(e) => Err(e),
        }
    }
}

} // verus!
