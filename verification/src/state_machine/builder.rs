//! A builder for [`StateMachine`]: takes the script to walk and builds the
//! marker map.

use crate::script::Script;
use crate::state_machine::{StateMachine, build_marker_map, spec_top_markers,
    spec_top_markers_distinct};
use vstd::prelude::*;

verus! {

/// A failure to build a state machine.
#[derive(Debug, Clone, Copy, PartialEq, Eq, Structural)]
pub enum BuilderError {
    /// No script was given to the builder.
    MissingScript,
    /// A top-level marker name repeats in the script.
    DuplicateMarker,
}

impl BuilderError {
    /// A short description of the failure.
    pub fn message(&self) -> &'static str {
        match self {
            BuilderError::MissingScript => "a script is required to build a state machine",
            BuilderError::DuplicateMarker => "a marker is declared more than once",
        }
    }
}

/// A builder for a state machine.
#[derive(Debug)]
pub struct Builder<'s> {
    script: Option<&'s Script>,
}

impl<'s> Builder<'s> {
    /// The script given so far.
    pub closed spec fn spec_script(self) -> Option<Script> {
        match self.script {
            Some(s) => Some(*s),
            None => None,
        }
    }

    /// Create a builder with no script.
    pub fn new() -> (r: Builder<'s>)
        ensures
            r.spec_script() is None,
    {
        Builder { script: None }
    }

    /// Give the builder the script to walk.
    pub fn script(&mut self, script: &'s Script) -> (r: &mut Builder<'s>)
        ensures
            (*r).spec_script() == Some(*script),
            *final(self) == *final(r),
    {
        self.script = Some(script);
        self
    }

    /// Build the state machine: the script must have been given, and its
    /// top-level marker names must not repeat.  The walker starts on line
    /// zero.
    pub fn build(&self) -> (r: Result<StateMachine<'s>, BuilderError>)
        ensures
            r is Ok <==> (self.spec_script() matches Some(s) && spec_top_markers_distinct(
                spec_top_markers(s@, 0),
            )),
            r matches Ok(m) ==> {
                &&& self.spec_script() == Some(spec_machine_script(m))
                &&& m.spec_line() == 0
                &&& m.spec_markers() == spec_top_markers(spec_machine_script(m)@, 0)
            },
    {
        let script = match self.script {
            Some(s) => s,
            None => {
                return Err(BuilderError::MissingScript);
            },
        };
        let markers = match build_marker_map(script) {
            Ok(m) => m,
            Err(_) => {
                return Err(BuilderError::DuplicateMarker);
            },
        };
        let m = StateMachine { script, current_line: 0, markers };
        proof {
            assert(m.spec_markers() =~= Seq::new(
                markers_len_ghost(m),
                |k: int| (m.markers@[k].0@, m.markers@[k].1 as int),
            ));
        }
        Ok(m)
    }
}

/// The script a machine walks.
pub closed spec fn spec_machine_script(m: StateMachine<'_>) -> Script {
    *m.script
}

/// The length of a machine's marker map.
pub closed spec fn markers_len_ghost(m: StateMachine<'_>) -> nat {
    m.markers@.len()
}

} // verus!
