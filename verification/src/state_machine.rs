//! A line-oriented walker over the top level of a parsed script: it steps
//! from element to element, hands out commands, follows jumps through a
//! marker map, and reports when the end marker is reached.

pub mod builder;
pub mod events;

use crate::script::Script;
use crate::script::command::{Command, CommandV};
use crate::script::element::{ElemV, TopLevelElement};
use crate::script::line::LineV;
use crate::state_tree::EngineError;
use crate::text::str_eq;
use vstd::prelude::*;

verus! {

/// A walker over the top-level elements of a script.
#[derive(Debug)]
pub struct StateMachine<'s> {
    pub(crate) current_line: usize,
    pub(crate) markers: Vec<(String, usize)>,
    pub(crate) script: &'s Script,
}

/// The top-level marker lines of `doc` from `i` on: marker name and the
/// index of the line that declares it.
pub open spec fn spec_top_markers(doc: Seq<ElemV>, i: int) -> Seq<(Seq<char>, int)>
    decreases doc.len() - i,
{
    if i < 0 || i >= doc.len() {
        Seq::<(Seq<char>, int)>::empty()
    } else {
        match doc[i] {
            ElemV::Line(LineV::Marker(nm)) => seq![(nm, i)] + spec_top_markers(doc, i + 1),
            _ => spec_top_markers(doc, i + 1),
        }
    }
}

/// The line number bound to `name`, sought from entry `k` on.
pub open spec fn spec_line_lookup_from(
    ms: Seq<(Seq<char>, int)>,
    name: Seq<char>,
    k: int,
) -> Option<int>
    decreases ms.len() - k,
{
    if k < 0 || k >= ms.len() {
        None
    } else if ms[k].0 == name {
        Some(ms[k].1)
    } else {
        spec_line_lookup_from(ms, name, k + 1)
    }
}

/// The line number bound to `name` in the marker map.
pub open spec fn spec_line_lookup(ms: Seq<(Seq<char>, int)>, name: Seq<char>) -> Option<int> {
    spec_line_lookup_from(ms, name, 0)
}

/// The first command line of `doc` at or after `i`, with its index.
pub open spec fn spec_next_command(doc: Seq<ElemV>, i: int) -> Option<(int, CommandV)>
    decreases doc.len() - i,
{
    if i < 0 || i >= doc.len() {
        None
    } else {
        match doc[i] {
            ElemV::Line(LineV::Command(c)) => Some((i, c)),
            _ => spec_next_command(doc, i + 1),
        }
    }
}

/// Whether every line of a block is a choice command with a suffix
/// (comments and nested blocks are passed over).
pub open spec fn spec_all_choices(es: Seq<ElemV>, i: int) -> bool
    decreases es.len() - i,
{
    if i < 0 || i >= es.len() {
        true
    } else {
        match es[i] {
            ElemV::Line(LineV::Command(c)) => c.name == "CHOICE"@ && c.suffix is Some
                && spec_all_choices(es, i + 1),
            ElemV::Line(LineV::Marker(_)) => false,
            _ => spec_all_choices(es, i + 1),
        }
    }
}

impl<'s> StateMachine<'s> {
    /// The document walked.
    pub closed spec fn spec_doc(self) -> Seq<ElemV> {
        (*self.script)@
    }

    /// The current line number.
    pub closed spec fn spec_line(self) -> int {
        self.current_line as int
    }

    /// The marker map: names to line numbers.
    pub closed spec fn spec_markers(self) -> Seq<(Seq<char>, int)> {
        Seq::new(self.markers@.len(), |k: int| (self.markers@[k].0@, self.markers@[k].1 as int))
    }

    /// A builder for a state machine.
    pub fn builder() -> (r: crate::state_machine::builder::Builder<'s>)
        ensures
            r.spec_script() is None,
    {
        crate::state_machine::builder::Builder::new()
    }

    /// The element at the given line number, where there is one.
    pub fn get_tle(&self, line_number: usize) -> (r: Option<&TopLevelElement>)
        ensures
            r is Some <==> line_number < self.spec_doc().len(),
            r matches Some(e) ==> e@ == self.spec_doc()[line_number as int],
    {
        if line_number < self.script.0.len() {
            proof {
                let ln = line_number as int;
                assert(self.spec_doc()[ln] == self.script.0@[ln]@);
            }
            Some(&self.script.0[line_number])
        } else {
            None
        }
    }

    /// The element at the current line, where there is one.
    pub fn current_tle(&self) -> (r: Option<&TopLevelElement>)
        ensures
            r is Some <==> self.spec_line() < self.spec_doc().len(),
            r matches Some(e) ==> e@ == self.spec_doc()[self.spec_line()],
    {
        self.get_tle(self.current_line)
    }

    /// The current line number.
    pub fn current_line_number(&self) -> (r: usize)
        ensures
            r == self.spec_line(),
    {
        self.current_line
    }

    /// Move the walker to the given line number.
    pub fn set_current_line_number(&mut self, line_number: usize)
        ensures
            final(self).spec_line() == line_number,
            final(self).spec_doc() == old(self).spec_doc(),
            final(self).spec_markers() == old(self).spec_markers(),
    {
        self.current_line = line_number;
        proof {
            assert(self.spec_markers() =~= old(self).spec_markers());
        }
    }

    /// Whether the walker stands on the end marker.
    pub fn has_ended(&self) -> (r: bool)
        ensures
            r == (self.spec_line() < self.spec_doc().len() && self.spec_doc()[self.spec_line()]
                == ElemV::Line(LineV::Marker("END"@))),
    {
        let e = match self.current_tle() {
            Some(e) => e,
            None => {
                return false;
            },
        };
        match e {
            TopLevelElement::Line(line) => {
                match line {
                    crate::script::line::Line::Marker(m) => str_eq(m.name(), "END"),
                    _ => false,
                }
            },
            _ => false,
        }
    }

    /// Follow the marker the walker stands on: the current line must be a
    /// marker, and its name must be in the marker map; the walker then
    /// moves to the mapped line.  Fails with `IllegalState` off a marker
    /// line, and with `UnknownMarker` for an unmapped name, changing
    /// nothing either way.
    pub fn follow_goto(&mut self) -> (r: Result<(), EngineError>)
        ensures
            final(self).spec_doc() == old(self).spec_doc(),
            final(self).spec_markers() == old(self).spec_markers(),
            (match spec_current_marker(old(self).spec_doc(), old(self).spec_line()) {
                Some(nm) => match spec_line_lookup(old(self).spec_markers(), nm) {
                    Some(ln) => r is Ok && final(self).spec_line() == ln,
                    None => r == Result::<(), EngineError>::Err(EngineError::UnknownMarker)
                        && final(self).spec_line() == old(self).spec_line(),
                },
                None => r == Result::<(), EngineError>::Err(EngineError::IllegalState)
                    && final(self).spec_line() == old(self).spec_line(),
            }),
    {
        let name: String;
        match self.current_tle() {
            Some(TopLevelElement::Line(crate::script::line::Line::Marker(m))) => {
                name = m.name().to_owned();
            },
            _ => {
                proof {
                    assert(self.spec_markers() =~= old(self).spec_markers());
                }
                return Err(EngineError::IllegalState);
            },
        }
        let ghost ms = self.spec_markers();
        let m = self.markers.len();
        let mut k: usize = 0;
        while k < m
            invariant
                0 <= k <= m,
                m == self.markers@.len(),
                ms == self.spec_markers(),
                ms.len() == m,
                self == old(self),
                spec_current_marker(old(self).spec_doc(), old(self).spec_line()) == Some(
                    name@,
                ),
                spec_line_lookup(ms, name@) == spec_line_lookup_from(ms, name@, k as int),
            decreases m - k,
        {
            proof {
                assert(ms[k as int] == (self.markers@[k as int].0@, self.markers@[k as int].1 as int));
            }
            if str_eq(self.markers[k].0.as_str(), name.as_str()) {
                let ln = self.markers[k].1;
                self.current_line = ln;
                proof {
                    assert(self.spec_markers() =~= old(self).spec_markers());
                }
                return Ok(());
            }
            k = k + 1;
        }
        proof {
            assert(self.spec_markers() =~= old(self).spec_markers());
        }
        Err(EngineError::UnknownMarker)
    }

    /// Check the block the walker stands on: the current line must be a
    /// block, and every line in it a choice command with a suffix.  Fails
    /// with `IllegalState` otherwise.  The walker does not move.
    pub fn enter_choice_block(&self) -> (r: Result<(), EngineError>)
        ensures
            (r is Ok <==> (self.spec_line() < self.spec_doc().len() && (self.spec_doc()[self.spec_line()] matches ElemV::Block(bs) && spec_all_choices(bs, 0)))),
    {
        let e = match self.current_tle() {
            Some(e) => e,
            None => {
                return Err(EngineError::IllegalState);
            },
        };
        let block = match e {
            TopLevelElement::Block(b) => b,
            _ => {
                return Err(EngineError::IllegalState);
            },
        };
        proof {
            crate::script::element::lemma_block_view(*block);
        }
        let ghost bs = crate::script::element::spec_elems_view(block.inner@);
        let n = block.inner.len();
        let mut i: usize = 0;
        while i < n
            invariant
                0 <= i <= n,
                n == block.inner@.len(),
                bs == crate::script::element::spec_elems_view(block.inner@),
                0 <= self.spec_line() < self.spec_doc().len(),
                self.spec_doc()[self.spec_line()] == ElemV::Block(bs),
                spec_all_choices(bs, 0) == spec_all_choices(bs, i as int),
            decreases n - i,
        {
            proof {
                assert(bs[i as int] == block.inner@[i as int]@);
            }
            match &block.inner[i] {
                TopLevelElement::Line(line) => {
                    match line {
                        crate::script::line::Line::Command(c) => {
                            if !c.is_choice() || c.suffix().is_none() {
                                return Err(EngineError::IllegalState);
                            }
                        },
                        crate::script::line::Line::Marker(_) => {
                            return Err(EngineError::IllegalState);
                        },
                    }
                },
                _ => {},
            }
            i = i + 1;
        }
        Ok(())
    }

    /// Step forward to the next command line at the top level, passing
    /// over blocks, comments and markers; the walker ends just past the
    /// returned command, or past the end when none is left.
    pub fn next_command(&mut self) -> (r: Result<Option<&'s Command>, EngineError>)
        requires
            old(self).spec_line() <= old(self).spec_doc().len(),
        ensures
            final(self).spec_doc() == old(self).spec_doc(),
            final(self).spec_markers() == old(self).spec_markers(),
            r is Ok,
            (match spec_next_command(old(self).spec_doc(), old(self).spec_line()) {
                Some((j, c)) => r == Result::<Option<&'s Command>, EngineError>::Ok(
                    r->Ok_0,
                ) && (r->Ok_0 matches Some(cmd) && cmd@ == c) && final(self).spec_line() == j
                    + 1,
                None => (r->Ok_0 is None) && final(self).spec_line() == old(self).spec_doc().len(),
            }),
    {
        let ghost doc = self.spec_doc();
        let n = self.script.0.len();
        let mut i: usize = self.current_line;
        while i < n
            invariant
                0 <= i <= n,
                n == self.script.0@.len(),
                self == old(self),
                doc == self.spec_doc(),
                spec_next_command(doc, old(self).spec_line()) == spec_next_command(doc, i as int),
            decreases n - i,
        {
            proof {
                assert(doc[i as int] == self.script.0@[i as int]@);
            }
            match &self.script.0[i] {
                TopLevelElement::Line(line) => {
                    match line {
                        crate::script::line::Line::Command(c) => {
                            self.current_line = i + 1;
                            proof {
                                assert(self.spec_markers() =~= old(self).spec_markers());
                            }
                            return Ok(Some(c));
                        },
                        crate::script::line::Line::Marker(_) => {},
                    }
                },
                _ => {},
            }
            i = i + 1;
        }
        self.current_line = n;
        proof {
            assert(self.spec_markers() =~= old(self).spec_markers());
        }
        Ok(None)
    }
}

/// The marker name the walker stands on, where it stands on one.
pub open spec fn spec_current_marker(doc: Seq<ElemV>, line: int) -> Option<Seq<char>> {
    if 0 <= line < doc.len() {
        match doc[line] {
            ElemV::Line(LineV::Marker(nm)) => Some(nm),
            _ => None,
        }
    } else {
        None
    }
}

/// Builds the map from top-level marker names to their line numbers.
/// Fails where a top-level marker name repeats.
pub fn build_marker_map(script: &Script) -> (r: Result<
    Vec<(String, usize)>,
    crate::syntax::ValidationError,
>)
    ensures
        r matches Ok(m) ==> Seq::new(m@.len(), |k: int| (m@[k].0@, m@[k].1 as int))
            == spec_top_markers(script@, 0),
        r is Ok <==> spec_top_markers_distinct(spec_top_markers(script@, 0)),
{
    let ghost doc = script@;
    let ghost tms = spec_top_markers(doc, 0);
    let n = script.0.len();
    let mut map: Vec<(String, usize)> = Vec::new();
    let mut i: usize = 0;
    while i < n
        invariant
            0 <= i <= n,
            n == script.0@.len(),
            doc == script@,
            tms == spec_top_markers(doc, 0),
            tms =~= Seq::new(map@.len(), |k: int| (map@[k].0@, map@[k].1 as int)) + spec_top_markers(
                doc,
                i as int,
            ),
            spec_top_markers_distinct(
                Seq::new(map@.len(), |k: int| (map@[k].0@, map@[k].1 as int)),
            ),
        decreases n - i,
    {
        proof {
            assert(doc[i as int] == script.0@[i as int]@);
        }
        match &script.0[i] {
            TopLevelElement::Line(line) => {
                match line {
                    crate::script::line::Line::Marker(m) => {
                        let ghost mv = Seq::new(
                            map@.len(),
                            |k: int| (map@[k].0@, map@[k].1 as int),
                        );
                        let mut k: usize = 0;
                        let ml = map.len();
                        while k < ml
                            invariant
                                0 <= k <= ml,
                                ml == map@.len(),
                                mv == Seq::new(map@.len(), |q: int| (map@[q].0@, map@[q].1 as int)),
                                0 <= i < doc.len(),
                                doc == script@,
                                doc[i as int] == ElemV::Line(LineV::Marker(m@)),
                                tms == spec_top_markers(doc, 0),
                                tms == mv + spec_top_markers(doc, i as int),
                                forall|q: int| 0 <= q < k ==> (#[trigger] mv[q]).0 != m@,
                            decreases ml - k,
                        {
                            proof {
                                assert(mv[k as int] == (map@[k as int].0@, map@[k as int].1 as int));
                            }
                            if str_eq(map[k].0.as_str(), m.name()) {
                                proof {
                                    let ml2 = map@.len() as int;
                                    assert(spec_top_markers(doc, i as int) == seq![
                                        (m@, i as int),
                                    ] + spec_top_markers(doc, i as int + 1));
                                    assert(tms.len() > ml2);
                                    assert(tms[ml2] == (m@, i as int));
                                    assert(tms[k as int] == mv[k as int]);
                                    assert(tms[k as int].0 == m@);
                                    assert(!spec_top_markers_distinct(tms)) by {
                                        assert(0 <= k < ml2 < tms.len());
                                        assert(tms[k as int].0 == tms[ml2].0);
                                    }
                                }
                                return Err(crate::syntax::ValidationError::DuplicateMarker);
                            }
                            k = k + 1;
                        }
                        let name = m.name().to_owned();
                        proof {
                            assert(Seq::new(
                                map@.push((name, i)).len(),
                                |q: int| (map@.push((name, i))[q].0@, map@.push((name, i))[q].1 as int),
                            ) =~= mv.push((m@, i as int)));
                            assert(spec_top_markers(doc, i as int) == seq![(m@, i as int)]
                                + spec_top_markers(doc, i as int + 1));
                            assert(tms =~= mv.push((m@, i as int)) + spec_top_markers(
                                doc,
                                i as int + 1,
                            ));
                        }
                        map.push((name, i));
                    },
                    _ => {},
                }
            },
            _ => {},
        }
        i = i + 1;
    }
    proof {
        assert(spec_top_markers(doc, n as int) =~= Seq::<(Seq<char>, int)>::empty());
        assert(tms =~= Seq::new(map@.len(), |k: int| (map@[k].0@, map@[k].1 as int)));
    }
    Ok(map)
}

/// Whether no marker name repeats in the collected list.
pub open spec fn spec_top_markers_distinct(tms: Seq<(Seq<char>, int)>) -> bool {
    forall|a: int, b: int|
        0 <= a < b < tms.len() ==> (#[trigger] tms[a]).0 != (#[trigger] tms[b]).0
}

} // verus!
