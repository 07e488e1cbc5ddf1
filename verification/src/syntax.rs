//! Syntax checking for parsed scripts: the structural rules a script must
//! meet before the engine may run it.
//!
//! A valid script opens with the `%START%` marker (comments may precede
//! it), is not empty after it, declares no marker twice, and shapes each
//! command correctly: speech needs a suffix, choices forbid a prefix,
//! jumps name a valid marker and are not followed by a block, and unknown
//! commands follow the configured severity.

pub mod commands;
pub mod options;

use crate::script::Script;
use crate::script::element::{ElemV, TopLevelElement};
use crate::script::line::LineV;
use crate::syntax::commands::{check_command, spec_command_ok};
use crate::syntax::options::{SyntaxCheckerOptions, spec_default_options};
use crate::text::str_eq;
use vstd::prelude::*;

verus! {

/// A structural rule the script breaks.
#[derive(Debug, Clone, Copy, PartialEq, Eq, Structural)]
pub enum ValidationError {
    /// The script has no elements besides comments.
    EmptyScript,
    /// The first element after any comments is not the start marker.
    MissingStartMarker,
    /// A marker is declared before the start marker.
    MarkerBeforeStart,
    /// A marker immediately follows the start marker.
    MarkerAfterStart,
    /// No command stands between the start and end markers.
    NoCommands,
    /// A marker is declared more than once.
    DuplicateMarker,
    /// A command that needs a suffix has none.
    MissingSuffix,
    /// A command that forbids a prefix has one.
    ForbiddenPrefix,
    /// A block follows a jump and could never be reached.
    UnreachableAfterJump,
    /// A jump names something that is not a valid marker name.
    InvalidMarkerName,
    /// A command name is not recognised, under the deny policy.
    UnknownCommand,
}

impl ValidationError {
    /// A short description of the rule broken.
    pub fn message(&self) -> &'static str {
        match self {
            ValidationError::EmptyScript => "the script has no elements besides comments",
            ValidationError::MissingStartMarker => "the script must open with the start marker",
            ValidationError::MarkerBeforeStart => "a marker is declared before the start marker",
            ValidationError::MarkerAfterStart => "a marker immediately follows the start marker",
            ValidationError::NoCommands => "no command follows the start marker",
            ValidationError::DuplicateMarker => "a marker is declared more than once",
            ValidationError::MissingSuffix => "this command needs a suffix",
            ValidationError::ForbiddenPrefix => "this command does not allow a prefix",
            ValidationError::UnreachableAfterJump => "a block after a jump can never be reached",
            ValidationError::InvalidMarkerName => "a jump needs a valid marker name",
            ValidationError::UnknownCommand => "this command name is not recognised",
        }
    }
}

/// The first element from `i` on that is not a comment, or the length.
pub open spec fn spec_first_non_comment(es: Seq<ElemV>, i: int) -> int
    decreases es.len() - i,
{
    if i < 0 || i >= es.len() {
        es.len() as int
    } else if es[i] is Comment {
        spec_first_non_comment(es, i + 1)
    } else {
        i
    }
}

/// Whether the element is a marker line.
pub open spec fn spec_is_marker_line(e: ElemV) -> bool {
    e matches ElemV::Line(LineV::Marker(_))
}

/// Whether a block immediately follows element `k`.
pub open spec fn spec_next_is_block(es: Seq<ElemV>, k: int) -> bool {
    k + 1 < es.len() && es[k + 1] is Block
}

/// Checks one element against `seen`, the marker names declared so far:
/// commands must be well shaped, markers must be new (and join `seen`),
/// blocks are checked recursively, comments pass.  `None` means a rule is
/// broken; `Some` carries the markers seen afterwards.
pub open spec fn spec_elem_ok(
    e: ElemV,
    next_block: bool,
    seen: Seq<Seq<char>>,
    options: SyntaxCheckerOptions,
) -> Option<Seq<Seq<char>>>
    decreases e, 0nat,
{
    match e {
        ElemV::Line(LineV::Command(c)) => if spec_command_ok(c, next_block, options) {
            Some(seen)
        } else {
            None
        },
        ElemV::Line(LineV::Marker(m)) => if seen.contains(m) {
            None
        } else {
            Some(seen.push(m))
        },
        ElemV::Comment(_) => Some(seen),
        ElemV::Block(bs) => spec_elems_ok(bs, 0, seen, options),
    }
}

/// Checks the elements from `k` on, threading the markers seen.
pub open spec fn spec_elems_ok(
    es: Seq<ElemV>,
    k: int,
    seen: Seq<Seq<char>>,
    options: SyntaxCheckerOptions,
) -> Option<Seq<Seq<char>>>
    decreases es, es.len() - k, 1nat,
{
    if k < 0 || k >= es.len() {
        Some(seen)
    } else {
        match spec_elem_ok(es[k], spec_next_is_block(es, k), seen, options) {
            None => None,
            Some(s) => spec_elems_ok(es, k + 1, s, options),
        }
    }
}

/// Whether a whole script is valid: it opens with `%START%` after any
/// comments, something other than a marker follows, and from there every
/// command is well shaped and every marker new.
pub open spec fn spec_valid_script(es: Seq<ElemV>, options: SyntaxCheckerOptions) -> bool {
    let i = spec_first_non_comment(es, 0);
    &&& i < es.len()
    &&& es[i] == ElemV::Line(LineV::Marker("START"@))
    &&& {
        let j = spec_first_non_comment(es, i + 1);
        j < es.len() && !spec_is_marker_line(es[j])
    }
    &&& spec_elems_ok(es, i + 1, seq!["START"@], options) is Some
}

/// The marker names in `seen`, as character sequences.
pub open spec fn spec_names_view(v: Seq<String>) -> Seq<Seq<char>> {
    Seq::new(v.len(), |i: int| v[i]@)
}

/// The first element from `from` on that is not a comment.
fn first_non_comment(elems: &Vec<TopLevelElement>, from: usize) -> (r: usize)
    requires
        from <= elems@.len(),
    ensures
        r == spec_first_non_comment(crate::script::element::spec_elems_view(elems@), from as int),
        from <= r <= elems@.len(),
{
    let ghost ev = crate::script::element::spec_elems_view(elems@);
    let n = elems.len();
    let mut i: usize = from;
    while i < n
        invariant
            from <= i <= n,
            n == elems@.len(),
            ev == crate::script::element::spec_elems_view(elems@),
            spec_first_non_comment(ev, from as int) == spec_first_non_comment(ev, i as int),
        decreases n - i,
    {
        proof {
            assert(ev[i as int] == elems@[i as int]@);
        }
        if !elems[i].is_comment() {
            return i;
        }
        i = i + 1;
    }
    n
}

/// Whether `seen` holds `name`.
fn contains_name(seen: &Vec<String>, name: &str) -> (r: bool)
    ensures
        r == spec_names_view(seen@).contains(name@),
{
    let ghost sv = spec_names_view(seen@);
    let n = seen.len();
    let mut i: usize = 0;
    while i < n
        invariant
            0 <= i <= n,
            n == seen@.len(),
            sv == spec_names_view(seen@),
            forall|j: int| 0 <= j < i ==> sv[j] != name@,
        decreases n - i,
    {
        proof {
            assert(sv[i as int] == seen@[i as int]@);
        }
        if str_eq(seen[i].as_str(), name) {
            proof {
                assert(sv.contains(name@));
            }
            return true;
        }
        i = i + 1;
    }
    proof {
        if sv.contains(name@) {
            let j = choose|j: int| 0 <= j < sv.len() && sv[j] == name@;
            assert(sv[j] != name@);
        }
    }
    false
}

/// Checks one element, per [`spec_elem_ok`].
fn check_elem(
    e: &TopLevelElement,
    next_block: bool,
    seen: &mut Vec<String>,
    options: &SyntaxCheckerOptions,
) -> (r: Result<(), ValidationError>)
    ensures
        r is Ok <==> spec_elem_ok(e@, next_block, spec_names_view(old(seen)@), *options) is Some,
        r is Ok ==> spec_names_view(final(seen)@) == spec_elem_ok(
            e@,
            next_block,
            spec_names_view(old(seen)@),
            *options,
        )->Some_0,
    decreases e@, 1nat,
{
    match e {
        TopLevelElement::Line(line) => {
            match line {
                crate::script::line::Line::Command(c) => {
                    proof {
                        assert(e@ == ElemV::Line(LineV::Command(c@)));
                    }
                    check_command(c, next_block, options)
                },
                crate::script::line::Line::Marker(m) => {
                    proof {
                        assert(e@ == ElemV::Line(LineV::Marker(m@)));
                    }
                    if contains_name(seen, m.name()) {
                        Err(ValidationError::DuplicateMarker)
                    } else {
                        let name = m.name().to_owned();
                        seen.push(name);
                        proof {
                            assert(spec_names_view(seen@) =~= spec_names_view(
                                old(seen)@,
                            ).push(m@));
                        }
                        Ok(())
                    }
                },
            }
        },
        TopLevelElement::Comment(_) => Ok(()),
        TopLevelElement::Block(b) => {
            proof {
                crate::script::element::lemma_block_view(*b);
                assert(e@ == ElemV::Block(crate::script::element::spec_elems_view(b.inner@)));
                assert(e@->Block_0 == crate::script::element::spec_elems_view(b.inner@));
                assert(decreases_to!(e@ => e@->Block_0));
            }
            check_elems(&b.inner, 0, seen, options)
        },
    }
}

/// Checks the elements from `start` on, per [`spec_elems_ok`].
fn check_elems(
    elems: &Vec<TopLevelElement>,
    start: usize,
    seen: &mut Vec<String>,
    options: &SyntaxCheckerOptions,
) -> (r: Result<(), ValidationError>)
    requires
        start <= elems@.len(),
    ensures
        r is Ok <==> spec_elems_ok(
            crate::script::element::spec_elems_view(elems@),
            start as int,
            spec_names_view(old(seen)@),
            *options,
        ) is Some,
        r is Ok ==> spec_names_view(final(seen)@) == spec_elems_ok(
            crate::script::element::spec_elems_view(elems@),
            start as int,
            spec_names_view(old(seen)@),
            *options,
        )->Some_0,
    decreases crate::script::element::spec_elems_view(elems@), 0nat,
{
    let ghost ev = crate::script::element::spec_elems_view(elems@);
    let ghost seen0 = spec_names_view(old(seen)@);
    let n = elems.len();
    let mut k: usize = start;
    while k < n
        invariant
            start <= k <= n,
            n == elems@.len(),
            ev == crate::script::element::spec_elems_view(elems@),
            seen0 == spec_names_view(old(seen)@),
            spec_elems_ok(ev, start as int, seen0, *options) == spec_elems_ok(
                ev,
                k as int,
                spec_names_view(seen@),
                *options,
            ),
        decreases n - k,
    {
        proof {
            assert(ev[k as int] == elems@[k as int]@);
        }
        let next_block = k + 1 < n && elems[k + 1].is_block();
        proof {
            if k as int + 1 < n {
                assert(ev[k as int + 1] == elems@[k as int + 1]@);
            }
            assert(next_block == spec_next_is_block(ev, k as int));
        }
        match check_elem(&elems[k], next_block, seen, options) {
            Ok(()) => {},
            Err(e) => {
                return Err(e);
            },
        }
        k = k + 1;
    }
    Ok(())
}

/// Check the syntax of a script under the default options.
pub fn check_syntax(script: &Script) -> (r: Result<(), ValidationError>)
    ensures
        r is Ok <==> spec_valid_script(script@, spec_default_options()),
{
    let options = SyntaxCheckerOptions::default();
    check_syntax_with_options(script, &options)
}

/// Check the syntax of a script, per [`spec_valid_script`].
pub fn check_syntax_with_options(script: &Script, options: &SyntaxCheckerOptions) -> (r: Result<
    (),
    ValidationError,
>)
    ensures
        r is Ok <==> spec_valid_script(script@, *options),
{
    let ghost ev = script@;
    let elems = &script.0;
    proof {
        assert(ev == crate::script::element::spec_elems_view(elems@));
    }
    let n = elems.len();
    let i = first_non_comment(elems, 0);
    if i == n {
        return Err(ValidationError::EmptyScript);
    }
    proof {
        assert(ev[i as int] == elems@[i as int]@);
    }
    let started = match &elems[i] {
        TopLevelElement::Line(line) => {
            match line {
                crate::script::line::Line::Marker(m) => {
                    if str_eq(m.name(), "START") {
                        true
                    } else {
                        return Err(ValidationError::MarkerBeforeStart);
                    }
                },
                _ => false,
            }
        },
        _ => false,
    };
    if !started {
        return Err(ValidationError::MissingStartMarker);
    }
    proof {
        assert(ev[i as int] == ElemV::Line(LineV::Marker("START"@)));
    }
    let j = first_non_comment(elems, i + 1);
    if j == n {
        return Err(ValidationError::NoCommands);
    }
    proof {
        assert(ev[j as int] == elems@[j as int]@);
    }
    let is_marker = match &elems[j] {
        TopLevelElement::Line(line) => {
            match line {
                crate::script::line::Line::Marker(_) => true,
                _ => false,
            }
        },
        _ => false,
    };
    if is_marker {
        return Err(ValidationError::MarkerAfterStart);
    }
    let mut seen: Vec<String> = Vec::new();
    seen.push("START".to_owned());
    proof {
        assert(spec_names_view(seen@) =~= seq!["START"@]);
    }
    match check_elems(elems, i + 1, &mut seen, options) {
        Ok(()) => Ok(()),
        Err(e) => Err(e),
    }
}

} // verus!
