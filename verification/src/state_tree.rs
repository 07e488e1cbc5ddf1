//! The execution engine: a state tree is an arena tree of commands that is
//! traversed one tick at a time.
//!
//! State is driven by calling [`StateTree::tick`], which returns the next
//! command to run.  When the engine reaches a choice point the caller must
//! call [`StateTree::choose_index`] with the index of the chosen option before
//! ticking again; [`StateTree::goto`] jumps to a named marker from any
//! state.

use crate::script::Script;
use crate::script::command::{Command, CommandV};
use crate::script::element::{
    ElemV, RowV, TopLevelElement, spec_flatten_elem, spec_flatten_from,
};
use crate::script::marker::Marker;
use crate::text::str_eq;
use crate::tree::{NodeId, Tree, TreeV};
use vstd::prelude::*;
use vstd::pervasive::unreached;

verus! {

/// An engine operation was called in a state that forbids it, or named an
/// unknown marker.
#[derive(Debug, Clone, Copy, PartialEq, Eq, Structural)]
pub enum EngineError {
    /// The operation is not allowed in the engine's current state.
    IllegalState,
    /// No marker of the given name exists in the script.
    UnknownMarker,
}

impl EngineError {
    /// A short description of the failure.
    pub fn message(&self) -> &'static str {
        match self {
            EngineError::IllegalState => "the operation is not allowed in the current state",
            EngineError::UnknownMarker => "no marker of that name exists in this script",
        }
    }
}

/// The mathematical value of the engine's state.
pub ghost enum StateV {
    AwaitingChoice(Seq<int>),
    AwaitingTick(int),
    Done,
}

/// The engine's execution state.
#[derive(Debug)]
pub(crate) enum TreeState {
    /// Waiting for a choice to be made among the given nodes.
    AwaitingChoice(Vec<NodeId>),
    /// Ready to emit the given node on the next tick.
    AwaitingTick(NodeId),
    /// The traversal is exhausted.
    Done,
}

/// The mathematical value of a [`StateTree`].
#[verifier::ext_equal]
pub ghost struct StateTreeV {
    pub tree: TreeV<Command>,
    pub markers: Seq<(Seq<char>, int)>,
    pub state: StateV,
    pub ticks: int,
}

/// Whether a command is the built-in choice command.
pub open spec fn spec_is_choice(c: Command) -> bool {
    c@.name == "CHOICE"@
}

/// The node bound to `name`, sought from entry `k` on.
pub open spec fn spec_lookup_from(ms: Seq<(Seq<char>, int)>, name: Seq<char>, k: int) -> Option<
    int,
>
    decreases ms.len() - k,
{
    if k < 0 || k >= ms.len() {
        None
    } else if ms[k].0 == name {
        Some(ms[k].1)
    } else {
        spec_lookup_from(ms, name, k + 1)
    }
}

/// The node bound to `name` in the marker table.
pub open spec fn spec_lookup(ms: Seq<(Seq<char>, int)>, name: Seq<char>) -> Option<int> {
    spec_lookup_from(ms, name, 0)
}

impl StateTreeV {
    /// Every state and marker entry names a node of the tree.
    pub open spec fn wf(self) -> bool {
        &&& self.tree.wf()
        &&& match self.state {
            StateV::AwaitingTick(c) => 0 <= c < self.tree.nodes.len(),
            StateV::AwaitingChoice(cs) => forall|i: int|
                0 <= i < cs.len() ==> 0 <= #[trigger] cs[i] < self.tree.nodes.len(),
            StateV::Done => true,
        }
        &&& forall|k: int|
            0 <= k < self.markers.len() ==> 0 <= (#[trigger] self.markers[k]).1
                < self.tree.nodes.len()
    }
}

/// The build state threaded through the construction of a state tree: the
/// commands and edges of the arena so far, the marker table, and the
/// pending marker awaiting its node.
#[verifier::ext_equal]
pub ghost struct BuildV {
    pub cmds: Seq<CommandV>,
    pub edges: Seq<(int, int)>,
    pub markers: Seq<(Seq<char>, int)>,
    pub pending: Option<Seq<char>>,
}

/// Binds `name` to `id`: replaces the first entry of that name, sought
/// from `j` on, or appends a new one.
pub open spec fn spec_bind_from(
    ms: Seq<(Seq<char>, int)>,
    name: Seq<char>,
    id: int,
    j: int,
) -> Seq<(Seq<char>, int)>
    decreases ms.len() - j,
{
    if j < 0 || j >= ms.len() {
        ms.push((name, id))
    } else if ms[j].0 == name {
        ms.update(j, (name, id))
    } else {
        spec_bind_from(ms, name, id, j + 1)
    }
}

/// Binds `name` to `id` in the marker table.
pub open spec fn spec_bind(ms: Seq<(Seq<char>, int)>, name: Seq<char>, id: int) -> Seq<
    (Seq<char>, int),
> {
    spec_bind_from(ms, name, id, 0)
}

/// Builds one element into the state: a command line becomes a node (a
/// child of `parent` where there is one), takes any pending marker, and
/// becomes the last node of its level; a marker line becomes pending; a
/// block's elements become children of the last node of this level (or of
/// `parent`, where the block opens the level); comments are skipped.
pub open spec fn spec_build_elem(
    st: BuildV,
    e: ElemV,
    parent: Option<int>,
    last: Option<int>,
) -> (BuildV, Option<int>)
    decreases e, 0nat,
{
    match e {
        ElemV::Line(crate::script::line::LineV::Command(cv)) => {
            let id = st.cmds.len() as int;
            let st1 = BuildV {
                cmds: st.cmds.push(cv),
                edges: match parent {
                    Some(p) => st.edges.push((p, id)),
                    None => st.edges,
                },
                markers: match st.pending {
                    Some(nm) => spec_bind(st.markers, nm, id),
                    None => st.markers,
                },
                pending: None,
            };
            (st1, Some(id))
        },
        ElemV::Line(crate::script::line::LineV::Marker(nm)) => {
            (BuildV { pending: Some(nm), ..st }, last)
        },
        ElemV::Comment(_) => (st, last),
        ElemV::Block(bs) => {
            let p2 = match last {
                Some(l) => Some(l),
                None => parent,
            };
            (spec_build_elems(st, bs, 0, p2, None).0, last)
        },
    }
}

/// Builds the elements from `i` on, threading the state and the last node
/// of this level.
pub open spec fn spec_build_elems(
    st: BuildV,
    es: Seq<ElemV>,
    i: int,
    parent: Option<int>,
    last: Option<int>,
) -> (BuildV, Option<int>)
    decreases es, es.len() - i, 1nat,
{
    if i < 0 || i >= es.len() {
        (st, last)
    } else {
        let (st1, l1) = spec_build_elem(st, es[i], parent, last);
        spec_build_elems(st1, es, i + 1, parent, l1)
    }
}

/// The empty build state.
pub open spec fn spec_build_empty() -> BuildV {
    BuildV {
        cmds: Seq::<CommandV>::empty(),
        edges: Seq::<(int, int)>::empty(),
        markers: Seq::<(Seq<char>, int)>::empty(),
        pending: None,
    }
}

/// The build state of a whole document.
pub open spec fn spec_build_doc(doc: Seq<ElemV>) -> BuildV {
    spec_build_elems(spec_build_empty(), doc, 0, None, None).0
}

/// The values of the commands held by an arena tree.
pub open spec fn spec_cmds_of(t: TreeV<Command>) -> Seq<CommandV> {
    Seq::new(t.nodes.len(), |i: int| t.nodes[i]@)
}

/// The state the engine moves to after emitting node `c`.
///
/// A node with children whose first child is a choice becomes a choice
/// point over all the children; other children are entered head-first; a
/// childless node hands over to its document-order successor, or ends the
/// traversal.  A childless choice command becomes a choice point with no
/// options.
pub open spec fn spec_advance(t: TreeV<Command>, c: int) -> StateV {
    let kids = t.children(c);
    if kids.len() == 0 {
        if spec_is_choice(t.nodes[c]) {
            StateV::AwaitingChoice(Seq::<int>::empty())
        } else {
            match t.next(c) {
                Some(n) => StateV::AwaitingTick(n),
                None => StateV::Done,
            }
        }
    } else if spec_is_choice(t.nodes[kids[0]]) {
        StateV::AwaitingChoice(kids)
    } else {
        StateV::AwaitingTick(kids[0])
    }
}

/// Choice exhaustiveness: a node whose children begin with a choice
/// command leaves the engine awaiting a choice over exactly those
/// children.  [`StateTree::tick`] then fails with `IllegalState` until
/// [`StateTree::choose_index`] picks a child, which always succeeds for an
/// index in range and positions the engine at that child.
pub proof fn lemma_choice_point(t: TreeV<Command>, c: int)
    requires
        t.wf(),
        0 <= c < t.nodes.len(),
        t.children(c).len() > 0,
        spec_is_choice(t.nodes[t.children(c)[0]]),
    ensures
        spec_advance(t, c) == StateV::AwaitingChoice(t.children(c)),
{
}

/// Termination: after the command of a childless node with no
/// document-order successor is emitted, the engine is done; a done engine
/// keeps returning empty ticks, which [`StateTree::tick`] states.
pub proof fn lemma_termination(t: TreeV<Command>, c: int)
    requires
        t.wf(),
        0 <= c < t.nodes.len(),
        t.children(c).len() == 0,
        t.next(c) is None,
        !spec_is_choice(t.nodes[c]),
    ensures
        spec_advance(t, c) == StateV::Done,
{
}

/// The part of the build state that marker binding depends on: the
/// commands so far, the marker table, and the pending marker.  Edges play
/// no part, so this projection follows the flattened rows alone.
#[verifier::ext_equal]
pub ghost struct MarkState {
    pub cmds: Seq<CommandV>,
    pub markers: Seq<(Seq<char>, int)>,
    pub pending: Option<Seq<char>>,
}

/// The marker-relevant part of a build state.
pub open spec fn spec_mark_of(st: BuildV) -> MarkState {
    MarkState { cmds: st.cmds, markers: st.markers, pending: st.pending }
}

/// One row's effect on the marker-relevant state.
pub open spec fn spec_mark_step(st: MarkState, row: RowV) -> MarkState {
    match row {
        RowV::Line(crate::script::line::LineV::Command(cv)) => MarkState {
            cmds: st.cmds.push(cv),
            markers: match st.pending {
                Some(nm) => spec_bind(st.markers, nm, st.cmds.len() as int),
                None => st.markers,
            },
            pending: None,
        },
        RowV::Line(crate::script::line::LineV::Marker(nm)) => MarkState {
            pending: Some(nm),
            ..st
        },
        RowV::Comment(_) => st,
    }
}

/// The marker-relevant state after the rows from `i` on.
pub open spec fn spec_mark_fold(st: MarkState, rows: Seq<(nat, RowV)>, i: int) -> MarkState
    decreases rows.len() - i,
{
    if i < 0 || i >= rows.len() {
        st
    } else {
        spec_mark_fold(spec_mark_step(st, rows[i].1), rows, i + 1)
    }
}

/// Folding a concatenation, read from inside the second part.
proof fn lemma_mark_fold_shift(st: MarkState, a: Seq<(nat, RowV)>, b: Seq<(nat, RowV)>, q: int)
    requires
        0 <= q <= b.len(),
    ensures
        spec_mark_fold(st, a + b, a.len() + q) == spec_mark_fold(st, b, q),
    decreases b.len() - q,
{
    if q < b.len() {
        assert((a + b)[a.len() + q] == b[q]);
        lemma_mark_fold_shift(spec_mark_step(st, b[q].1), a, b, q + 1);
    }
}

/// Folding a concatenation folds each part in turn.
proof fn lemma_mark_fold_concat(st: MarkState, a: Seq<(nat, RowV)>, b: Seq<(nat, RowV)>, i: int)
    requires
        0 <= i <= a.len(),
    ensures
        spec_mark_fold(st, a + b, i) == spec_mark_fold(spec_mark_fold(st, a, i), b, 0),
    decreases a.len() - i,
{
    if i == a.len() {
        lemma_mark_fold_shift(st, a, b, 0);
    } else {
        assert((a + b)[i] == a[i]);
        lemma_mark_fold_concat(spec_mark_step(st, a[i].1), a, b, i + 1);
    }
}

/// Building one element affects the marker-relevant state exactly as its
/// flattened rows do.
proof fn lemma_build_marks_elem(st: BuildV, e: ElemV, parent: Option<int>, last: Option<int>, level: nat)
    ensures
        spec_mark_of(spec_build_elem(st, e, parent, last).0) == spec_mark_fold(
            spec_mark_of(st),
            spec_flatten_elem(e, level),
            0,
        ),
    decreases e, 0nat,
{
    match e {
        ElemV::Line(crate::script::line::LineV::Command(cv)) => {
            let row = (level, RowV::Line(crate::script::line::LineV::Command(cv)));
            assert(spec_mark_fold(spec_mark_step(spec_mark_of(st), row.1), seq![row], 1)
                == spec_mark_step(spec_mark_of(st), row.1));
            assert(spec_mark_of(spec_build_elem(st, e, parent, last).0) =~= spec_mark_step(
                spec_mark_of(st),
                row.1,
            ));
        },
        ElemV::Line(crate::script::line::LineV::Marker(nm)) => {
            let row = (level, RowV::Line(crate::script::line::LineV::Marker(nm)));
            assert(spec_mark_fold(spec_mark_step(spec_mark_of(st), row.1), seq![row], 1)
                == spec_mark_step(spec_mark_of(st), row.1));
            assert(spec_mark_of(spec_build_elem(st, e, parent, last).0) =~= spec_mark_step(
                spec_mark_of(st),
                row.1,
            ));
        },
        ElemV::Comment(t) => {
            let row = (level, RowV::Comment(t));
            assert(spec_mark_fold(spec_mark_step(spec_mark_of(st), row.1), seq![row], 1)
                == spec_mark_step(spec_mark_of(st), row.1));
            assert(spec_mark_of(spec_build_elem(st, e, parent, last).0) =~= spec_mark_step(
                spec_mark_of(st),
                row.1,
            ));
        },
        ElemV::Block(bs) => {
            let p2 = match last {
                Some(l) => Some(l),
                None => parent,
            };
            lemma_build_marks_elems(st, bs, 0, p2, None, (level + 1) as nat);
        },
    }
}

/// Building a run of elements affects the marker-relevant state exactly
/// as their flattened rows do.
proof fn lemma_build_marks_elems(
    st: BuildV,
    es: Seq<ElemV>,
    i: int,
    parent: Option<int>,
    last: Option<int>,
    level: nat,
)
    requires
        0 <= i <= es.len(),
    ensures
        spec_mark_of(spec_build_elems(st, es, i, parent, last).0) == spec_mark_fold(
            spec_mark_of(st),
            spec_flatten_from(es, i, level),
            0,
        ),
    decreases es, es.len() - i, 1nat,
{
    if i < es.len() {
        let (st1, l1) = spec_build_elem(st, es[i], parent, last);
        lemma_build_marks_elem(st, es[i], parent, last, level);
        lemma_build_marks_elems(st1, es, i + 1, parent, l1, level);
        lemma_mark_fold_concat(
            spec_mark_of(st),
            spec_flatten_elem(es[i], level),
            spec_flatten_from(es, i + 1, level),
            0,
        );
    }
}

/// The marker-relevant state of a whole build follows the flattened
/// document.
pub proof fn lemma_build_marks_doc(doc: Seq<ElemV>)
    ensures
        spec_mark_of(spec_build_doc(doc)) == spec_mark_fold(
            spec_mark_of(spec_build_empty()),
            spec_flatten_from(doc, 0, 0),
            0,
        ),
{
    lemma_build_marks_elems(spec_build_empty(), doc, 0, None, None, 0);
}

/// Binding either updates the first entry of the name or appends one.
proof fn lemma_bind_shape(ms: Seq<(Seq<char>, int)>, name: Seq<char>, id: int, j: int)
    requires
        0 <= j <= ms.len(),
    ensures
        (exists|idx: int|
            j <= idx < ms.len() && (#[trigger] ms[idx]).0 == name && spec_bind_from(
                ms,
                name,
                id,
                j,
            ) == ms.update(idx, (name, id))) || ((forall|q: int|
            j <= q < ms.len() ==> (#[trigger] ms[q]).0 != name) && spec_bind_from(ms, name, id, j)
            == ms.push((name, id))),
    decreases ms.len() - j,
{
    if j < ms.len() && ms[j].0 != name {
        lemma_bind_shape(ms, name, id, j + 1);
    }
}

/// A lookup that fails finds no entry of the name.
proof fn lemma_lookup_none(ms: Seq<(Seq<char>, int)>, name: Seq<char>, k: int)
    requires
        0 <= k <= ms.len(),
        spec_lookup_from(ms, name, k) is None,
    ensures
        forall|q: int| k <= q < ms.len() ==> (#[trigger] ms[q]).0 != name,
    decreases ms.len() - k,
{
    if k < ms.len() {
        lemma_lookup_none(ms, name, k + 1);
    }
}

/// Binding a fresh name appends it, and a lookup then finds it.
proof fn lemma_bind_fresh(ms: Seq<(Seq<char>, int)>, name: Seq<char>, id: int)
    requires
        spec_lookup(ms, name) is None,
    ensures
        spec_lookup(spec_bind(ms, name, id), name) == Some(id),
{
    lemma_lookup_none(ms, name, 0);
    lemma_bind_shape(ms, name, id, 0);
    let bound = ms.push((name, id));
    lemma_lookup_push(ms, name, id, 0);
}

/// A lookup over an appended fresh entry finds the appended value.
proof fn lemma_lookup_push(ms: Seq<(Seq<char>, int)>, name: Seq<char>, id: int, k: int)
    requires
        0 <= k <= ms.len(),
        forall|q: int| 0 <= q < ms.len() ==> (#[trigger] ms[q]).0 != name,
    ensures
        spec_lookup_from(ms.push((name, id)), name, k) == Some(id),
    decreases ms.len() - k,
{
    if k < ms.len() {
        assert(ms.push((name, id))[k] == ms[k]);
        lemma_lookup_push(ms, name, id, k + 1);
    } else {
        assert(ms.push((name, id))[k] == (name, id));
    }
}

/// Binding one name leaves the lookup of another unchanged.
proof fn lemma_bind_other(ms: Seq<(Seq<char>, int)>, bound: Seq<char>, id: int, name: Seq<char>)
    requires
        bound != name,
    ensures
        spec_lookup(spec_bind(ms, bound, id), name) == spec_lookup(ms, name),
{
    lemma_bind_shape(ms, bound, id, 0);
    if exists|idx: int|
        0 <= idx < ms.len() && (#[trigger] ms[idx]).0 == bound && spec_bind(ms, bound, id)
            == ms.update(idx, (bound, id)) {
        let idx = choose|idx: int|
            0 <= idx < ms.len() && (#[trigger] ms[idx]).0 == bound && spec_bind(ms, bound, id)
                == ms.update(idx, (bound, id));
        lemma_lookup_update_other(ms, idx, (bound, id), name, 0);
    } else {
        lemma_lookup_append_other(ms, (bound, id), name, 0);
    }
}

/// A lookup passes over an updated entry of another name.
proof fn lemma_lookup_update_other(
    ms: Seq<(Seq<char>, int)>,
    idx: int,
    entry: (Seq<char>, int),
    name: Seq<char>,
    k: int,
)
    requires
        0 <= idx < ms.len(),
        ms[idx].0 == entry.0,
        entry.0 != name,
        0 <= k <= ms.len(),
    ensures
        spec_lookup_from(ms.update(idx, entry), name, k) == spec_lookup_from(ms, name, k),
    decreases ms.len() - k,
{
    if k < ms.len() {
        if k == idx {
            assert(ms.update(idx, entry)[k] == entry);
        } else {
            assert(ms.update(idx, entry)[k] == ms[k]);
        }
        lemma_lookup_update_other(ms, idx, entry, name, k + 1);
    }
}

/// A lookup passes over an appended entry of another name.
proof fn lemma_lookup_append_other(
    ms: Seq<(Seq<char>, int)>,
    entry: (Seq<char>, int),
    name: Seq<char>,
    k: int,
)
    requires
        entry.0 != name,
        0 <= k <= ms.len(),
    ensures
        spec_lookup_from(ms.push(entry), name, k) == spec_lookup_from(ms, name, k),
    decreases ms.len() - k,
{
    if k < ms.len() {
        assert(ms.push(entry)[k] == ms[k]);
        lemma_lookup_append_other(ms, entry, name, k + 1);
    } else {
        assert(ms.push(entry)[k] == entry);
        assert(spec_lookup_from(ms.push(entry), name, k + 1) is None);
    }
}

/// Whether a row is the marker line of the given name.
pub open spec fn spec_is_marker_row(row: RowV, name: Seq<char>) -> bool {
    row == RowV::Line(crate::script::line::LineV::Marker(name))
}

/// Whether a row is a command line.
pub open spec fn spec_is_command_row(row: RowV) -> bool {
    row matches RowV::Line(crate::script::line::LineV::Command(_))
}

/// Whether the built marker table binds `name` to the node holding
/// exactly the command of flattened row `k`.
pub open spec fn spec_marker_binds_row(doc: Seq<ElemV>, k: int, name: Seq<char>) -> bool {
    let built = spec_build_doc(doc);
    let looked = spec_lookup(built.markers, name);
    &&& looked is Some
    &&& 0 <= looked->Some_0 < built.cmds.len()
    &&& RowV::Line(crate::script::line::LineV::Command(built.cmds[looked->Some_0]))
        == spec_flatten_from(doc, 0, 0)[k].1
}

/// Folding rows that never declare the marker leaves its lookup, and the
/// commands already built, untouched.
proof fn lemma_fold_preserves(st: MarkState, rows: Seq<(nat, RowV)>, i: int, name: Seq<char>)
    requires
        0 <= i <= rows.len(),
        forall|m: int| i <= m < rows.len() ==> !spec_is_marker_row((#[trigger] rows[m]).1, name),
        st.pending != Some(name),
    ensures
        spec_lookup(spec_mark_fold(st, rows, i).markers, name) == spec_lookup(st.markers, name),
        spec_mark_fold(st, rows, i).pending != Some(name),
        spec_mark_fold(st, rows, i).cmds.len() >= st.cmds.len(),
        forall|q: int|
            0 <= q < st.cmds.len() ==> #[trigger] spec_mark_fold(st, rows, i).cmds[q]
                == st.cmds[q],
    decreases rows.len() - i,
{
    if i < rows.len() {
        let st1 = spec_mark_step(st, rows[i].1);
        match rows[i].1 {
            RowV::Line(crate::script::line::LineV::Command(_)) => {
                match st.pending {
                    Some(nm) => {
                        lemma_bind_other(st.markers, nm, st.cmds.len() as int, name);
                    },
                    None => {},
                }
            },
            RowV::Line(crate::script::line::LineV::Marker(nm)) => {
                assert(nm != name);
            },
            RowV::Comment(_) => {},
        }
        lemma_fold_preserves(st1, rows, i + 1, name);
    }
}

/// Folding comment rows changes nothing.
proof fn lemma_fold_comments(st: MarkState, rows: Seq<(nat, RowV)>, i: int)
    requires
        0 <= i <= rows.len(),
        forall|m: int| i <= m < rows.len() ==> (#[trigger] rows[m]).1 is Comment,
    ensures
        spec_mark_fold(st, rows, i) == st,
    decreases rows.len() - i,
{
    if i < rows.len() {
        lemma_fold_comments(st, rows, i + 1);
    }
}

/// Goto correctness: where the flattened document declares the marker
/// `name` exactly once, at row `j`, and the next line after it is the
/// command at row `k` (only comments between), the built marker table
/// binds `name` to the node holding exactly that command.  Jumping to it
/// with [`StateTree::goto`] therefore makes the next
/// [`StateTree::tick`] emit that command, whatever the engine was doing
/// before.
pub proof fn lemma_goto_correctness(doc: Seq<ElemV>, j: int, k: int, name: Seq<char>)
    requires
        0 <= j < k < spec_flatten_from(doc, 0, 0).len(),
        spec_is_marker_row(spec_flatten_from(doc, 0, 0)[j].1, name),
        spec_is_command_row(spec_flatten_from(doc, 0, 0)[k].1),
        forall|m: int|
            j < m < k ==> ((#[trigger] spec_flatten_from(doc, 0, 0)[m]).1 is Comment),
        forall|m: int|
            0 <= m < spec_flatten_from(doc, 0, 0).len() && m != j ==> !spec_is_marker_row(
                (#[trigger] spec_flatten_from(doc, 0, 0)[m]).1,
                name,
            ),
    ensures
        spec_marker_binds_row(doc, k, name),
{
    let rows = spec_flatten_from(doc, 0, 0);
    let n = rows.len() as int;
    lemma_build_marks_doc(doc);
    let st0 = spec_mark_of(spec_build_empty());
    let a = rows.subrange(0, j);
    let m1 = rows.subrange(j, j + 1);
    let b = rows.subrange(j + 1, k);
    let c = rows.subrange(k, k + 1);
    let d = rows.subrange(k + 1, n);
    assert(rows =~= (((a + m1) + b) + c) + d);
    lemma_mark_fold_concat(st0, ((a + m1) + b) + c, d, 0);
    lemma_mark_fold_concat(st0, (a + m1) + b, c, 0);
    lemma_mark_fold_concat(st0, a + m1, b, 0);
    lemma_mark_fold_concat(st0, a, m1, 0);
    let st_a = spec_mark_fold(st0, a, 0);
    assert forall|m: int| 0 <= m < a.len() implies !spec_is_marker_row(
        (#[trigger] a[m]).1,
        name,
    ) by {
        assert(a[m] == rows[m]);
    }
    lemma_fold_preserves(st0, a, 0, name);
    assert(spec_lookup(st_a.markers, name) is None);
    let st_m = spec_mark_fold(st_a, m1, 0);
    assert(m1[0] == rows[j]);
    assert(spec_mark_fold(spec_mark_step(st_a, m1[0].1), m1, 1) == spec_mark_step(
        st_a,
        m1[0].1,
    ));
    assert(st_m == spec_mark_step(st_a, rows[j].1));
    assert(st_m.pending == Some(name));
    assert(st_m.markers == st_a.markers);
    assert(st_m.cmds == st_a.cmds);
    let st_b = spec_mark_fold(st_m, b, 0);
    assert forall|m: int| 0 <= m < b.len() implies (#[trigger] b[m]).1 is Comment by {
        assert(b[m] == rows[j + 1 + m]);
    }
    lemma_fold_comments(st_m, b, 0);
    assert(st_b == st_m);
    let st_c = spec_mark_fold(st_b, c, 0);
    assert(c[0] == rows[k]);
    assert(spec_mark_fold(spec_mark_step(st_b, c[0].1), c, 1) == spec_mark_step(st_b, c[0].1));
    assert(st_c == spec_mark_step(st_b, rows[k].1));
    let id = st_b.cmds.len() as int;
    assert(st_c.markers == spec_bind(st_b.markers, name, id));
    lemma_bind_fresh(st_b.markers, name, id);
    assert(spec_lookup(st_c.markers, name) == Some(id));
    assert(st_c.cmds == st_b.cmds.push(rows[k].1->Line_0->Command_0));
    assert(st_c.pending is None);
    let st_d = spec_mark_fold(st_c, d, 0);
    assert forall|m: int| 0 <= m < d.len() implies !spec_is_marker_row(
        (#[trigger] d[m]).1,
        name,
    ) by {
        assert(d[m] == rows[k + 1 + m]);
    }
    lemma_fold_preserves(st_c, d, 0, name);
    assert(spec_lookup(st_d.markers, name) == Some(id));
    assert(st_d.cmds[id] == rows[k].1->Line_0->Command_0);
    assert(spec_mark_of(spec_build_doc(doc)) == st_d);
}

/// The commands the engine emits from node `c` on, ticking until it is
/// done or reaches a choice point.  Each [`StateTree::tick`] from
/// `AwaitingTick(c)` emits the command at `c` and moves per
/// [`spec_advance`], so this is the emitted sequence of a run.
pub open spec fn spec_run_from(t: TreeV<Command>, c: int) -> Seq<CommandV>
    decreases t.nodes.len() - c,
{
    if c < 0 || c >= t.nodes.len() {
        Seq::<CommandV>::empty()
    } else {
        seq![t.nodes[c]@] + (match spec_advance(t, c) {
            StateV::AwaitingTick(m) => if c < m && m < t.nodes.len() {
                spec_run_from(t, m)
            } else {
                Seq::<CommandV>::empty()
            },
            _ => Seq::<CommandV>::empty(),
        })
    }
}

/// Whether a tree is a single chain: each node the only child of the one
/// before it, as a script nesting one command per level builds.
pub open spec fn spec_is_chain(t: TreeV<Command>) -> bool {
    &&& t.edges.len() == (if t.nodes.len() > 0 {
        t.nodes.len() - 1
    } else {
        0
    })
    &&& forall|k: int| 0 <= k < t.edges.len() ==> #[trigger] t.edges[k] == (k, k + 1)
}

/// Whether a tree is flat: no edges, as a script of sibling commands
/// builds.
pub open spec fn spec_is_flat(t: TreeV<Command>) -> bool {
    t.edges.len() == 0
}

/// In a chain, each node's parent is the one before it.
proof fn lemma_chain_parent(t: TreeV<Command>, c: int, k: int)
    requires
        spec_is_chain(t),
        0 <= k <= t.edges.len(),
    ensures
        t.parent_from(c, k) == (if k + 1 <= c <= t.edges.len() {
            Some(c - 1)
        } else {
            None::<int>
        }),
    decreases t.edges.len() - k,
{
    if k < t.edges.len() {
        assert(t.edges[k] == (k, k + 1));
        if t.edges[k].1 != c {
            lemma_chain_parent(t, c, k + 1);
        }
    }
}

/// In a chain, each node's children are exactly the one after it.
proof fn lemma_chain_children(t: TreeV<Command>, p: int, k: int)
    requires
        spec_is_chain(t),
        0 <= k <= t.edges.len(),
    ensures
        t.children_from(p, k) == (if k <= p < t.edges.len() {
            seq![p + 1]
        } else {
            Seq::<int>::empty()
        }),
    decreases t.edges.len() - k,
{
    if k < t.edges.len() {
        assert(t.edges[k] == (k, k + 1));
        lemma_chain_children(t, p, k + 1);
        if t.edges[k].0 == p {
            assert(t.children_from(p, k) =~= seq![p + 1]);
        }
    }
}

/// In a chain, no node has a later sibling.
proof fn lemma_chain_no_sibling(t: TreeV<Command>, c: int, j: int)
    requires
        spec_is_chain(t),
        0 <= c < t.nodes.len(),
        c < j,
    ensures
        t.sibling_from(c, j) is None,
    decreases t.nodes.len() - j,
{
    if 0 <= j < t.nodes.len() {
        lemma_chain_parent(t, j, 0);
        lemma_chain_parent(t, c, 0);
        assert(t.parent(j) != t.parent(c));
        lemma_chain_no_sibling(t, c, j + 1);
    }
}

/// In a chain, no node has a document-order successor.
proof fn lemma_chain_next_none(t: TreeV<Command>, c: int)
    requires
        spec_is_chain(t),
        0 <= c < t.nodes.len(),
    ensures
        t.next(c) is None,
    decreases c,
{
    lemma_chain_no_sibling(t, c, c + 1);
    lemma_chain_parent(t, c, 0);
    match t.parent(c) {
        Some(p) => {
            assert(p == c - 1);
            lemma_chain_next_none(t, p);
        },
        None => {},
    }
}

/// A chain of choice-free commands runs front to back.
proof fn lemma_chain_run(t: TreeV<Command>, c: int)
    requires
        spec_is_chain(t),
        0 <= c < t.nodes.len(),
        forall|i: int| 0 <= i < t.nodes.len() ==> !spec_is_choice(#[trigger] t.nodes[i]),
    ensures
        spec_run_from(t, c) == spec_cmds_of(t).subrange(c, t.nodes.len() as int),
    decreases t.nodes.len() - c,
{
    let n = t.nodes.len() as int;
    lemma_chain_children(t, c, 0);
    if c < n - 1 {
        assert(t.children(c) == seq![c + 1]);
        assert(t.children(c)[0] == c + 1);
        assert(spec_advance(t, c) == StateV::AwaitingTick(c + 1));
        lemma_chain_run(t, c + 1);
        assert(spec_run_from(t, c) =~= spec_cmds_of(t).subrange(c, n));
    } else {
        assert(t.children(c) =~= Seq::<int>::empty());
        lemma_chain_next_none(t, c);
        assert(spec_advance(t, c) == StateV::Done);
        assert(spec_run_from(t, c) =~= spec_cmds_of(t).subrange(c, n));
    }
}

/// In a flat tree, every node's next sibling is the one after it.
proof fn lemma_flat_sibling(t: TreeV<Command>, c: int, j: int)
    requires
        spec_is_flat(t),
        0 <= j,
    ensures
        t.sibling_from(c, j) == (if j < t.nodes.len() {
            Some(j)
        } else {
            None::<int>
        }),
{
    if j < t.nodes.len() {
        assert(t.parent(j) is None);
        assert(t.parent(c) is None);
    }
}

/// A flat tree of choice-free commands runs front to back.
proof fn lemma_flat_run(t: TreeV<Command>, c: int)
    requires
        spec_is_flat(t),
        0 <= c < t.nodes.len(),
        forall|i: int| 0 <= i < t.nodes.len() ==> !spec_is_choice(#[trigger] t.nodes[i]),
    ensures
        spec_run_from(t, c) == spec_cmds_of(t).subrange(c, t.nodes.len() as int),
    decreases t.nodes.len() - c,
{
    let n = t.nodes.len() as int;
    assert(t.children(c) =~= Seq::<int>::empty());
    lemma_flat_sibling(t, c, c + 1);
    if c < n - 1 {
        assert(spec_advance(t, c) == StateV::AwaitingTick(c + 1));
        lemma_flat_run(t, c + 1);
        assert(spec_run_from(t, c) =~= spec_cmds_of(t).subrange(c, n));
    } else {
        assert(spec_advance(t, c) == StateV::Done);
        assert(spec_run_from(t, c) =~= spec_cmds_of(t).subrange(c, n));
    }
}

/// Depth-flattening equivalence: the same choice-free commands, nested one
/// per level (a chain) or written as top-level siblings (flat), emit the
/// same sequence when run from the first node — namely all the commands in
/// order.
pub proof fn lemma_depth_flattening(chain: TreeV<Command>, flat: TreeV<Command>)
    requires
        spec_is_chain(chain),
        spec_is_flat(flat),
        spec_cmds_of(chain) == spec_cmds_of(flat),
        chain.nodes.len() > 0,
        forall|i: int|
            0 <= i < chain.nodes.len() ==> (#[trigger] spec_cmds_of(chain)[i]).name
                != "CHOICE"@,
    ensures
        spec_run_from(chain, 0) == spec_run_from(flat, 0),
        spec_run_from(chain, 0) == spec_cmds_of(chain),
{
    assert(chain.nodes.len() == flat.nodes.len()) by {
        assert(spec_cmds_of(chain).len() == chain.nodes.len());
        assert(spec_cmds_of(flat).len() == flat.nodes.len());
        assert(spec_cmds_of(chain).len() == spec_cmds_of(flat).len());
    }
    assert forall|i: int| 0 <= i < chain.nodes.len() implies !spec_is_choice(
        #[trigger] chain.nodes[i],
    ) by {
        assert(spec_cmds_of(chain)[i] == chain.nodes[i]@);
    }
    assert forall|i: int| 0 <= i < flat.nodes.len() implies !spec_is_choice(
        #[trigger] flat.nodes[i],
    ) by {
        assert(spec_cmds_of(flat)[i] == flat.nodes[i]@);
    }
    lemma_chain_run(chain, 0);
    lemma_flat_run(flat, 0);
    assert(spec_cmds_of(chain).subrange(0, chain.nodes.len() as int) =~= spec_cmds_of(chain));
    assert(spec_cmds_of(flat).subrange(0, flat.nodes.len() as int) =~= spec_cmds_of(flat));
}

/// A script nesting one command per level: each command's line, then a
/// block holding the rest.
pub open spec fn spec_nested_doc(cs: Seq<CommandV>, i: int) -> Seq<ElemV>
    decreases cs.len() - i,
{
    if i < 0 || i >= cs.len() {
        Seq::<ElemV>::empty()
    } else if i == cs.len() - 1 {
        seq![ElemV::Line(crate::script::line::LineV::Command(cs[i]))]
    } else {
        seq![
            ElemV::Line(crate::script::line::LineV::Command(cs[i])),
            ElemV::Block(spec_nested_doc(cs, i + 1)),
        ]
    }
}

/// A script of the same commands as top-level siblings.
pub open spec fn spec_flat_doc(cs: Seq<CommandV>) -> Seq<ElemV> {
    Seq::new(cs.len(), |i: int| ElemV::Line(crate::script::line::LineV::Command(cs[i])))
}

/// The edges of a chain of `count` nodes starting at `base`.
pub open spec fn spec_chain_edges(base: int, count: int) -> Seq<(int, int)> {
    Seq::new(
        if count > 0 {
            (count - 1) as nat
        } else {
            0
        },
        |k: int| (base + k, base + k + 1),
    )
}

/// Building a nested run of commands appends them as a chain hanging off
/// `parent`.
proof fn lemma_build_nested(st: BuildV, cs: Seq<CommandV>, i: int, parent: Option<int>)
    requires
        0 <= i < cs.len(),
        st.pending is None,
    ensures
        spec_build_elems(st, spec_nested_doc(cs, i), 0, parent, None).0 == (BuildV {
            cmds: st.cmds + cs.subrange(i, cs.len() as int),
            edges: st.edges + (match parent {
                Some(p) => seq![(p, st.cmds.len() as int)],
                None => Seq::<(int, int)>::empty(),
            }) + spec_chain_edges(st.cmds.len() as int, cs.len() - i),
            markers: st.markers,
            pending: None,
        }),
    decreases cs.len() - i,
{
    let doc = spec_nested_doc(cs, i);
    let base = st.cmds.len() as int;
    let (st1, l1) = spec_build_elem(st, doc[0], parent, None);
    assert(doc[0] == ElemV::Line(crate::script::line::LineV::Command(cs[i])));
    assert(l1 == Some(base));
    assert(spec_build_elems(st, doc, 0, parent, None) == spec_build_elems(
        st1,
        doc,
        1,
        parent,
        l1,
    ));
    if i == cs.len() - 1 {
        assert(doc.len() == 1);
        assert(spec_build_elems(st1, doc, 1, parent, l1).0 == st1);
        assert(st1 =~= BuildV {
            cmds: st.cmds + cs.subrange(i, cs.len() as int),
            edges: st.edges + (match parent {
                Some(p) => seq![(p, base)],
                None => Seq::<(int, int)>::empty(),
            }) + spec_chain_edges(base, 1),
            markers: st.markers,
            pending: None,
        });
    } else {
        assert(doc[1] == ElemV::Block(spec_nested_doc(cs, i + 1)));
        lemma_build_nested(st1, cs, i + 1, Some(base));
        let (st2, l2) = spec_build_elem(st1, doc[1], parent, l1);
        assert(st2 == spec_build_elems(st1, spec_nested_doc(cs, i + 1), 0, Some(base), None).0);
        assert(spec_build_elems(st1, doc, 1, parent, l1) == spec_build_elems(
            st2,
            doc,
            2,
            parent,
            l2,
        ));
        assert(doc.len() == 2);
        assert(spec_build_elems(st2, doc, 2, parent, l2).0 == st2);
        assert(st1.cmds + cs.subrange(i + 1, cs.len() as int) =~= st.cmds + cs.subrange(
            i,
            cs.len() as int,
        ));
        assert(st1.edges + seq![(base, base + 1)] + spec_chain_edges(base + 1, cs.len() - i - 1)
            =~= st.edges + (match parent {
            Some(p) => seq![(p, base)],
            None => Seq::<(int, int)>::empty(),
        }) + spec_chain_edges(base, cs.len() - i));
        assert(st2 =~= BuildV {
            cmds: st.cmds + cs.subrange(i, cs.len() as int),
            edges: st.edges + (match parent {
                Some(p) => seq![(p, base)],
                None => Seq::<(int, int)>::empty(),
            }) + spec_chain_edges(base, cs.len() - i),
            markers: st.markers,
            pending: None,
        });
    }
}

/// Building a flat run of commands appends them with no edges.
proof fn lemma_build_flat(st: BuildV, cs: Seq<CommandV>, i: int, last: Option<int>)
    requires
        0 <= i < cs.len(),
        st.pending is None,
    ensures
        spec_build_elems(st, spec_flat_doc(cs), i, None, last).0 == (BuildV {
            cmds: st.cmds + cs.subrange(i, cs.len() as int),
            edges: st.edges,
            markers: st.markers,
            pending: None,
        }),
    decreases cs.len() - i,
{
    let doc = spec_flat_doc(cs);
    assert(doc[i] == ElemV::Line(crate::script::line::LineV::Command(cs[i])));
    let (st1, l1) = spec_build_elem(st, doc[i], None, last);
    assert(spec_build_elems(st, doc, i, None, last) == spec_build_elems(
        st1,
        doc,
        i + 1,
        None,
        l1,
    ));
    if i == cs.len() - 1 {
        assert(spec_build_elems(st1, doc, i + 1, None, l1).0 == st1);
        assert(st1 =~= BuildV {
            cmds: st.cmds + cs.subrange(i, cs.len() as int),
            edges: st.edges,
            markers: st.markers,
            pending: None,
        });
    } else {
        lemma_build_flat(st1, cs, i + 1, l1);
        assert(st1.cmds + cs.subrange(i + 1, cs.len() as int) =~= st.cmds + cs.subrange(
            i,
            cs.len() as int,
        ));
    }
}

/// A nested script builds the chain tree, and a flat script of the same
/// commands builds the flat tree, so by [`lemma_depth_flattening`] the two
/// emit the same sequence.
pub proof fn lemma_depth_flattening_docs(cs: Seq<CommandV>)
    requires
        cs.len() > 0,
    ensures
        spec_build_doc(spec_nested_doc(cs, 0)) == (BuildV {
            cmds: cs,
            edges: spec_chain_edges(0, cs.len() as int),
            markers: Seq::<(Seq<char>, int)>::empty(),
            pending: None,
        }),
        spec_build_doc(spec_flat_doc(cs)) == (BuildV {
            cmds: cs,
            edges: Seq::<(int, int)>::empty(),
            markers: Seq::<(Seq<char>, int)>::empty(),
            pending: None,
        }),
{
    lemma_build_nested(spec_build_empty(), cs, 0, None);
    lemma_build_flat(spec_build_empty(), cs, 0, None);
    assert(Seq::<CommandV>::empty() + cs.subrange(0, cs.len() as int) =~= cs);
    assert(Seq::<(int, int)>::empty() + Seq::<(int, int)>::empty() + spec_chain_edges(
        0,
        cs.len() as int,
    ) =~= spec_chain_edges(0, cs.len() as int));
    assert(spec_build_doc(spec_nested_doc(cs, 0)) =~= BuildV {
        cmds: cs,
        edges: spec_chain_edges(0, cs.len() as int),
        markers: Seq::<(Seq<char>, int)>::empty(),
        pending: None,
    });
    assert(spec_build_doc(spec_flat_doc(cs)) =~= BuildV {
        cmds: cs,
        edges: Seq::<(int, int)>::empty(),
        markers: Seq::<(Seq<char>, int)>::empty(),
        pending: None,
    });
}

/// One tick's result: its number and the commands emitted.
#[derive(Debug)]
pub struct Tick {
    number: usize,
    commands: Vec<Command>,
}

/// The mathematical value of a [`Tick`].
pub ghost struct TickV {
    pub number: int,
    pub commands: Seq<CommandV>,
}

impl View for Tick {
    type V = TickV;

    closed spec fn view(&self) -> TickV {
        TickV {
            number: self.number as int,
            commands: Seq::new(self.commands@.len(), |i: int| self.commands@[i]@),
        }
    }
}

impl Tick {
    /// The number of this tick, counted from zero.
    pub fn number(&self) -> (r: usize)
        ensures
            r == self@.number,
    {
        self.number
    }

    /// The commands emitted by this tick.
    pub fn commands(&self) -> (r: &Vec<Command>)
        ensures
            self@.commands == Seq::new(r@.len(), |i: int| r@[i]@),
    {
        &self.commands
    }

    /// Whether the tick emitted nothing: the script has ended.
    pub fn is_empty(&self) -> (r: bool)
        ensures
            r == (self@.commands.len() == 0),
    {
        self.commands.len() == 0
    }

    /// How many commands the tick emitted.
    pub fn len(&self) -> (r: usize)
        ensures
            r == self@.commands.len(),
    {
        self.commands.len()
    }

    /// The command at `index`, where there is one.
    pub fn get(&self, index: usize) -> (r: Option<&Command>)
        ensures
            r is Some <==> index < self@.commands.len(),
            r matches Some(c) ==> self@.commands[index as int] == c@,
    {
        if index < self.commands.len() {
            Some(&self.commands[index])
        } else {
            None
        }
    }
}

/// The marker table as a mathematical association list.
pub open spec fn spec_markers_view(ms: Seq<(String, NodeId)>) -> Seq<(Seq<char>, int)> {
    Seq::new(ms.len(), |k: int| (ms[k].0@, ms[k].1@))
}

/// The pending marker's name.
pub open spec fn spec_pending_view(p: Option<Marker>) -> Option<Seq<char>> {
    match p {
        Some(m) => Some(m@),
        None => None,
    }
}

/// The value of an optional node identity.
pub open spec fn spec_opt_id(p: Option<NodeId>) -> Option<int> {
    match p {
        Some(id) => Some(id@),
        None => None,
    }
}

/// The build state held by the given tree, marker table and pending
/// marker.
pub open spec fn spec_st_of(
    t: TreeV<Command>,
    ms: Seq<(Seq<char>, int)>,
    pending: Option<Seq<char>>,
) -> BuildV {
    BuildV { cmds: spec_cmds_of(t), edges: t.edges, markers: ms, pending }
}

/// Every marker entry names a node of the tree.
pub open spec fn spec_markers_wf(ms: Seq<(Seq<char>, int)>, n: int) -> bool {
    forall|k: int| 0 <= k < ms.len() ==> 0 <= (#[trigger] ms[k]).1 < n
}

/// Binds `name` to `id` in the marker table, per [`spec_bind`].
fn bind_marker(markers: &mut Vec<(String, NodeId)>, name: &Marker, id: NodeId)
    ensures
        spec_markers_view(final(markers)@) == spec_bind(
            spec_markers_view(old(markers)@),
            name@,
            id@,
        ),
        final(markers)@.len() <= old(markers)@.len() + 1,
{
    let ghost ms0 = spec_markers_view(old(markers)@);
    let m = markers.len();
    let mut j: usize = 0;
    while j < m
        invariant
            0 <= j <= m,
            m == markers@.len(),
            markers@ == old(markers)@,
            ms0 == spec_markers_view(markers@),
            spec_bind(ms0, name@, id@) == spec_bind_from(ms0, name@, id@, j as int),
        decreases m - j,
    {
        proof {
            assert(ms0[j as int] == (markers@[j as int].0@, markers@[j as int].1@));
        }
        if str_eq(markers[j].0.as_str(), name.name()) {
            let key = name.name().to_owned();
            markers.set(j, (key, id));
            proof {
                assert(spec_markers_view(markers@) =~= ms0.update(j as int, (name@, id@)));
            }
            return ;
        }
        j = j + 1;
    }
    let key = name.name().to_owned();
    markers.push((key, id));
    proof {
        assert(spec_markers_view(markers@) =~= ms0.push((name@, id@)));
    }
}

/// Builds one element into the arena, per [`spec_build_elem`].
fn build_elem_exec(
    tree: &mut Tree<Command>,
    markers: &mut Vec<(String, NodeId)>,
    pending: &mut Option<Marker>,
    e: &TopLevelElement,
    parent: Option<NodeId>,
    last: &mut Option<NodeId>,
)
    requires
        old(tree).wf(),
        spec_markers_wf(spec_markers_view(old(markers)@), old(tree)@.nodes.len() as int),
        parent matches Some(p) ==> 0 <= p@ < old(tree)@.nodes.len(),
        (*old(last)) matches Some(l) ==> 0 <= l@ < old(tree)@.nodes.len(),
    ensures
        final(tree).wf(),
        final(tree)@.nodes.len() >= old(tree)@.nodes.len(),
        spec_markers_wf(spec_markers_view(final(markers)@), final(tree)@.nodes.len() as int),
        (*final(last)) matches Some(l) ==> 0 <= l@ < final(tree)@.nodes.len(),
        (
            spec_st_of(
                final(tree)@,
                spec_markers_view(final(markers)@),
                spec_pending_view(*final(pending)),
            ),
            spec_opt_id(*final(last)),
        ) == spec_build_elem(
            spec_st_of(
                old(tree)@,
                spec_markers_view(old(markers)@),
                spec_pending_view(*old(pending)),
            ),
            e@,
            spec_opt_id(parent),
            spec_opt_id(*old(last)),
        ),
    decreases e@, 1nat,
{
    let ghost st0 = spec_st_of(
        old(tree)@,
        spec_markers_view(old(markers)@),
        spec_pending_view(*old(pending)),
    );
    let ghost target = spec_build_elem(
        st0,
        e@,
        spec_opt_id(parent),
        spec_opt_id(*old(last)),
    );
    match e {
        TopLevelElement::Line(line) => {
            match line {
                crate::script::line::Line::Command(cmd) => {
                    proof {
                        assert(e@ == ElemV::Line(crate::script::line::LineV::Command(cmd@)));
                    }
                    let c = cmd.clone();
                    let id = match parent {
                        Some(p) => tree.push_with_parent(c, p),
                        None => tree.push(c),
                    };
                    proof {
                        assert(id@ == st0.cmds.len());
                        assert(spec_cmds_of(tree@) =~= st0.cmds.push(cmd@));
                        match parent {
                            Some(p) => {
                                assert(tree@.edges =~= st0.edges.push((p@, id@)));
                            },
                            None => {
                                assert(tree@.edges =~= st0.edges);
                            },
                        }
                    }
                    let pm = match &*pending {
                        Some(m) => Some(m.clone()),
                        None => None,
                    };
                    *pending = None;
                    match pm {
                        Some(m) => {
                            proof {
                                assert(spec_pending_view(*old(pending)) == Some(m@));
                            }
                            bind_marker(markers, &m, id);
                            proof {
                                lemma_bind_wf(st0.markers, m@, id@, tree@.nodes.len() as int);
                            }
                        },
                        None => {},
                    }
                    *last = Some(id);
                    proof {
                        assert(spec_st_of(
                            tree@,
                            spec_markers_view(markers@),
                            spec_pending_view(*pending),
                        ) =~= target.0);
                        assert(spec_opt_id(*last) == target.1);
                    }
                },
                crate::script::line::Line::Marker(m) => {
                    proof {
                        assert(e@ == ElemV::Line(crate::script::line::LineV::Marker(m@)));
                    }
                    *pending = Some(m.clone());
                    proof {
                        assert(spec_st_of(
                            tree@,
                            spec_markers_view(markers@),
                            spec_pending_view(*pending),
                        ) =~= target.0);
                        assert(spec_opt_id(*last) == target.1);
                    }
                },
            }
        },
        TopLevelElement::Comment(_) => {
            proof {
                assert(spec_st_of(
                    tree@,
                    spec_markers_view(markers@),
                    spec_pending_view(*pending),
                ) =~= target.0);
            }
        },
        TopLevelElement::Block(b) => {
            let p2 = match &*last {
                Some(l) => Some(*l),
                None => parent,
            };
            proof {
                crate::script::element::lemma_block_view(*b);
                assert(e@ == ElemV::Block(crate::script::element::spec_elems_view(b.inner@)));
                assert(e@->Block_0 == crate::script::element::spec_elems_view(b.inner@));
                assert(decreases_to!(e@ => e@->Block_0));
            }
            build_elems_exec(tree, markers, pending, &b.inner, p2);
            proof {
                assert(spec_st_of(
                    tree@,
                    spec_markers_view(markers@),
                    spec_pending_view(*pending),
                ) =~= target.0);
                assert(spec_opt_id(*last) == target.1);
            }
        },
    }
}

/// The bound marker table stays within the (possibly grown) tree.
proof fn lemma_bind_wf(ms: Seq<(Seq<char>, int)>, name: Seq<char>, id: int, n: int)
    requires
        spec_markers_wf(ms, n),
        0 <= id < n,
    ensures
        spec_markers_wf(spec_bind(ms, name, id), n),
{
    lemma_bind_from_wf(ms, name, id, n, 0);
}

/// As [`lemma_bind_wf`], from entry `j` on.
proof fn lemma_bind_from_wf(ms: Seq<(Seq<char>, int)>, name: Seq<char>, id: int, n: int, j: int)
    requires
        spec_markers_wf(ms, n),
        0 <= id < n,
        0 <= j,
    ensures
        spec_markers_wf(spec_bind_from(ms, name, id, j), n),
    decreases ms.len() - j,
{
    if j >= ms.len() {
        assert forall|k: int|
            0 <= k < ms.push((name, id)).len() implies 0 <= (#[trigger] ms.push(
            (name, id),
        )[k]).1 < n by {
            if k < ms.len() {
                assert(ms.push((name, id))[k] == ms[k]);
            }
        }
    } else if ms[j].0 == name {
        assert forall|k: int|
            0 <= k < ms.update(j, (name, id)).len() implies 0 <= (#[trigger] ms.update(
            j,
            (name, id),
        )[k]).1 < n by {
            if k != j {
                assert(ms.update(j, (name, id))[k] == ms[k]);
            }
        }
    } else {
        lemma_bind_from_wf(ms, name, id, n, j + 1);
    }
}

/// Builds a sequence of elements into the arena, per
/// [`spec_build_elems`], starting a fresh level with no last node.
fn build_elems_exec(
    tree: &mut Tree<Command>,
    markers: &mut Vec<(String, NodeId)>,
    pending: &mut Option<Marker>,
    elems: &Vec<TopLevelElement>,
    parent: Option<NodeId>,
)
    requires
        old(tree).wf(),
        spec_markers_wf(spec_markers_view(old(markers)@), old(tree)@.nodes.len() as int),
        parent matches Some(p) ==> 0 <= p@ < old(tree)@.nodes.len(),
    ensures
        final(tree).wf(),
        final(tree)@.nodes.len() >= old(tree)@.nodes.len(),
        spec_markers_wf(spec_markers_view(final(markers)@), final(tree)@.nodes.len() as int),
        spec_st_of(
            final(tree)@,
            spec_markers_view(final(markers)@),
            spec_pending_view(*final(pending)),
        ) == spec_build_elems(
            spec_st_of(
                old(tree)@,
                spec_markers_view(old(markers)@),
                spec_pending_view(*old(pending)),
            ),
            crate::script::element::spec_elems_view(elems@),
            0,
            spec_opt_id(parent),
            None,
        ).0,
    decreases crate::script::element::spec_elems_view(elems@), 0nat,
{
    let ghost ev = crate::script::element::spec_elems_view(elems@);
    let ghost st0 = spec_st_of(
        old(tree)@,
        spec_markers_view(old(markers)@),
        spec_pending_view(*old(pending)),
    );
    let n = elems.len();
    let mut last: Option<NodeId> = None;
    let mut i: usize = 0;
    while i < n
        invariant
            0 <= i <= n,
            n == elems@.len(),
            ev == crate::script::element::spec_elems_view(elems@),
            tree.wf(),
            tree@.nodes.len() >= old(tree)@.nodes.len(),
            spec_markers_wf(spec_markers_view(markers@), tree@.nodes.len() as int),
            parent matches Some(p) ==> 0 <= p@ < tree@.nodes.len(),
            last matches Some(l) ==> 0 <= l@ < tree@.nodes.len(),
            spec_build_elems(st0, ev, 0, spec_opt_id(parent), None) == spec_build_elems(
                spec_st_of(tree@, spec_markers_view(markers@), spec_pending_view(*pending)),
                ev,
                i as int,
                spec_opt_id(parent),
                spec_opt_id(last),
            ),
        decreases n - i,
    {
        proof {
            assert(ev[i as int] == elems@[i as int]@);
        }
        build_elem_exec(tree, markers, pending, &elems[i], parent, &mut last);
        i = i + 1;
    }
}

/// A state tree: an arena tree of commands, a marker table, and the
/// three-state traversal position.
#[derive(Debug)]
pub struct StateTree {
    tree: Tree<Command>,
    /// A mapping of marker names to node ids.
    markers: Vec<(String, NodeId)>,
    /// When a choice is pending, `choose` must be called before `tick`.
    state: TreeState,
    tick_count: usize,
}

impl View for StateTree {
    type V = StateTreeV;

    closed spec fn view(&self) -> StateTreeV {
        StateTreeV {
            tree: self.tree@,
            markers: Seq::new(
                self.markers@.len(),
                |k: int| (self.markers@[k].0@, self.markers@[k].1@),
            ),
            state: match self.state {
                TreeState::AwaitingChoice(ref cs) => StateV::AwaitingChoice(
                    Seq::new(cs@.len(), |i: int| cs@[i]@),
                ),
                TreeState::AwaitingTick(c) => StateV::AwaitingTick(c@),
                TreeState::Done => StateV::Done,
            },
            ticks: self.tick_count as int,
        }
    }
}

impl StateTree {
    /// The tree and marker table are well formed and every state entry is
    /// a node.
    pub open spec fn wf(&self) -> bool {
        self@.wf() && self.tree_wf()
    }

    /// The underlying arena tree's own well-formedness.
    pub closed spec fn tree_wf(&self) -> bool {
        self.tree.wf()
    }

    /// Build a state tree from a parsed script.
    ///
    /// Flattens the document into the arena per [`spec_build_doc`]: every
    /// command line becomes a node, blocks nest their commands beneath the
    /// line that opens them, markers bind to the next command's node, and
    /// comments are skipped.  The script must produce at least one node,
    /// which the engine starts on.
    pub fn new(script: Script) -> (r: StateTree)
        requires
            spec_build_doc(script@).cmds.len() > 0,
        ensures
            r.wf(),
            spec_cmds_of(r@.tree) == spec_build_doc(script@).cmds,
            r@.tree.edges == spec_build_doc(script@).edges,
            r@.markers == spec_build_doc(script@).markers,
            r@.state == StateV::AwaitingTick(0),
            r@.ticks == 0,
    {
        let mut tree: Tree<Command> = Tree::new();
        let mut markers: Vec<(String, NodeId)> = Vec::new();
        let mut pending: Option<Marker> = None;
        proof {
            assert(spec_markers_view(markers@) =~= Seq::<(Seq<char>, int)>::empty());
            assert(spec_st_of(
                tree@,
                spec_markers_view(markers@),
                spec_pending_view(pending),
            ) =~= spec_build_empty()) by {
                assert(spec_cmds_of(tree@) =~= Seq::<CommandV>::empty());
            }
        }
        build_elems_exec(&mut tree, &mut markers, &mut pending, &script.0, None);
        proof {
            crate::tree::lemma_tree_wf_view(&tree);
            assert(spec_cmds_of(tree@) == spec_build_doc(script@).cmds);
        }
        let first = match tree.first() {
            Some(id) => id,
            None => unreached(),
        };
        let r = StateTree {
            tree,
            markers,
            state: TreeState::AwaitingTick(first),
            tick_count: 0,
        };
        proof {
            assert(r@.markers =~= spec_markers_view(r.markers@));
        }
        r
    }

    /// Advance the engine by one tick.
    ///
    /// From `AwaitingTick` the tick emits the command at the current node
    /// and moves on per [`spec_advance`]; once `Done`, ticks keep
    /// returning an empty result without advancing the count; while a
    /// choice is pending the call fails with `IllegalState` and changes
    /// nothing.
    pub fn tick(&mut self) -> (r: Result<Tick, EngineError>)
        requires
            old(self).wf(),
            old(self)@.ticks < usize::MAX,
        ensures
            final(self).wf(),
            final(self)@.tree == old(self)@.tree,
            final(self)@.markers == old(self)@.markers,
            old(self)@.state is AwaitingChoice ==> r == Result::<Tick, EngineError>::Err(
                EngineError::IllegalState,
            ) && final(self)@ == old(self)@,
            old(self)@.state is Done ==> {
                &&& r matches Ok(t)
                &&& r->Ok_0@.commands.len() == 0
                &&& r->Ok_0@.number == old(self)@.ticks
                &&& final(self)@ == old(self)@
            },
            old(self)@.state matches StateV::AwaitingTick(c) ==> {
                &&& r matches Ok(t)
                &&& r->Ok_0@.number == old(self)@.ticks
                &&& r->Ok_0@.commands == seq![old(self)@.tree.nodes[c]@]
                &&& final(self)@.ticks == old(self)@.ticks + 1
                &&& final(self)@.state == spec_advance(old(self)@.tree, c)
            },
    {
        let current: NodeId;
        match &self.state {
            TreeState::AwaitingChoice(_) => {
                return Err(EngineError::IllegalState);
            },
            TreeState::Done => {
                let t = Tick { number: self.tick_count, commands: Vec::new() };
                proof {
                    assert(t@.commands =~= Seq::<CommandV>::empty());
                }
                return Ok(t);
            },
            TreeState::AwaitingTick(c) => {
                current = *c;
            },
        }
        let ghost tv = self.tree@;
        let ghost c = current@;
        let number = self.tick_count;
        self.tick_count = self.tick_count + 1;
        let child_ids = self.tree.children_of(current);
        let command = match self.tree.get_by_id(current) {
            Some(cmd) => cmd.clone(),
            None => unreached(),
        };
        let mut commands: Vec<Command> = Vec::new();
        commands.push(command);
        let tick = Tick { number, commands };
        proof {
            assert(tick@.commands =~= seq![tv.nodes[c]@]);
            assert(Seq::new(child_ids@.len(), |i: int| child_ids@[i]@) == tv.children(c));
            crate::tree::lemma_children_in_range(tv, c);
        }
        if child_ids.len() == 0 {
            proof {
                assert(tv.children(c).len() == 0);
            }
            let is_choice = match self.tree.get_by_id(current) {
                Some(cmd) => cmd.is_choice(),
                None => unreached(),
            };
            if is_choice {
                proof {
                    assert(Seq::new(child_ids@.len(), |i: int| child_ids@[i]@) =~= Seq::<
                        int,
                    >::empty());
                }
                self.state = TreeState::AwaitingChoice(child_ids);
            } else {
                proof {
                    crate::tree::lemma_next_in_range(tv, c);
                }
                match self.tree.next(current) {
                    Some(next_id) => {
                        self.state = TreeState::AwaitingTick(next_id);
                    },
                    None => {
                        self.state = TreeState::Done;
                    },
                }
            }
        } else {
            let first_child = child_ids[0];
            proof {
                assert(tv.children(c)[0] == first_child@);
            }
            let first_is_choice = match self.tree.get_by_id(first_child) {
                Some(cmd) => cmd.is_choice(),
                None => unreached(),
            };
            if first_is_choice {
                self.state = TreeState::AwaitingChoice(child_ids);
            } else {
                self.state = TreeState::AwaitingTick(first_child);
            }
        }
        proof {
            assert forall|k: int|
                0 <= k < self@.markers.len() implies 0 <= (#[trigger] self@.markers[k]).1
                < self@.tree.nodes.len() by {
                assert(self@.markers[k] == (self.markers@[k].0@, self.markers@[k].1@));
                assert(old(self)@.markers[k] == (self.markers@[k].0@, self.markers@[k].1@));
                assert(0 <= old(self)@.markers[k].1 < old(self)@.tree.nodes.len());
            }
        }
        Ok(tick)
    }

    /// Resolve a pending choice by index.
    ///
    /// Valid only while a choice is pending, and the index must be in
    /// range of the pending options; moves to `AwaitingTick` over the
    /// chosen node.  In any other state the call fails with
    /// `IllegalState` and changes nothing.
    pub fn choose_index(&mut self, choice: usize) -> (r: Result<(), EngineError>)
        requires
            old(self).wf(),
            old(self)@.state matches StateV::AwaitingChoice(cs) ==> (choice as int) < cs.len(),
        ensures
            final(self).wf(),
            final(self)@.tree == old(self)@.tree,
            final(self)@.markers == old(self)@.markers,
            final(self)@.ticks == old(self)@.ticks,
            old(self)@.state matches StateV::AwaitingChoice(cs) ==> r is Ok && final(self)@.state
                == StateV::AwaitingTick(cs[choice as int]),
            !(old(self)@.state is AwaitingChoice) ==> r == Result::<(), EngineError>::Err(
                EngineError::IllegalState,
            ) && final(self)@ == old(self)@,
    {
        let child_id: NodeId;
        match &self.state {
            TreeState::AwaitingTick(_) => {
                return Err(EngineError::IllegalState);
            },
            TreeState::Done => {
                return Err(EngineError::IllegalState);
            },
            TreeState::AwaitingChoice(children) => {
                child_id = children[choice];
                proof {
                    let cs = Seq::new(children@.len(), |i: int| children@[i]@);
                    assert(cs[choice as int] == child_id@);
                }
            },
        }
        self.state = TreeState::AwaitingTick(child_id);
        proof {
            assert forall|k: int|
                0 <= k < self@.markers.len() implies 0 <= (#[trigger] self@.markers[k]).1
                < self@.tree.nodes.len() by {
                assert(self@.markers[k] == (self.markers@[k].0@, self.markers@[k].1@));
                assert(old(self)@.markers[k] == (self.markers@[k].0@, self.markers@[k].1@));
                assert(0 <= old(self)@.markers[k].1 < old(self)@.tree.nodes.len());
            }
        }
        Ok(())
    }

    /// Jump to the node bound to `marker`, from any state.
    ///
    /// This is the one operation allowed to leave a pending choice
    /// unresolved.  Fails with `UnknownMarker`, changing nothing, where
    /// the name is not in the marker table.
    pub fn goto(&mut self, marker: &str) -> (r: Result<(), EngineError>)
        requires
            old(self).wf(),
        ensures
            final(self).wf(),
            final(self)@.tree == old(self)@.tree,
            final(self)@.markers == old(self)@.markers,
            final(self)@.ticks == old(self)@.ticks,
            r is Ok <==> spec_lookup(old(self)@.markers, marker@) is Some,
            r is Err ==> r == Result::<(), EngineError>::Err(EngineError::UnknownMarker),
            r is Err ==> final(self)@ == old(self)@,
            spec_lookup(old(self)@.markers, marker@) matches Some(id) ==> final(self)@.state
                == StateV::AwaitingTick(id),
    {
        let ghost ms = self@.markers;
        let m = self.markers.len();
        let mut k: usize = 0;
        while k < m
            invariant
                0 <= k <= m,
                m == self.markers@.len(),
                ms == self@.markers,
                ms.len() == m,
                self.wf(),
                self@ == old(self)@,
                spec_lookup(ms, marker@) == spec_lookup_from(ms, marker@, k as int),
            decreases m - k,
        {
            proof {
                assert(ms[k as int] == (self.markers@[k as int].0@, self.markers@[k as int].1@));
            }
            if str_eq(self.markers[k].0.as_str(), marker) {
                let id = self.markers[k].1;
                proof {
                    assert(spec_lookup(ms, marker@) == Some(id@));
                    assert(0 <= ms[k as int].1 < self@.tree.nodes.len());
                }
                self.state = TreeState::AwaitingTick(id);
                proof {
                    assert forall|k: int|
                        0 <= k < self@.markers.len() implies 0 <= (#[trigger] self@.markers[k]).1
                        < self@.tree.nodes.len() by {
                        assert(self@.markers[k] == (self.markers@[k].0@, self.markers@[k].1@));
                        assert(old(self)@.markers[k] == (self.markers@[k].0@, self.markers@[k].1@));
                        assert(0 <= old(self)@.markers[k].1 < old(self)@.tree.nodes.len());
                    }
                }
                return Ok(());
            }
            k = k + 1;
        }
        Err(EngineError::UnknownMarker)
    }

    /// Whether the traversal has finished.
    pub fn is_done(&self) -> (r: bool)
        ensures
            r == (self@.state is Done),
    {
        match &self.state {
            TreeState::Done => true,
            _ => false,
        }
    }

    /// The pending choice nodes, where a choice is pending.
    pub fn pending_choices(&self) -> (r: Option<&Vec<NodeId>>)
        ensures
            r is Some <==> self@.state is AwaitingChoice,
            r matches Some(cs) ==> self@.state == StateV::AwaitingChoice(
                Seq::new(cs@.len(), |i: int| cs@[i]@),
            ),
    {
        match &self.state {
            TreeState::AwaitingChoice(cs) => Some(cs),
            _ => None,
        }
    }
}

} // verus!
