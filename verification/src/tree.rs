//! A generic append-only arena tree over opaque identities.
//!
//! Nodes are only ever appended, with identities handed out per tree in
//! increasing order, and parent/child relations are kept as an adjacency
//! list.  Top-level nodes (those pushed without a parent) count as
//! siblings of one another, in insertion order.

use vstd::prelude::*;

verus! {

/// An opaque node identity, valid for the tree that handed it out.
#[derive(Debug, Clone, Copy, PartialEq, Eq, Hash, PartialOrd, Ord, Structural)]
pub struct NodeId(usize);

impl View for NodeId {
    type V = int;

    closed spec fn view(&self) -> int {
        self.0 as int
    }
}

/// The mathematical value of a [`Tree`]: its node payloads, indexed by
/// identity, and its parent/child edges in insertion order.
#[verifier::ext_equal]
pub ghost struct TreeV<T> {
    pub nodes: Seq<T>,
    pub edges: Seq<(int, int)>,
}

impl<T> TreeV<T> {
    /// Every edge joins an earlier parent to a later child within bounds,
    /// and edges are ordered by strictly increasing child.
    pub open spec fn wf(self) -> bool {
        &&& forall|k: int|
            0 <= k < self.edges.len() ==> {
                &&& 0 <= (#[trigger] self.edges[k]).0
                &&& self.edges[k].0 < self.edges[k].1
                &&& self.edges[k].1 < self.nodes.len()
            }
        &&& forall|k1: int, k2: int|
            0 <= k1 < k2 < self.edges.len() ==> (#[trigger] self.edges[k1]).1 < (
            #[trigger] self.edges[k2]).1
    }

    /// The parent of node `c`, sought from edge `k` on.
    pub open spec fn parent_from(self, c: int, k: int) -> Option<int>
        decreases self.edges.len() - k,
    {
        if k < 0 || k >= self.edges.len() {
            None
        } else if self.edges[k].1 == c {
            Some(self.edges[k].0)
        } else {
            self.parent_from(c, k + 1)
        }
    }

    /// The parent of node `c`, or `None` for a top-level node.
    pub open spec fn parent(self, c: int) -> Option<int> {
        self.parent_from(c, 0)
    }

    /// The children of node `p` in insertion order, from edge `k` on.
    pub open spec fn children_from(self, p: int, k: int) -> Seq<int>
        decreases self.edges.len() - k,
    {
        if k < 0 || k >= self.edges.len() {
            Seq::<int>::empty()
        } else if self.edges[k].0 == p {
            seq![self.edges[k].1] + self.children_from(p, k + 1)
        } else {
            self.children_from(p, k + 1)
        }
    }

    /// The children of node `p` in insertion order.
    pub open spec fn children(self, p: int) -> Seq<int> {
        self.children_from(p, 0)
    }

    /// The first node at or after `j` that shares `c`'s parent.
    pub open spec fn sibling_from(self, c: int, j: int) -> Option<int>
        decreases self.nodes.len() - j,
    {
        if j < 0 || j >= self.nodes.len() {
            None
        } else if self.parent(j) == self.parent(c) {
            Some(j)
        } else {
            self.sibling_from(c, j + 1)
        }
    }

    /// The next sibling of `c`: the first later node with the same parent;
    /// top-level nodes are siblings of one another.
    pub open spec fn next_sibling(self, c: int) -> Option<int> {
        self.sibling_from(c, c + 1)
    }

    /// The last node before `c` that shares `c`'s parent.
    pub open spec fn prev_sibling_from(self, c: int, j: int) -> Option<int>
        decreases j + 1,
    {
        if j < 0 || j >= self.nodes.len() {
            None
        } else if self.parent(j) == self.parent(c) {
            Some(j)
        } else {
            self.prev_sibling_from(c, j - 1)
        }
    }

    /// The previous sibling of `c`, where there is one.
    pub open spec fn prev_sibling(self, c: int) -> Option<int> {
        self.prev_sibling_from(c, c - 1)
    }

    /// The document-order successor of `c`: its next sibling, else the
    /// successor of its parent; `None` once a top-level node has no later
    /// sibling.
    pub open spec fn next(self, c: int) -> Option<int>
        decreases c,
    {
        if c < 0 || c >= self.nodes.len() {
            None
        } else {
            match self.next_sibling(c) {
                Some(s) => Some(s),
                None => match self.parent(c) {
                    Some(p) => if 0 <= p < c {
                        self.next(p)
                    } else {
                        None
                    },
                    None => None,
                },
            }
        }
    }
}

/// What `parent_from` finds: the first matching edge, and in a well-formed
/// tree a parent strictly below its child.
pub proof fn lemma_parent_props<T>(t: TreeV<T>, c: int, k: int)
    requires
        0 <= k <= t.edges.len(),
    ensures
        t.parent_from(c, k) matches Some(p) ==> exists|j: int|
            k <= j < t.edges.len() && t.edges[j] == (p, c),
        t.parent_from(c, k) is None ==> forall|j: int|
            k <= j < t.edges.len() ==> (#[trigger] t.edges[j]).1 != c,
    decreases t.edges.len() - k,
{
    if k < t.edges.len() && t.edges[k].1 != c {
        lemma_parent_props(t, c, k + 1);
    }
}

/// In a well-formed tree a parent stands strictly below its child.
pub proof fn lemma_parent_below<T>(t: TreeV<T>, c: int)
    requires
        t.wf(),
        t.parent(c) is Some,
    ensures
        0 <= t.parent(c)->Some_0 < c,
        c < t.nodes.len(),
{
    lemma_parent_props(t, c, 0);
}

/// In a well-formed tree every child in a children list is a node above
/// its parent.
pub proof fn lemma_children_in_range<T>(t: TreeV<T>, p: int)
    requires
        t.wf(),
    ensures
        forall|i: int|
            0 <= i < t.children(p).len() ==> 0 <= #[trigger] t.children(p)[i] < t.nodes.len(),
{
    lemma_children_from_in_range(t, p, 0);
}

/// As [`lemma_children_in_range`], from edge `k` on.
proof fn lemma_children_from_in_range<T>(t: TreeV<T>, p: int, k: int)
    requires
        t.wf(),
        0 <= k <= t.edges.len(),
    ensures
        forall|i: int|
            0 <= i < t.children_from(p, k).len() ==> 0 <= #[trigger] t.children_from(p, k)[i]
                < t.nodes.len(),
    decreases t.edges.len() - k,
{
    if k < t.edges.len() {
        lemma_children_from_in_range(t, p, k + 1);
        if t.edges[k].0 == p {
            assert forall|i: int|
                0 <= i < t.children_from(p, k).len() implies 0 <= #[trigger] t.children_from(
                p,
                k,
            )[i] < t.nodes.len() by {
                if i == 0 {
                } else {
                    assert(t.children_from(p, k)[i] == t.children_from(p, k + 1)[i - 1]);
                }
            }
        }
    }
}

/// A sibling found by `sibling_from` is a node.
proof fn lemma_sibling_in_range<T>(t: TreeV<T>, c: int, j: int)
    requires
        0 <= j,
    ensures
        t.sibling_from(c, j) matches Some(s) ==> j <= s < t.nodes.len(),
    decreases t.nodes.len() - j,
{
    if 0 <= j < t.nodes.len() && t.parent(j) != t.parent(c) {
        lemma_sibling_in_range(t, c, j + 1);
    }
}

/// The document-order successor is a node.
pub proof fn lemma_next_in_range<T>(t: TreeV<T>, c: int)
    requires
        t.wf(),
    ensures
        t.next(c) matches Some(n) ==> 0 <= n < t.nodes.len(),
    decreases c,
{
    if 0 <= c < t.nodes.len() {
        lemma_sibling_in_range(t, c, c + 1);
        if t.next_sibling(c) is None {
            match t.parent(c) {
                Some(p) => {
                    lemma_parent_below(t, c);
                    if 0 <= p < c {
                        lemma_next_in_range(t, p);
                    }
                },
                None => {},
            }
        }
    }
}

/// A branch of the tree: an identity and its payload.
#[derive(Debug)]
pub struct Branch<T> {
    pub(crate) id: NodeId,
    pub(crate) data: T,
}

/// A well-formed tree has a well-formed value.
pub proof fn lemma_tree_wf_view<T>(t: &Tree<T>)
    requires
        t.wf(),
    ensures
        t@.wf(),
{
}

/// A generic append-only tree.
#[derive(Debug)]
pub struct Tree<T> {
    branches: Vec<Branch<T>>,
    // A is parent of B
    parent_child_relationships: Vec<(NodeId, NodeId)>,
}

impl<T> View for Tree<T> {
    type V = TreeV<T>;

    closed spec fn view(&self) -> TreeV<T> {
        TreeV {
            nodes: Seq::new(self.branches@.len(), |i: int| self.branches@[i].data),
            edges: Seq::new(
                self.parent_child_relationships@.len(),
                |k: int|
                    (
                        self.parent_child_relationships@[k].0@,
                        self.parent_child_relationships@[k].1@,
                    ),
            ),
        }
    }
}

impl<T> Tree<T> {
    /// Each branch's identity is its position.
    spec fn ids_in_place(&self) -> bool {
        forall|i: int| 0 <= i < self.branches@.len() ==> (#[trigger] self.branches@[i]).id@ == i
    }

    /// The tree's value is well formed and its identities are in place.
    pub closed spec fn wf(&self) -> bool {
        self.ids_in_place() && self@.wf()
    }

    /// Create a new, empty tree.
    pub fn new() -> (r: Tree<T>)
        ensures
            r.wf(),
            r@.nodes.len() == 0,
            r@.edges.len() == 0,
    {
        let r = Tree { branches: Vec::new(), parent_child_relationships: Vec::new() };
        proof {
            assert(r@.nodes =~= Seq::<T>::empty());
            assert(r@.edges =~= Seq::<(int, int)>::empty());
        }
        r
    }

    /// The identity of the first branch, or `None` for an empty tree.
    pub fn first(&self) -> (r: Option<NodeId>)
        ensures
            r is Some <==> self@.nodes.len() > 0,
            r matches Some(id) ==> id@ == 0,
    {
        if self.branches.len() > 0 {
            Some(NodeId(0))
        } else {
            None
        }
    }

    /// Adds a top-level branch; returns its identity.
    pub fn push(&mut self, data: T) -> (r: NodeId)
        requires
            old(self).wf(),
        ensures
            final(self).wf(),
            r@ == old(self)@.nodes.len(),
            final(self)@.nodes == old(self)@.nodes.push(data),
            final(self)@.edges == old(self)@.edges,
    {
        let id = NodeId(self.branches.len());
        self.branches.push(Branch { id, data });
        proof {
            assert(self@.nodes =~= old(self)@.nodes.push(data));
            assert(self@.edges =~= old(self)@.edges);
        }
        id
    }

    /// Adds a branch as the last child of `parent`; returns its identity.
    /// The parent must already exist in the tree.
    pub fn push_with_parent(&mut self, data: T, parent: NodeId) -> (r: NodeId)
        requires
            old(self).wf(),
            0 <= parent@ < old(self)@.nodes.len(),
        ensures
            final(self).wf(),
            r@ == old(self)@.nodes.len(),
            final(self)@.nodes == old(self)@.nodes.push(data),
            final(self)@.edges == old(self)@.edges.push((parent@, old(self)@.nodes.len() as int)),
    {
        let id = NodeId(self.branches.len());
        self.branches.push(Branch { id, data });
        self.parent_child_relationships.push((parent, id));
        proof {
            assert(self@.nodes =~= old(self)@.nodes.push(data));
            assert(self@.edges =~= old(self)@.edges.push((
                parent@,
                old(self)@.nodes.len() as int,
            )));
        }
        id
    }

    /// The payload of the branch with the given identity.
    pub fn get_by_id(&self, id: NodeId) -> (r: Option<&T>)
        requires
            self.wf(),
        ensures
            r is Some <==> 0 <= id@ < self@.nodes.len(),
            r matches Some(d) ==> *d == self@.nodes[id@],
    {
        let i = id.0;
        if i < self.branches.len() {
            Some(&self.branches[i].data)
        } else {
            None
        }
    }

    /// The identities of the direct children of `id`, in insertion order.
    pub fn children_of(&self, id: NodeId) -> (r: Vec<NodeId>)
        requires
            self.wf(),
        ensures
            Seq::new(r@.len(), |i: int| r@[i]@) == self@.children(id@),
    {
        let m = self.parent_child_relationships.len();
        let mut out: Vec<NodeId> = Vec::new();
        let mut k: usize = 0;
        proof {
            assert(Seq::new(out@.len(), |i: int| out@[i]@) =~= Seq::<int>::empty());
        }
        while k < m
            invariant
                0 <= k <= m,
                m == self.parent_child_relationships@.len(),
                m == self@.edges.len(),
                self.wf(),
                self@.children(id@) =~= Seq::new(out@.len(), |i: int| out@[i]@) + self@.children_from(
                    id@,
                    k as int,
                ),
            decreases m - k,
        {
            let (p, c) = self.parent_child_relationships[k];
            proof {
                assert(self@.edges[k as int] == (p@, c@));
            }
            if p.0 == id.0 {
                proof {
                    let prev = Seq::new(out@.len(), |i: int| out@[i]@);
                    assert(self@.children_from(id@, k as int) == seq![c@] + self@.children_from(
                        id@,
                        k as int + 1,
                    ));
                    assert(prev + (seq![c@] + self@.children_from(id@, k as int + 1)) =~= Seq::new(
                        out@.push(c).len(),
                        |i: int| out@.push(c)[i]@,
                    ) + self@.children_from(id@, k as int + 1));
                }
                out.push(c);
            } else {
                proof {
                    assert(p@ != id@);
                }
            }
            k = k + 1;
        }
        proof {
            assert(self@.children_from(id@, m as int) =~= Seq::<int>::empty());
            assert(self@.children(id@) =~= Seq::new(out@.len(), |i: int| out@[i]@));
        }
        out
    }

    /// The identity of the parent of `id`, or `None` for a top-level node.
    pub fn parent_of(&self, id: NodeId) -> (r: Option<NodeId>)
        requires
            self.wf(),
        ensures
            r is Some <==> self@.parent(id@) is Some,
            r matches Some(p) ==> self@.parent(id@) == Some(p@),
    {
        let m = self.parent_child_relationships.len();
        let mut k: usize = 0;
        while k < m
            invariant
                0 <= k <= m,
                m == self@.edges.len(),
                m == self.parent_child_relationships@.len(),
                self.wf(),
                self@.parent(id@) == self@.parent_from(id@, k as int),
            decreases m - k,
        {
            let (p, c) = self.parent_child_relationships[k];
            proof {
                assert(self@.edges[k as int] == (p@, c@));
            }
            if c.0 == id.0 {
                proof {
                    assert(c@ == id@);
                }
                return Some(p);
            }
            proof {
                assert(c@ != id@);
            }
            k = k + 1;
        }
        None
    }

    /// The next sibling of `id` in insertion order, where there is one.
    /// Top-level nodes are siblings of one another.
    pub fn next_sibling_of(&self, id: NodeId) -> (r: Option<NodeId>)
        requires
            self.wf(),
            0 <= id@ < self@.nodes.len(),
        ensures
            r is Some <==> self@.next_sibling(id@) is Some,
            r matches Some(s) ==> self@.next_sibling(id@) == Some(s@),
    {
        let n = self.branches.len();
        let here = self.parent_of(id);
        let mut j: usize = id.0 + 1;
        proof {
            assert(id@ + 1 == j as int);
        }
        while j < n
            invariant
                id@ + 1 <= j as int,
                n == self@.nodes.len(),
                self.wf(),
                (match here {
                    Some(p) => self@.parent(id@) == Some(p@),
                    None => self@.parent(id@) is None,
                }),
                self@.next_sibling(id@) == self@.sibling_from(id@, j as int),
            decreases n - j,
        {
            let there = self.parent_of(NodeId(j));
            let same = match (&here, &there) {
                (None, None) => true,
                (Some(a), Some(b)) => a.0 == b.0,
                _ => false,
            };
            if same {
                proof {
                    assert(self@.parent(j as int) == self@.parent(id@));
                }
                return Some(NodeId(j));
            }
            proof {
                assert(self@.parent(j as int) != self@.parent(id@));
            }
            j = j + 1;
        }
        proof {
            assert(self@.sibling_from(id@, j as int) is None);
        }
        None
    }

    /// The previous sibling of `id` in insertion order, where there is
    /// one.
    pub fn previous_sibling_of(&self, id: NodeId) -> (r: Option<NodeId>)
        requires
            self.wf(),
            0 <= id@ < self@.nodes.len(),
        ensures
            r is Some <==> self@.prev_sibling(id@) is Some,
            r matches Some(s) ==> self@.prev_sibling(id@) == Some(s@),
    {
        let here = self.parent_of(id);
        let mut j: usize = id.0;
        while j > 0
            invariant
                0 <= j as int <= id@,
                id@ < self@.nodes.len(),
                self.wf(),
                (match here {
                    Some(p) => self@.parent(id@) == Some(p@),
                    None => self@.parent(id@) is None,
                }),
                self@.prev_sibling(id@) == self@.prev_sibling_from(id@, j as int - 1),
            decreases j,
        {
            let cand = j - 1;
            let there = self.parent_of(NodeId(cand));
            let same = match (&here, &there) {
                (None, None) => true,
                (Some(a), Some(b)) => a.0 == b.0,
                _ => false,
            };
            if same {
                proof {
                    assert(self@.parent(cand as int) == self@.parent(id@));
                }
                return Some(NodeId(cand));
            }
            proof {
                assert(self@.parent(cand as int) != self@.parent(id@));
            }
            j = cand;
        }
        proof {
            assert(self@.prev_sibling_from(id@, -1) is None);
        }
        None
    }

    /// The identities of the siblings of `id` (its parent's other
    /// children), or `None` for a top-level node.
    pub fn siblings_of(&self, id: NodeId) -> (r: Option<Vec<NodeId>>)
        requires
            self.wf(),
        ensures
            r is Some <==> self@.parent(id@) is Some,
            r matches Some(v) ==> Seq::new(v@.len(), |i: int| v@[i]@) == spec_without(
                self@.children(self@.parent(id@)->Some_0),
                id@,
            ),
    {
        let p = match self.parent_of(id) {
            Some(p) => p,
            None => {
                return None;
            },
        };
        let kids = self.children_of(p);
        let mut out: Vec<NodeId> = Vec::new();
        let mut k: usize = 0;
        let ghost all = self@.children(p@);
        proof {
            assert(Seq::new(kids@.len(), |i: int| kids@[i]@) == all);
            assert(all.subrange(0, 0) =~= Seq::<int>::empty());
            assert(spec_without(all.subrange(0, 0), id@) =~= Seq::<int>::empty());
            assert(Seq::new(out@.len(), |i: int| out@[i]@) =~= Seq::<int>::empty());
        }
        while k < kids.len()
            invariant
                0 <= k <= kids@.len(),
                self.wf(),
                all == self@.children(self@.parent(id@)->Some_0),
                self@.parent(id@) is Some,
                Seq::new(kids@.len(), |i: int| kids@[i]@) == all,
                Seq::new(out@.len(), |i: int| out@[i]@) == spec_without(
                    all.subrange(0, k as int),
                    id@,
                ),
            decreases kids@.len() - k,
        {
            let c = kids[k];
            proof {
                assert(all[k as int] == c@);
                lemma_without_push(all.subrange(0, k as int), c@, id@);
                assert(all.subrange(0, k as int + 1) =~= all.subrange(0, k as int).push(
                    all[k as int],
                ));
            }
            if c.0 != id.0 {
                proof {
                    let prev = Seq::new(out@.len(), |i: int| out@[i]@);
                    assert(prev.push(c@) =~= Seq::new(
                        out@.push(c).len(),
                        |i: int| out@.push(c)[i]@,
                    ));
                }
                out.push(c);
            } else {
                proof {
                    assert(c@ == id@);
                }
            }
            k = k + 1;
        }
        proof {
            assert(all.subrange(0, kids@.len() as int) =~= all);
        }
        Some(out)
    }

    /// The document-order successor of `id`: its next sibling, else the
    /// successor of its parent.
    pub fn next(&self, id: NodeId) -> (r: Option<NodeId>)
        requires
            self.wf(),
            0 <= id@ < self@.nodes.len(),
        ensures
            r is Some <==> self@.next(id@) is Some,
            r matches Some(s) ==> self@.next(id@) == Some(s@),
        decreases id@,
    {
        match self.next_sibling_of(id) {
            Some(s) => Some(s),
            None => {
                match self.parent_of(id) {
                    Some(p) => {
                        proof {
                            lemma_parent_below(self@, id@);
                        }
                        self.next(p)
                    },
                    None => None,
                }
            },
        }
    }

    /// The identity of the first branch whose payload satisfies `f`.
    pub fn find_by<F: Fn(&T) -> bool>(&self, f: F) -> (r: Option<NodeId>)
        requires
            self.wf(),
            forall|i: int|
                0 <= i < self@.nodes.len() ==> call_requires(f, (&self@.nodes[i],)),
        ensures
            r matches Some(id) ==> {
                &&& 0 <= id@ < self@.nodes.len()
                &&& call_ensures(f, (&self@.nodes[id@],), true)
                &&& forall|j: int|
                    0 <= j < id@ ==> call_ensures(f, (&self@.nodes[j],), false)
            },
            r is None ==> forall|j: int|
                0 <= j < self@.nodes.len() ==> call_ensures(f, (&self@.nodes[j],), false),
    {
        let n = self.branches.len();
        let mut i: usize = 0;
        while i < n
            invariant
                0 <= i <= n,
                n == self@.nodes.len(),
                self.wf(),
                forall|q: int| 0 <= q < n ==> call_requires(f, (&self@.nodes[q],)),
                forall|j: int| 0 <= j < i ==> call_ensures(f, (&self@.nodes[j],), false),
            decreases n - i,
        {
            proof {
                assert(self@.nodes[i as int] == self.branches@[i as int].data);
            }
            if f(&self.branches[i].data) {
                return Some(NodeId(i));
            }
            i = i + 1;
        }
        None
    }
}

/// `s` with every occurrence of `v` removed.
pub open spec fn spec_without(s: Seq<int>, v: int) -> Seq<int>
    decreases s.len(),
{
    if s.len() == 0 {
        Seq::<int>::empty()
    } else if s[0] == v {
        spec_without(s.drop_first(), v)
    } else {
        seq![s[0]] + spec_without(s.drop_first(), v)
    }
}

/// Appending to a sequence appends to (or drops from) its filtered form.
pub proof fn lemma_without_push(s: Seq<int>, x: int, v: int)
    ensures
        x == v ==> spec_without(s.push(x), v) == spec_without(s, v),
        x != v ==> spec_without(s.push(x), v) == spec_without(s, v).push(x),
    decreases s.len(),
{
    if s.len() == 0 {
        assert(s.push(x)[0] == x);
        assert(s.push(x).drop_first() =~= Seq::<int>::empty());
        assert(spec_without(Seq::<int>::empty(), v) =~= Seq::<int>::empty());
        assert(spec_without(s, v) =~= Seq::<int>::empty());
        if x != v {
            assert(spec_without(s.push(x), v) =~= spec_without(s, v).push(x));
        }
    } else {
        assert(s.push(x)[0] == s[0]);
        assert(s.push(x).drop_first() =~= s.drop_first().push(x));
        lemma_without_push(s.drop_first(), x, v);
        if x == v {
            assert(spec_without(s.push(x), v) =~= spec_without(s, v));
        } else {
            assert(spec_without(s.push(x), v) =~= spec_without(s, v).push(x));
        }
    }
}

impl<T> Default for Tree<T> {
    fn default() -> (r: Tree<T>)
        ensures
            r.wf(),
            r@.nodes.len() == 0,
            r@.edges.len() == 0,
    {
        Tree::new()
    }
}

} // verus!
