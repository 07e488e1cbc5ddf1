//! Top-level elements: a script or a block is an ordered sequence of these,
//! each a line, a comment, or a nested block one indentation level deeper.

use crate::script::block::Block;
use crate::script::comment::{Comment, spec_comment_content};
use crate::script::line::{Line, LineV, spec_line_content};
use vstd::prelude::*;
use vstd::pervasive::unreached;

verus! {

/// The mathematical value of a [`TopLevelElement`]: a tree of lines and
/// comments, where a block is the sequence of its children's values.
pub ghost enum ElemV {
    Block(Seq<ElemV>),
    Line(LineV),
    Comment(Seq<char>),
}

/// The mathematical value of one flattened script row: a line or a comment
/// (blocks flatten away into indentation levels).
pub ghost enum RowV {
    Line(LineV),
    Comment(Seq<char>),
}

/// A top-level element in a script: a [`Block`], a [`Line`], or a
/// [`Comment`].
#[derive(Debug, PartialEq, Eq)]
pub enum TopLevelElement {
    /// An indented block of further elements.
    Block(Block),
    /// A marker or command line.
    Line(Line),
    /// A comment.
    Comment(Comment),
}

/// The value of an element; blocks recurse into their children.
pub open spec fn spec_elem_view(e: TopLevelElement) -> ElemV
    decreases e, 1nat,
{
    match e {
        TopLevelElement::Block(b) => ElemV::Block(spec_inner_views(b.inner, 0)),
        TopLevelElement::Line(l) => ElemV::Line(l@),
        TopLevelElement::Comment(c) => ElemV::Comment(c@),
    }
}

/// The values of the elements of `v` from index `i` on.
pub open spec fn spec_inner_views(v: Vec<TopLevelElement>, i: int) -> Seq<ElemV>
    decreases v, v@.len() - i,
{
    if i < 0 || i >= v@.len() {
        Seq::<ElemV>::empty()
    } else {
        seq![spec_elem_view(v[i])] + spec_inner_views(v, i + 1)
    }
}

/// The value of a block: the values of its elements in order.
pub open spec fn spec_block_view(b: Block) -> Seq<ElemV> {
    spec_inner_views(b.inner, 0)
}

/// The elementwise values of `v` from `i` on, as a mapped sequence.
pub proof fn lemma_inner_views(v: Vec<TopLevelElement>, i: int)
    requires
        0 <= i <= v@.len(),
    ensures
        spec_inner_views(v, i) == spec_elems_view(v@).subrange(i, v@.len() as int),
    decreases v@.len() - i,
{
    if i == v@.len() {
        assert(spec_inner_views(v, i) =~= spec_elems_view(v@).subrange(i, v@.len() as int));
    } else {
        lemma_inner_views(v, i + 1);
        assert(spec_inner_views(v, i) =~= spec_elems_view(v@).subrange(i, v@.len() as int));
    }
}

/// A block's value is the value of its element vector.
pub proof fn lemma_block_view(b: Block)
    ensures
        spec_block_view(b) == spec_elems_view(b.inner@),
{
    lemma_inner_views(b.inner, 0);
    assert(spec_elems_view(b.inner@).subrange(0, b.inner@.len() as int) =~= spec_elems_view(
        b.inner@,
    ));
}

impl View for TopLevelElement {
    type V = ElemV;

    open spec fn view(&self) -> ElemV {
        spec_elem_view(*self)
    }
}

/// The values of a sequence of elements, in order.
pub open spec fn spec_elems_view(v: Seq<TopLevelElement>) -> Seq<ElemV> {
    Seq::new(v.len(), |i: int| spec_elem_view(v[i]))
}

/// The text of one flattened row, without indentation or line break.
pub open spec fn spec_row_content(r: RowV) -> Seq<char> {
    match r {
        RowV::Line(l) => spec_line_content(l),
        RowV::Comment(t) => spec_comment_content(t),
    }
}

/// Four spaces for each indentation level.
pub open spec fn spec_indent(level: nat) -> Seq<char>
    decreases level,
{
    if level == 0 {
        Seq::<char>::empty()
    } else {
        seq![' ', ' ', ' ', ' '] + spec_indent((level - 1) as nat)
    }
}

/// The indentation of a level is `4 * level` spaces.
pub proof fn lemma_indent_spaces(level: nat)
    ensures
        spec_indent(level).len() == 4 * level,
        forall|i: int| 0 <= i < 4 * level ==> #[trigger] spec_indent(level)[i] == ' ',
    decreases level,
{
    if level > 0 {
        lemma_indent_spaces((level - 1) as nat);
    }
}

/// The full text of one row: indentation, content, line break.
pub open spec fn spec_row_text(level: nat, r: RowV) -> Seq<char> {
    spec_indent(level) + spec_row_content(r) + seq!['\n']
}

/// The text of the rows from index `i` on.
pub open spec fn spec_rows_text_from(rows: Seq<(nat, RowV)>, i: int) -> Seq<char>
    decreases rows.len() - i,
{
    if i < 0 || i >= rows.len() {
        Seq::<char>::empty()
    } else {
        spec_row_text(rows[i].0, rows[i].1) + spec_rows_text_from(rows, i + 1)
    }
}

/// The text of a whole sequence of rows.
pub open spec fn spec_rows_text(rows: Seq<(nat, RowV)>) -> Seq<char> {
    spec_rows_text_from(rows, 0)
}

/// The flattened rows of one element at the given level.
pub open spec fn spec_flatten_elem(e: ElemV, level: nat) -> Seq<(nat, RowV)>
    decreases e, 0nat,
{
    match e {
        ElemV::Line(l) => seq![(level, RowV::Line(l))],
        ElemV::Comment(t) => seq![(level, RowV::Comment(t))],
        ElemV::Block(es) => spec_flatten_from(es, 0, (level + 1) as nat),
    }
}

/// The flattened rows of the elements from index `i` on, at the given
/// level.
pub open spec fn spec_flatten_from(es: Seq<ElemV>, i: int, level: nat) -> Seq<(nat, RowV)>
    decreases es, es.len() - i,
{
    if i < 0 || i >= es.len() {
        Seq::<(nat, RowV)>::empty()
    } else {
        spec_flatten_elem(es[i], level) + spec_flatten_from(es, i + 1, level)
    }
}

/// Appending an element appends its flattened rows.
pub proof fn lemma_flatten_push(es: Seq<ElemV>, e: ElemV, i: int, level: nat)
    requires
        0 <= i <= es.len(),
    ensures
        spec_flatten_from(es.push(e), i, level) == spec_flatten_from(es, i, level)
            + spec_flatten_elem(e, level),
    decreases es.len() - i,
{
    if i == es.len() {
        assert(es.push(e)[i] == e);
        assert(spec_flatten_from(es.push(e), i + 1, level) =~= Seq::<(nat, RowV)>::empty());
        assert(spec_flatten_from(es.push(e), i, level) =~= spec_flatten_elem(e, level));
        assert(spec_flatten_from(es, i, level) =~= Seq::<(nat, RowV)>::empty());
    } else {
        assert(es.push(e)[i] == es[i]);
        lemma_flatten_push(es, e, i + 1, level);
        assert(spec_flatten_from(es.push(e), i, level) =~= spec_flatten_from(es, i, level)
            + spec_flatten_elem(e, level));
    }
}

/// Concatenating row texts over adjacent subranges.
pub proof fn lemma_rows_text_concat(a: Seq<(nat, RowV)>, b: Seq<(nat, RowV)>, i: int)
    requires
        0 <= i <= a.len(),
    ensures
        spec_rows_text_from(a + b, i) == spec_rows_text_from(a, i) + spec_rows_text(b),
    decreases a.len() - i,
{
    if i == a.len() {
        assert(spec_rows_text_from(a, i) =~= Seq::<char>::empty());
        if b.len() == 0 {
            assert(spec_rows_text_from(a + b, i) =~= Seq::<char>::empty());
            assert(spec_rows_text(b) =~= Seq::<char>::empty());
        } else {
            lemma_rows_text_shift(a, b, 0);
        }
    } else {
        assert((a + b)[i] == a[i]);
        lemma_rows_text_concat(a, b, i + 1);
        assert(spec_rows_text_from(a + b, i) =~= spec_rows_text_from(a, i) + spec_rows_text(b));
    }
}

/// Rows of the concatenation, read from inside `b`.
proof fn lemma_rows_text_shift(a: Seq<(nat, RowV)>, b: Seq<(nat, RowV)>, j: int)
    requires
        0 <= j <= b.len(),
    ensures
        spec_rows_text_from(a + b, a.len() + j) == spec_rows_text_from(b, j),
    decreases b.len() - j,
{
    if j < b.len() {
        assert((a + b)[a.len() + j] == b[j]);
        lemma_rows_text_shift(a, b, j + 1);
    }
}

impl TopLevelElement {
    /// Whether the element is a block.
    pub fn is_block(&self) -> (r: bool)
        ensures
            r == (self@ is Block),
    {
        match self {
            TopLevelElement::Block(_) => true,
            _ => false,
        }
    }

    /// Whether the element is a comment.
    pub fn is_comment(&self) -> (r: bool)
        ensures
            r == (self@ is Comment),
    {
        match self {
            TopLevelElement::Comment(_) => true,
            _ => false,
        }
    }

    /// The line of the element, where it is one.
    pub fn as_line(&self) -> (r: Option<&Line>)
        ensures
            r matches Some(l) ==> self@ == ElemV::Line(l@),
            r is Some <==> self@ is Line,
    {
        match self {
            TopLevelElement::Line(l) => Some(l),
            _ => None,
        }
    }

    /// The block of the element, where it is one.
    pub fn as_block(&self) -> (r: Option<&Block>)
        ensures
            r matches Some(b) ==> self@ == ElemV::Block(b@),
            r is Some <==> self@ is Block,
    {
        match self {
            TopLevelElement::Block(b) => Some(b),
            _ => None,
        }
    }

    /// The line of the element; the element must be a line.
    pub fn expect_line(self) -> (r: Line)
        requires
            self@ is Line,
        ensures
            self@ == ElemV::Line(r@),
    {
        match self {
            TopLevelElement::Line(l) => l,
            _ => unreached(),
        }
    }

    /// The block of the element; the element must be a block.
    pub fn expect_block(self) -> (r: Block)
        requires
            self@ is Block,
        ensures
            self@ == ElemV::Block(r@),
    {
        match self {
            TopLevelElement::Block(b) => b,
            _ => unreached(),
        }
    }

    /// The text of the element: a block at one level of indentation, a line
    /// or comment at none.
    pub fn to_string(&self) -> (r: String)
        ensures
            r@ == spec_rows_text(spec_flatten_elem(self@, 0)),
    {
        let mut out: Vec<char> = Vec::new();
        let indent: Vec<char> = Vec::new();
        proof {
            assert(indent@ =~= spec_indent(0));
        }
        write_elem(self, &indent, Ghost(0nat), &mut out);
        crate::text::string_from_chars(&out)
    }
}

/// Appends the rows of one element at the given level to `out`.  `indent`
/// holds the spaces of the level.
pub(crate) fn write_elem(
    e: &TopLevelElement,
    indent: &Vec<char>,
    Ghost(level): Ghost<nat>,
    out: &mut Vec<char>,
)
    requires
        indent@ == spec_indent(level),
    ensures
        final(out)@ == old(out)@ + spec_rows_text(spec_flatten_elem(e@, level)),
    decreases e@, 1nat,
{
    match e {
        TopLevelElement::Block(b) => {
            proof {
                lemma_block_view(*b);
            }
            let mut deeper = indent.clone();
            deeper.push(' ');
            deeper.push(' ');
            deeper.push(' ');
            deeper.push(' ');
            proof {
                lemma_indent_push(level);
                assert(deeper@ =~= spec_indent(level + 1));
                assert(e@ == ElemV::Block(spec_elems_view(b.inner@)));
                assert(e@->Block_0 == spec_elems_view(b.inner@));
                assert(decreases_to!(e@ => e@->Block_0));
            }
            write_elems(&b.inner, &deeper, Ghost((level + 1) as nat), out);
        },
        TopLevelElement::Line(l) => {
            crate::text::push_chars(out, indent);
            l.write_into(out);
            out.push('\n');
            proof {
                let row = (level, RowV::Line(l@));
                assert(spec_rows_text_from(seq![row], 1) =~= Seq::<char>::empty());
                assert(spec_rows_text(seq![row]) =~= spec_row_text(level, row.1));
                assert(out@ =~= old(out)@ + spec_rows_text(spec_flatten_elem(e@, level)));
            }
        },
        TopLevelElement::Comment(c) => {
            crate::text::push_chars(out, indent);
            c.write_into(out);
            out.push('\n');
            proof {
                let row = (level, RowV::Comment(c@));
                assert(spec_rows_text_from(seq![row], 1) =~= Seq::<char>::empty());
                assert(spec_rows_text(seq![row]) =~= spec_row_text(level, row.1));
                assert(out@ =~= old(out)@ + spec_rows_text(spec_flatten_elem(e@, level)));
            }
        },
    }
}

/// Adding one level appends four spaces to the indentation.
pub proof fn lemma_indent_push(level: nat)
    ensures
        spec_indent(level + 1) == spec_indent(level) + seq![' ', ' ', ' ', ' '],
    decreases level,
{
    if level == 0 {
        assert(spec_indent(1) =~= spec_indent(0) + seq![' ', ' ', ' ', ' ']);
    } else {
        lemma_indent_push((level - 1) as nat);
        assert(spec_indent(level + 1) =~= spec_indent(level) + seq![' ', ' ', ' ', ' ']);
    }
}

/// Appends the rows of a sequence of elements at the given level to `out`.
pub(crate) fn write_elems(
    elems: &Vec<TopLevelElement>,
    indent: &Vec<char>,
    Ghost(level): Ghost<nat>,
    out: &mut Vec<char>,
)
    requires
        indent@ == spec_indent(level),
    ensures
        final(out)@ == old(out)@ + spec_rows_text(
            spec_flatten_from(spec_elems_view(elems@), 0, level),
        ),
    decreases spec_elems_view(elems@), 0nat,
{
    let ghost ev = spec_elems_view(elems@);
    let n = elems.len();
    let mut i: usize = 0;
    while i < n
        invariant
            i <= n,
            n == elems@.len(),
            ev == spec_elems_view(elems@),
            indent@ == spec_indent(level),
            old(out)@ + spec_rows_text(spec_flatten_from(ev, 0, level)) == out@ + spec_rows_text(
                spec_flatten_from(ev, i as int, level),
            ),
        decreases n - i,
    {
        proof {
            lemma_rows_text_concat(
                spec_flatten_elem(ev[i as int], level),
                spec_flatten_from(ev, i as int + 1, level),
                0,
            );
        }
        write_elem(&elems[i], indent, Ghost(level), out);
        i = i + 1;
    }
    proof {
        assert(spec_rows_text(spec_flatten_from(ev, n as int, level)) =~= Seq::<char>::empty());
        assert(old(out)@ + spec_rows_text(spec_flatten_from(ev, 0, level)) =~= out@);
    }
}

} // verus!
