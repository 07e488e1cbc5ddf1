//! Blocks: an indented, ordered group of elements one nesting level deep.
//! Blocks nest to any depth; entering a block continues from its first
//! line, leaving it continues after the line that opened it.

use crate::script::ParseError;
use crate::script::element::{
    ElemV, TopLevelElement, spec_flatten_from, spec_rows_text, write_elems,
};
use crate::script::parser;
use vstd::prelude::*;

verus! {

/// A block in a script: a sequence of elements one indentation level
/// deeper than the element that opens it.
#[derive(Debug, PartialEq, Eq)]
pub struct Block {
    pub inner: Vec<TopLevelElement>,
}

impl View for Block {
    type V = Seq<ElemV>;

    open spec fn view(&self) -> Seq<ElemV> {
        crate::script::element::spec_block_view(*self)
    }
}

impl Block {
    /// Create a new `Block` from a vector of elements.
    pub fn new(inner: Vec<TopLevelElement>) -> (r: Block)
        ensures
            r@ == crate::script::element::spec_elems_view(inner@),
    {
        let r = Block { inner };
        proof {
            crate::script::element::lemma_block_view(r);
        }
        r
    }

    /// Create a new empty `Block`.
    pub fn empty() -> (r: Block)
        ensures
            r@ == Seq::<ElemV>::empty(),
    {
        let r = Block { inner: Vec::new() };
        proof {
            crate::script::element::lemma_block_view(r);
            assert(r@ =~= Seq::<ElemV>::empty());
        }
        r
    }

    /// The elements of the block, in order.
    pub fn elements(&self) -> (r: &Vec<TopLevelElement>)
        ensures
            self@ == crate::script::element::spec_elems_view(r@),
    {
        proof {
            crate::script::element::lemma_block_view(*self);
        }
        &self.inner
    }

    /// The elements of the block, for iteration.
    pub fn iter(&self) -> (r: &Vec<TopLevelElement>)
        ensures
            self@ == crate::script::element::spec_elems_view(r@),
    {
        self.elements()
    }

    /// The elements of the block, for mutation.
    pub fn iter_mut(&mut self) -> (r: &mut Vec<TopLevelElement>)
        ensures
            *r == old(self).inner,
            final(self).inner == *final(r),
    {
        &mut self.inner
    }

    /// The elements of the block, by value.
    pub fn into_iter(self) -> (r: Vec<TopLevelElement>)
        ensures
            self@ == crate::script::element::spec_elems_view(r@),
    {
        proof {
            crate::script::element::lemma_block_view(self);
        }
        self.inner
    }

    /// Parse a `Block` from a string.
    ///
    /// Every line must be indented at least one level (four spaces);
    /// deeper lines open nested blocks.  Succeeds exactly when the text
    /// ends with a line break (or is empty), every non-blank line is a
    /// well-formed marker, comment or command at a multiple of four
    /// spaces, and no line stands at indentation zero.  Formatting the
    /// block reproduces the text, less its blank lines.
    pub fn parse(block_str: &str) -> (r: Result<Block, ParseError>)
        ensures
            r is Ok <==> parser::spec_rows_ok(block_str@) && parser::spec_rows_min_level(
                parser::spec_rows_of(block_str@),
                1,
            ),
            r matches Ok(b) ==> spec_flatten_from(b@, 0, 1) == parser::spec_rows_of(block_str@),
            r matches Ok(b) ==> spec_rows_text(spec_flatten_from(b@, 0, 1)) == parser::spec_kept_text_of(
                block_str@,
            ),
            r matches Ok(b) ==> (parser::spec_no_blank_lines(block_str@) ==> spec_rows_text(
                spec_flatten_from(b@, 0, 1),
            ) == block_str@),
    {
        let rows = match parser::parse_rows(block_str) {
            Ok(rows) => rows,
            Err(e) => {
                return Err(e);
            },
        };
        match parser::build_all(rows, 1) {
            Ok(elems) => {
                proof {
                    parser::lemma_rows_text_is_kept_text(block_str@);
                }
                Ok(Block::new(elems))
            },
            Err(e) => Err(e),
        }
    }

    /// The text of the block's rows with the given indentation: the
    /// block's own lines at `indent` levels, nested blocks one deeper.
    pub fn fmt_with_indent(&self, indent: usize) -> (r: String)
        ensures
            r@ == spec_rows_text(spec_flatten_from(self@, 0, indent as nat)),
    {
        let mut out: Vec<char> = Vec::new();
        let mut pad: Vec<char> = Vec::new();
        let mut k: usize = 0;
        proof {
            assert(pad@ =~= crate::script::element::spec_indent(0));
        }
        while k < indent
            invariant
                k <= indent,
                pad@ == crate::script::element::spec_indent(k as nat),
            decreases indent - k,
        {
            pad.push(' ');
            pad.push(' ');
            pad.push(' ');
            pad.push(' ');
            k = k + 1;
            proof {
                crate::script::element::lemma_indent_push((k - 1) as nat);
                assert(pad@ =~= crate::script::element::spec_indent(k as nat));
            }
        }
        proof {
            crate::script::element::lemma_block_view(*self);
        }
        write_elems(&self.inner, &pad, Ghost(indent as nat), &mut out);
        crate::text::string_from_chars(&out)
    }

    /// The text of the block at one level of indentation.
    pub fn to_string(&self) -> (r: String)
        ensures
            r@ == spec_rows_text(spec_flatten_from(self@, 0, 1)),
    {
        self.fmt_with_indent(1)
    }
}

} // verus!
