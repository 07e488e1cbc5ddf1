//! The structural parser: splits text into lines, classifies each line as
//! a marker, command or comment at an indentation level, and folds the
//! levels into nested blocks.
//!
//! Parsing is exact: formatting the parsed document reproduces the text,
//! less its blank lines, which are discarded.

use crate::script::ParseError;
use crate::script::comment::Comment;
use crate::script::element::{
    RowV, TopLevelElement, spec_elems_view, spec_flatten_elem, spec_flatten_from, spec_indent,
    spec_row_content, spec_row_text, spec_rows_text, spec_rows_text_from, lemma_flatten_push,
    lemma_indent_spaces, lemma_rows_text_concat,
};
use crate::script::line::{Line, spec_classify_line, parse_line_content, lemma_line_round_trip};
use crate::text::{chars_of, chars_range, spec_find, find_char, lemma_find_props, string_range};
use vstd::prelude::*;

verus! {

/// One classified row of a script: a line or a comment.  Blocks arise only
/// from indentation, afterwards.
#[derive(Debug, PartialEq, Eq)]
pub enum Row {
    Line(Line),
    Comment(Comment),
}

impl View for Row {
    type V = RowV;

    open spec fn view(&self) -> RowV {
        match self {
            Row::Line(l) => RowV::Line(l@),
            Row::Comment(c) => RowV::Comment(c@),
        }
    }
}

/// The values of a vector of rows with their levels.
pub open spec fn spec_rows_view(v: Seq<(usize, Row)>) -> Seq<(nat, RowV)> {
    Seq::new(v.len(), |i: int| (v[i].0 as nat, v[i].1@))
}

/// Whether `s` is empty or ends with a line break.
pub open spec fn spec_well_newlined(s: Seq<char>) -> bool {
    s.len() == 0 || s[s.len() - 1] == '\n'
}

/// The lines of `s`, split at line breaks, without the breaks.
pub open spec fn spec_split_lines(s: Seq<char>) -> Seq<Seq<char>>
    decreases s.len(),
{
    if s.len() == 0 {
        Seq::<Seq<char>>::empty()
    } else {
        let e = spec_find(s, '\n', 0);
        if e < 0 || e >= s.len() {
            seq![s]
        } else {
            seq![s.subrange(0, e)] + spec_split_lines(s.subrange(e + 1, s.len() as int))
        }
    }
}

/// Whether a line is blank: nothing but spaces.
pub open spec fn spec_is_blank(l: Seq<char>) -> bool {
    forall|i: int| 0 <= i < l.len() ==> l[i] == ' '
}

/// Whether `s` has no blank lines at all.
pub open spec fn spec_no_blank_lines(s: Seq<char>) -> bool {
    forall|i: int|
        0 <= i < spec_split_lines(s).len() ==> !spec_is_blank(#[trigger] spec_split_lines(s)[i])
}

/// The length of the run of spaces at the start of `l` from `i`.
pub open spec fn spec_run_spaces(l: Seq<char>, i: int) -> int
    decreases l.len() - i,
{
    if i < 0 || i >= l.len() {
        l.len() as int
    } else if l[i] != ' ' {
        i
    } else {
        spec_run_spaces(l, i + 1)
    }
}

/// What `spec_run_spaces` returns: the first non-space, within bounds.
pub proof fn lemma_run_spaces_props(l: Seq<char>, i: int)
    requires
        0 <= i <= l.len(),
    ensures
        i <= spec_run_spaces(l, i) <= l.len(),
        spec_run_spaces(l, i) < l.len() ==> l[spec_run_spaces(l, i)] != ' ',
        forall|j: int| i <= j < spec_run_spaces(l, i) ==> l[j] == ' ',
    decreases l.len() - i,
{
    if i < l.len() && l[i] == ' ' {
        lemma_run_spaces_props(l, i + 1);
    }
}

/// `spec_run_spaces` gives the same answer from any start inside the run.
pub proof fn lemma_run_spaces_from(l: Seq<char>, i: int, mid: int)
    requires
        0 <= i <= mid <= l.len(),
        forall|j: int| i <= j < mid ==> l[j] == ' ',
    ensures
        spec_run_spaces(l, i) == spec_run_spaces(l, mid),
    decreases mid - i,
{
    if i < mid {
        lemma_run_spaces_from(l, i + 1, mid);
    }
}

/// Classifies the content of a non-blank line after its indentation: a
/// comment where it opens with `// `, else a marker or command.
pub open spec fn spec_classify_row(content: Seq<char>) -> Option<RowV> {
    if content.len() >= 3 && content[0] == '/' && content[1] == '/' && content[2] == ' ' {
        Some(RowV::Comment(content.subrange(3, content.len() as int)))
    } else {
        match spec_classify_line(content) {
            Some(l) => Some(RowV::Line(l)),
            None => None,
        }
    }
}

/// Classifies one whole non-blank line: its indentation must be a multiple
/// of four spaces, and its content a marker, comment or command.
pub open spec fn spec_classify_full_line(l: Seq<char>) -> Option<(nat, RowV)> {
    let k = spec_run_spaces(l, 0);
    if k == l.len() || k % 4 != 0 {
        None
    } else {
        match spec_classify_row(l.subrange(k, l.len() as int)) {
            Some(r) => Some((((k / 4) as nat), r)),
            None => None,
        }
    }
}

/// Classifies the lines from `i` on, skipping blank ones; `None` where any
/// non-blank line fails to classify.
pub open spec fn spec_classify_from(ls: Seq<Seq<char>>, i: int) -> Option<Seq<(nat, RowV)>>
    decreases ls.len() - i,
{
    if i < 0 || i >= ls.len() {
        Some(Seq::<(nat, RowV)>::empty())
    } else if spec_is_blank(ls[i]) {
        spec_classify_from(ls, i + 1)
    } else {
        match spec_classify_full_line(ls[i]) {
            None => None,
            Some(row) => match spec_classify_from(ls, i + 1) {
                None => None,
                Some(rest) => Some(seq![row] + rest),
            },
        }
    }
}

/// The text of the non-blank lines from `i` on, each with its line break.
pub open spec fn spec_kept_text_from(ls: Seq<Seq<char>>, i: int) -> Seq<char>
    decreases ls.len() - i,
{
    if i < 0 || i >= ls.len() {
        Seq::<char>::empty()
    } else if spec_is_blank(ls[i]) {
        spec_kept_text_from(ls, i + 1)
    } else {
        ls[i] + seq!['\n'] + spec_kept_text_from(ls, i + 1)
    }
}

/// Whether `s` splits into well-formed rows: it ends with a line break and
/// every non-blank line classifies.
pub open spec fn spec_rows_ok(s: Seq<char>) -> bool {
    spec_well_newlined(s) && spec_classify_from(spec_split_lines(s), 0) is Some
}

/// The classified rows of `s`.
pub open spec fn spec_rows_of(s: Seq<char>) -> Seq<(nat, RowV)> {
    spec_classify_from(spec_split_lines(s), 0)->Some_0
}

/// The text of `s` less its blank lines.
pub open spec fn spec_kept_text_of(s: Seq<char>) -> Seq<char> {
    spec_kept_text_from(spec_split_lines(s), 0)
}

/// Whether line `e` is the first of `s` that fails to classify: it is in
/// range, not blank, does not classify, and every line before it is blank
/// or classifies.
pub open spec fn spec_first_bad_line(s: Seq<char>, e: int) -> bool {
    let ls = spec_split_lines(s);
    &&& 0 <= e < ls.len()
    &&& !spec_is_blank(ls[e])
    &&& spec_classify_full_line(ls[e]) is None
    &&& forall|j: int|
        0 <= j < e ==> (spec_is_blank(#[trigger] ls[j]) || spec_classify_full_line(
            ls[j],
        ) is Some)
}

/// Whether every row stands at `min` levels of indentation or more.
pub open spec fn spec_rows_min_level(rows: Seq<(nat, RowV)>, min: nat) -> bool {
    forall|i: int| 0 <= i < rows.len() ==> (#[trigger] rows[i]).0 >= min
}

/// A classified line's row text reproduces the line.
proof fn lemma_full_line_round_trip(l: Seq<char>)
    requires
        spec_classify_full_line(l) is Some,
    ensures
        spec_row_text(
            spec_classify_full_line(l)->Some_0.0,
            spec_classify_full_line(l)->Some_0.1,
        ) == l + seq!['\n'],
{
    let k = spec_run_spaces(l, 0);
    lemma_run_spaces_props(l, 0);
    let (lv, row) = spec_classify_full_line(l)->Some_0;
    lemma_indent_spaces(lv);
    let content = l.subrange(k, l.len() as int);
    assert(spec_row_content(row) == content) by {
        if content.len() >= 3 && content[0] == '/' && content[1] == '/' && content[2] == ' ' {
            assert(spec_row_content(row) =~= content);
        } else {
            lemma_line_round_trip(content);
        }
    }
    assert(spec_indent(lv) =~= l.subrange(0, k));
    assert(spec_row_text(lv, row) =~= l + seq!['\n']);
}

/// The rows of a classified text, written out, give the text of its
/// non-blank lines.
proof fn lemma_classified_text(ls: Seq<Seq<char>>, i: int)
    requires
        0 <= i <= ls.len(),
        spec_classify_from(ls, i) is Some,
    ensures
        spec_rows_text(spec_classify_from(ls, i)->Some_0) == spec_kept_text_from(ls, i),
    decreases ls.len() - i,
{
    if i == ls.len() {
        assert(spec_rows_text(Seq::<(nat, RowV)>::empty()) =~= Seq::<char>::empty());
    } else if spec_is_blank(ls[i]) {
        lemma_classified_text(ls, i + 1);
    } else {
        let row = spec_classify_full_line(ls[i])->Some_0;
        let rest = spec_classify_from(ls, i + 1)->Some_0;
        lemma_classified_text(ls, i + 1);
        lemma_rows_text_concat(seq![row], rest, 0);
        lemma_full_line_round_trip(ls[i]);
        assert(spec_rows_text_from(seq![row], 1) =~= Seq::<char>::empty());
        assert(spec_rows_text(seq![row]) =~= spec_row_text(row.0, row.1));
        assert(spec_rows_text(seq![row] + rest) =~= ls[i] + seq!['\n'] + spec_kept_text_from(
            ls,
            i + 1,
        ));
    }
}

/// Without blank lines, the kept text is the whole text.
proof fn lemma_kept_text_whole(s: Seq<char>)
    requires
        spec_well_newlined(s),
        forall|i: int|
            0 <= i < spec_split_lines(s).len() ==> !spec_is_blank(
                #[trigger] spec_split_lines(s)[i],
            ),
    ensures
        spec_kept_text_from(spec_split_lines(s), 0) == s,
    decreases s.len(),
{
    if s.len() == 0 {
    } else {
        let e = spec_find(s, '\n', 0);
        lemma_find_props(s, '\n', 0);
        assert(e < s.len());
        let first = s.subrange(0, e);
        let rest = s.subrange(e + 1, s.len() as int);
        let ls = spec_split_lines(s);
        let rls = spec_split_lines(rest);
        assert(ls == seq![first] + rls);
        assert(spec_well_newlined(rest));
        assert(forall|i: int| 0 <= i < rls.len() ==> (seq![first] + rls)[i + 1] == #[trigger] rls[i]);
        lemma_kept_text_whole(rest);
        assert(!spec_is_blank(ls[0]));
        assert(spec_kept_text_from(ls, 0) == first + seq!['\n'] + spec_kept_text_from(ls, 1));
        lemma_kept_text_shift(seq![first], rls, 0);
        assert(spec_kept_text_from(ls, 1) == spec_kept_text_from(rls, 0));
        assert(spec_kept_text_from(ls, 0) =~= s);
    }
}

/// Kept text of a concatenation, read from inside the second part.
proof fn lemma_kept_text_shift(a: Seq<Seq<char>>, b: Seq<Seq<char>>, j: int)
    requires
        0 <= j <= b.len(),
    ensures
        spec_kept_text_from(a + b, a.len() + j) == spec_kept_text_from(b, j),
    decreases b.len() - j,
{
    if j < b.len() {
        assert((a + b)[a.len() + j] == b[j]);
        lemma_kept_text_shift(a, b, j + 1);
    }
}

/// The rows of a well-formed text, written out, give the text less its
/// blank lines; without blank lines, the text itself.
pub proof fn lemma_rows_text_is_kept_text(s: Seq<char>)
    requires
        spec_rows_ok(s),
    ensures
        spec_rows_text(spec_rows_of(s)) == spec_kept_text_of(s),
        spec_no_blank_lines(s) ==> spec_kept_text_of(s) == s,
{
    lemma_classified_text(spec_split_lines(s), 0);
    if spec_no_blank_lines(s) {
        lemma_kept_text_whole(s);
    }
}

/// Whether a line is blank.
fn is_blank_line(l: &Vec<char>) -> (r: bool)
    ensures
        r == spec_is_blank(l@),
{
    let n = l.len();
    let mut i: usize = 0;
    while i < n
        invariant
            i <= n,
            n == l@.len(),
            forall|j: int| 0 <= j < i ==> l@[j] == ' ',
        decreases n - i,
    {
        if l[i] != ' ' {
            return false;
        }
        i = i + 1;
    }
    true
}

/// Classifies one non-blank line, per [`spec_classify_full_line`].
fn classify_full_line(l: &Vec<char>) -> (r: Result<(usize, Row), ParseError>)
    requires
        !spec_is_blank(l@),
    ensures
        r is Ok <==> spec_classify_full_line(l@) is Some,
        r matches Ok((lv, row)) ==> spec_classify_full_line(l@) == Some((lv as nat, row@)),
{
    let n = l.len();
    let mut k: usize = 0;
    while k < n && l[k] == ' '
        invariant
            k <= n,
            n == l@.len(),
            forall|j: int| 0 <= j < k ==> l@[j] == ' ',
        decreases n - k,
    {
        k = k + 1;
    }
    proof {
        lemma_run_spaces_from(l@, 0, k as int);
        assert(k < n) by {
            if k == n {
                assert(spec_is_blank(l@));
            }
        }
        assert(spec_run_spaces(l@, k as int) == k);
        assert(spec_run_spaces(l@, 0) == k);
    }
    if k % 4 != 0 {
        return Err(ParseError { line: 0 });
    }
    let level = k / 4;
    let content = chars_range(l, k, n);
    let m = content.len();
    if m >= 3 && content[0] == '/' && content[1] == '/' && content[2] == ' ' {
        let text = string_range(&content, 3, m);
        let row = Row::Comment(Comment::new(text.as_str()));
        return Ok((level, row));
    }
    match parse_line_content(&content) {
        Ok(line) => Ok((level, Row::Line(line))),
        Err(_) => Err(ParseError { line: 0 }),
    }
}

/// Splits `cs` into its lines; `cs` must end with a line break or be
/// empty.
pub(crate) fn split_lines_exec(cs: &Vec<char>) -> (r: Vec<Vec<char>>)
    requires
        spec_well_newlined(cs@),
    ensures
        r@.len() == spec_split_lines(cs@).len(),
        forall|i: int| 0 <= i < r@.len() ==> (#[trigger] r@[i])@ == spec_split_lines(cs@)[i],
{
    let ghost ls = spec_split_lines(cs@);
    let n = cs.len();
    let mut lines: Vec<Vec<char>> = Vec::new();
    let mut pos: usize = 0;
    proof {
        assert(cs@.subrange(0, n as int) =~= cs@);
        assert(Seq::new(lines@.len(), |i: int| lines@[i]@) =~= Seq::<Seq<char>>::empty());
    }
    while pos < n
        invariant
            0 <= pos <= n,
            n == cs@.len(),
            spec_well_newlined(cs@),
            ls == spec_split_lines(cs@),
            ls =~= Seq::new(lines@.len(), |i: int| lines@[i]@) + spec_split_lines(
                cs@.subrange(pos as int, n as int),
            ),
        decreases n - pos,
    {
        let e = find_char(cs, '\n', pos);
        proof {
            lemma_find_props(cs@, '\n', pos as int);
            crate::text::lemma_find_subrange(cs@, '\n', pos as int);
            assert(e < n) by {
                if e == n {
                    assert(cs@[n - 1] == '\n');
                }
            }
        }
        let first = chars_range(cs, pos, e);
        proof {
            let suffix = cs@.subrange(pos as int, n as int);
            let e2 = spec_find(suffix, '\n', 0);
            assert(e2 == e - pos);
            assert(e2 < suffix.len());
            assert(suffix.subrange(0, e2) =~= cs@.subrange(pos as int, e as int));
            assert(suffix.subrange(e2 + 1, suffix.len() as int) =~= cs@.subrange(
                e as int + 1,
                n as int,
            ));
            assert(spec_split_lines(suffix) == seq![cs@.subrange(pos as int, e as int)]
                + spec_split_lines(cs@.subrange(e as int + 1, n as int)));
        }
        lines.push(first);
        pos = e + 1;
        proof {
            assert(ls =~= Seq::new(lines@.len(), |i: int| lines@[i]@) + spec_split_lines(
                cs@.subrange(pos as int, n as int),
            ));
        }
    }
    proof {
        assert(spec_split_lines(cs@.subrange(n as int, n as int)) =~= Seq::<Seq<char>>::empty());
        assert(ls =~= Seq::new(lines@.len(), |i: int| lines@[i]@));
    }
    lines
}

/// `None` poisons a concatenation of classified rows.
pub open spec fn spec_combine(v: Seq<(nat, RowV)>, o: Option<Seq<(nat, RowV)>>) -> Option<
    Seq<(nat, RowV)>,
> {
    match o {
        None => None,
        Some(t) => Some(v + t),
    }
}

/// Splits and classifies a whole text into rows, per [`spec_rows_ok`] and
/// [`spec_rows_of`].
pub(crate) fn parse_rows(s: &str) -> (r: Result<Vec<(usize, Row)>, ParseError>)
    ensures
        r is Ok <==> spec_rows_ok(s@),
        r matches Ok(rows) ==> spec_rows_view(rows@) == spec_rows_of(s@),
        r matches Err(e) ==> (spec_well_newlined(s@) ==> spec_first_bad_line(s@, e.line as int)),
{
    let cs = chars_of(s);
    let n = cs.len();
    if n > 0 && cs[n - 1] != '\n' {
        return Err(ParseError { line: 0 });
    }
    let lines = split_lines_exec(&cs);
    let ghost ls = spec_split_lines(cs@);
    let m = lines.len();
    let mut rows: Vec<(usize, Row)> = Vec::new();
    let mut i: usize = 0;
    while i < m
        invariant
            0 <= i <= m,
            m == lines@.len(),
            m == ls.len(),
            cs@ == s@,
            spec_well_newlined(s@),
            ls == spec_split_lines(s@),
            forall|j: int| 0 <= j < m ==> (#[trigger] lines@[j])@ == ls[j],
            forall|j: int|
                0 <= j < i ==> (spec_is_blank(#[trigger] ls[j]) || spec_classify_full_line(
                    ls[j],
                ) is Some),
            spec_classify_from(ls, 0) == spec_combine(
                spec_rows_view(rows@),
                spec_classify_from(ls, i as int),
            ),
        decreases m - i,
    {
        if is_blank_line(&lines[i]) {
            i = i + 1;
            continue ;
        }
        match classify_full_line(&lines[i]) {
            Err(_) => {
                proof {
                    assert(spec_classify_from(ls, i as int) is None);
                }
                return Err(ParseError { line: i });
            },
            Ok((lv, row)) => {
                proof {
                    let v = spec_rows_view(rows@);
                    let here = (lv as nat, row@);
                    assert(spec_rows_view(rows@.push((lv, row))) =~= v.push(here));
                    if spec_classify_from(ls, i as int + 1) is Some {
                        let rest = spec_classify_from(ls, i as int + 1)->Some_0;
                        assert(v + (seq![here] + rest) =~= v.push(here) + rest);
                    }
                }
                rows.push((lv, row));
                i = i + 1;
            },
        }
    }
    proof {
        assert(spec_classify_from(ls, m as int) == Some(Seq::<(nat, RowV)>::empty()));
        assert(spec_rows_view(rows@) + Seq::<(nat, RowV)>::empty() =~= spec_rows_view(rows@));
    }
    Ok(rows)
}

/// Folds classified rows into elements: rows at `level` become lines and
/// comments, deeper runs become nested blocks.  Stops before the first row
/// shallower than `level`.
pub(crate) fn build_seq(rows: &Vec<(usize, Row)>, start: usize, level: usize) -> (r: (
    Vec<TopLevelElement>,
    usize,
))
    requires
        start <= rows@.len(),
    ensures
        start <= r.1 <= rows@.len(),
        spec_flatten_from(spec_elems_view(r.0@), 0, level as nat) == spec_rows_view(
            rows@,
        ).subrange(start as int, r.1 as int),
        r.1 < rows@.len() ==> rows@[r.1 as int].0 < level,
        r.1 == start ==> (start == rows@.len() || rows@[start as int].0 < level),
    decreases rows@.len() - start, (if start < rows@.len() {
        rows@[start as int].0 as int - level
    } else {
        0int
    }),
{
    let ghost rv = spec_rows_view(rows@);
    let n = rows.len();
    let mut out: Vec<TopLevelElement> = Vec::new();
    let mut i: usize = start;
    proof {
        assert(spec_flatten_from(spec_elems_view(out@), 0, level as nat) =~= rv.subrange(
            start as int,
            start as int,
        ));
    }
    while i < n && rows[i].0 >= level
        invariant
            start <= i <= n,
            n == rows@.len(),
            rv == spec_rows_view(rows@),
            spec_flatten_from(spec_elems_view(out@), 0, level as nat) == rv.subrange(
                start as int,
                i as int,
            ),
            i > start ==> (start < rows@.len() && rows@[start as int].0 >= level),
        decreases n - i,
    {
        let ghost out0 = spec_elems_view(out@);
        if rows[i].0 == level {
            let elem = match &rows[i].1 {
                Row::Line(l) => TopLevelElement::Line(l.clone()),
                Row::Comment(c) => TopLevelElement::Comment(c.clone()),
            };
            proof {
                assert(elem@ == row_elem_view(rv[i as int].1));
                lemma_flatten_push(out0, elem@, 0, level as nat);
                assert(spec_elems_view(out@.push(elem)) =~= out0.push(elem@));
                assert(spec_flatten_elem(elem@, level as nat) =~= seq![rv[i as int]]);
                assert(rv.subrange(start as int, i as int) + seq![rv[i as int]] =~= rv.subrange(
                    start as int,
                    i as int + 1,
                ));
            }
            out.push(elem);
            i = i + 1;
        } else {
            let (blk, j) = build_seq(rows, i, level + 1);
            proof {
                assert(j > i) by {
                    if j == i {
                        assert(rows@[i as int].0 < level + 1);
                    }
                }
            }
            let b = crate::script::block::Block::new(blk);
            let elem = TopLevelElement::Block(b);
            proof {
                lemma_flatten_push(out0, elem@, 0, level as nat);
                assert(spec_elems_view(out@.push(elem)) =~= out0.push(elem@));
                assert(spec_flatten_elem(elem@, level as nat) == rv.subrange(i as int, j as int));
                assert(rv.subrange(start as int, i as int) + rv.subrange(i as int, j as int)
                    =~= rv.subrange(start as int, j as int));
            }
            out.push(elem);
            i = j;
        }
    }
    (out, i)
}

/// The element a single row becomes.
pub open spec fn row_elem_view(r: RowV) -> crate::script::element::ElemV {
    match r {
        RowV::Line(l) => crate::script::element::ElemV::Line(l),
        RowV::Comment(t) => crate::script::element::ElemV::Comment(t),
    }
}

/// Folds all rows into elements at base level `min`; fails where a row
/// stands shallower than `min`.
pub(crate) fn build_all(rows: Vec<(usize, Row)>, min: usize) -> (r: Result<
    Vec<TopLevelElement>,
    ParseError,
>)
    ensures
        r is Ok <==> spec_rows_min_level(spec_rows_view(rows@), min as nat),
        r matches Ok(elems) ==> spec_flatten_from(spec_elems_view(elems@), 0, min as nat)
            == spec_rows_view(rows@),
{
    let ghost rv = spec_rows_view(rows@);
    let n = rows.len();
    let mut i: usize = 0;
    while i < n
        invariant
            0 <= i <= n,
            n == rows@.len(),
            rv == spec_rows_view(rows@),
            forall|j: int| 0 <= j < i ==> (#[trigger] rv[j]).0 >= min,
        decreases n - i,
    {
        if rows[i].0 < min {
            proof {
                assert(rv[i as int].0 < min as nat);
            }
            return Err(ParseError { line: 0 });
        }
        i = i + 1;
    }
    let (elems, end) = build_seq(&rows, 0, min);
    proof {
        assert(end == n) by {
            if end < n {
                assert(rv[end as int].0 < min);
            }
        }
        assert(rv.subrange(0, n as int) =~= rv);
    }
    Ok(elems)
}

} // verus!
