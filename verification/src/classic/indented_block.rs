//! Indented blocks of the classic syntax: a run of lines at least one
//! level deep, where deeper lines become the sub-statements of the speech
//! or choice line above them.

use crate::classic::ClassicError;
use crate::classic::line::{
    ClassicLineV, Line, parse_classic_content, spec_classic_content, spec_classic_subs_view,
};
use crate::script::parser::{spec_is_blank, spec_run_spaces, spec_split_lines, spec_well_newlined};
use crate::text::chars_of;
use vstd::prelude::*;

verus! {

/// An indented block: its lines in order, each possibly carrying
/// sub-statements.
#[derive(Debug, PartialEq, Eq)]
pub struct IndentedBlock(pub Vec<Line>);

impl View for IndentedBlock {
    type V = Seq<ClassicLineV>;

    open spec fn view(&self) -> Seq<ClassicLineV> {
        spec_classic_subs_view(self.0, 0)
    }
}

/// The indentation levels and contents of the non-blank lines from `i`
/// on; `None` where an indentation is not a multiple of four spaces.
pub open spec fn spec_classic_rows_from(ls: Seq<Seq<char>>, i: int) -> Option<
    Seq<(nat, Seq<char>)>,
>
    decreases ls.len() - i,
{
    if i < 0 || i >= ls.len() {
        Some(Seq::<(nat, Seq<char>)>::empty())
    } else if spec_is_blank(ls[i]) {
        spec_classic_rows_from(ls, i + 1)
    } else {
        let k = spec_run_spaces(ls[i], 0);
        if k % 4 != 0 {
            None
        } else {
            match spec_classic_rows_from(ls, i + 1) {
                None => None,
                Some(rest) => Some(
                    seq![(((k / 4) as nat), ls[i].subrange(k, ls[i].len() as int))] + rest,
                ),
            }
        }
    }
}

/// The classic rows of a whole text.
pub open spec fn spec_classic_rows(s: Seq<char>) -> Option<Seq<(nat, Seq<char>)>> {
    if spec_well_newlined(s) {
        spec_classic_rows_from(spec_split_lines(s), 0)
    } else {
        None
    }
}

/// Builds the rows from `i` on into classic lines at `level`: a row at the
/// level becomes a line, deeper rows become its sub-statements (only
/// speech and choice lines may carry them), and the build stops before the
/// first shallower row.  `None` where a row does not classify, a deeper
/// row has no line to attach to, or sub-statements follow a jump or
/// marker.
pub open spec fn spec_cbuild(rows: Seq<(nat, Seq<char>)>, i: int, level: nat) -> Option<
    (Seq<ClassicLineV>, int),
>
    decreases rows.len() - i,
{
    if i < 0 || i >= rows.len() || rows[i].0 < level {
        Some((Seq::<ClassicLineV>::empty(), if i < 0 {
            0
        } else {
            i
        }))
    } else if rows[i].0 > level {
        None
    } else {
        match spec_classic_content(rows[i].1) {
            None => None,
            Some(line) => match spec_cbuild(rows, i + 1, (level + 1) as nat) {
                None => None,
                Some((subs, j0)) => {
                    let j = if j0 <= i {
                        i + 1
                    } else if j0 > rows.len() {
                        rows.len() as int
                    } else {
                        j0
                    };
                    match spec_attach(line, subs) {
                        None => None,
                        Some(full) => match spec_cbuild(rows, j, level) {
                            None => None,
                            Some((rest, k)) => Some((seq![full] + rest, k)),
                        },
                    }
                },
            },
        }
    }
}

/// Attaches sub-statements to a line; only speech and choice lines may
/// carry them.
pub open spec fn spec_attach(line: ClassicLineV, subs: Seq<ClassicLineV>) -> Option<
    ClassicLineV,
> {
    if subs.len() == 0 {
        Some(line)
    } else {
        match line {
            ClassicLineV::Say { subject, text, .. } => Some(
                ClassicLineV::Say { subject, text, subs },
            ),
            ClassicLineV::Choice { text, .. } => Some(ClassicLineV::Choice { text, subs }),
            _ => None,
        }
    }
}

impl IndentedBlock {
    /// Create a new, empty `IndentedBlock`.
    pub fn new() -> (r: IndentedBlock)
        ensures
            r@ == Seq::<ClassicLineV>::empty(),
    {
        let r = IndentedBlock(Vec::new());
        proof {
            assert(r@ =~= Seq::<ClassicLineV>::empty());
        }
        r
    }

    /// Parse an `IndentedBlock`: every line must be indented at least one
    /// level (four spaces), deeper lines become sub-statements.
    pub fn parse(block_str: &str) -> (r: Result<IndentedBlock, ClassicError>)
        ensures
            r is Ok <==> (spec_classic_rows(block_str@) matches Some(rows) && (spec_cbuild(
                rows,
                0,
                1,
            ) matches Some(p) && p.1 == rows.len())),
            r matches Ok(b) ==> b@ == spec_cbuild(
                spec_classic_rows(block_str@)->Some_0,
                0,
                1,
            )->Some_0.0,
    {
        let cs = chars_of(block_str);
        let rows = match classic_rows(&cs) {
            Ok(rows) => rows,
            Err(e) => {
                return Err(e);
            },
        };
        let (lines, end) = match build_lines(&rows, 0, 1) {
            Ok(p) => p,
            Err(e) => {
                return Err(e);
            },
        };
        if end != rows.len() {
            return Err(ClassicError::SubstatementsNotAllowed);
        }
        let r = IndentedBlock(lines);
        proof {
            assert(r@ == spec_classic_subs_view(r.0, 0));
        }
        Ok(r)
    }
}

/// The level-and-content values of classic rows.
pub open spec fn spec_crows_view(v: Seq<(usize, Vec<char>)>) -> Seq<(nat, Seq<char>)> {
    Seq::new(v.len(), |i: int| (v[i].0 as nat, v[i].1@))
}

/// Splits a text into classic rows, per [`spec_classic_rows`].
pub(crate) fn classic_rows(cs: &Vec<char>) -> (r: Result<
    Vec<(usize, Vec<char>)>,
    ClassicError,
>)
    ensures
        r is Ok <==> spec_classic_rows(cs@) is Some,
        r matches Ok(rows) ==> spec_crows_view(rows@) == spec_classic_rows(cs@)->Some_0,
{
    let n = cs.len();
    if n > 0 && cs[n - 1] != '\n' {
        return Err(ClassicError::Invalid);
    }
    let lines = crate::script::parser::split_lines_exec(cs);
    let ghost ls = spec_split_lines(cs@);
    let m = lines.len();
    let mut rows: Vec<(usize, Vec<char>)> = Vec::new();
    let mut i: usize = 0;
    while i < m
        invariant
            0 <= i <= m,
            m == lines@.len(),
            m == ls.len(),
            ls == spec_split_lines(cs@),
            spec_well_newlined(cs@),
            forall|j: int| 0 <= j < m ==> (#[trigger] lines@[j])@ == ls[j],
            spec_classic_rows_from(ls, 0) == (match spec_classic_rows_from(ls, i as int) {
                None => None::<Seq<(nat, Seq<char>)>>,
                Some(rest) => Some(spec_crows_view(rows@) + rest),
            }),
        decreases m - i,
    {
        let line = &lines[i];
        let ln = line.len();
        proof {
            assert(line@ == ls[i as int]);
        }
        let mut k: usize = 0;
        while k < ln && line[k] == ' '
            invariant
                0 <= k <= ln,
                ln == line@.len(),
                forall|q: int| 0 <= q < k ==> line@[q] == ' ',
            decreases ln - k,
        {
            k = k + 1;
        }
        proof {
            crate::script::parser::lemma_run_spaces_from(line@, 0, k as int);
            assert(spec_run_spaces(line@, 0) == k);
        }
        if k == ln {
            proof {
                assert(spec_is_blank(ls[i as int]));
            }
            i = i + 1;
            continue ;
        }
        proof {
            assert(!spec_is_blank(ls[i as int])) by {
                assert(ls[i as int][k as int] != ' ');
            }
        }
        if k % 4 != 0 {
            return Err(ClassicError::Invalid);
        }
        let content = crate::text::chars_range(line, k, ln);
        proof {
            let prev = spec_crows_view(rows@);
            let here = ((k / 4) as nat, content@);
            assert(spec_crows_view(rows@.push((k / 4, content))) =~= prev.push(here));
            if spec_classic_rows_from(ls, i as int + 1) is Some {
                let rest = spec_classic_rows_from(ls, i as int + 1)->Some_0;
                assert(prev + (seq![here] + rest) =~= prev.push(here) + rest);
            }
        }
        rows.push((k / 4, content));
        i = i + 1;
    }
    proof {
        assert(spec_classic_rows_from(ls, m as int) == Some(Seq::<(nat, Seq<char>)>::empty()));
        assert(spec_crows_view(rows@) + Seq::<(nat, Seq<char>)>::empty() =~= spec_crows_view(
            rows@,
        ));
    }
    Ok(rows)
}

/// Builds classic rows into lines, per [`spec_cbuild`].
pub(crate) fn build_lines(rows: &Vec<(usize, Vec<char>)>, start: usize, level: usize) -> (r:
    Result<(Vec<Line>, usize), ClassicError>)
    requires
        start <= rows@.len(),
    ensures
        r is Ok <==> spec_cbuild(spec_crows_view(rows@), start as int, level as nat) is Some,
        r matches Ok(p) ==> {
            &&& start <= p.1 <= rows@.len()
            &&& Some((spec_classic_subs_view(p.0, 0), p.1 as int)) == spec_cbuild(
                spec_crows_view(rows@),
                start as int,
                level as nat,
            )
        },
    decreases rows@.len() - start, 0nat,
{
    let ghost rv = spec_crows_view(rows@);
    let n = rows.len();
    if start >= n || rows[start].0 < level {
        let empty: Vec<Line> = Vec::new();
        proof {
            assert(spec_classic_subs_view(empty, 0) =~= Seq::<ClassicLineV>::empty());
            if start < n {
                let s0 = start as int;
                assert(rv[s0] == (rows@[s0].0 as nat, rows@[s0].1@));
            }
        }
        return Ok((empty, start));
    }
    proof {
        assert(rv[start as int] == (rows@[start as int].0 as nat, rows@[start as int].1@));
    }
    if rows[start].0 > level {
        return Err(ClassicError::SubstatementsNotAllowed);
    }
    let line = match parse_classic_content(&rows[start].1) {
        Ok(l) => l,
        Err(e) => {
            proof {
                assert(rows@[start as int].1@ == rv[start as int].1);
            }
            return Err(e);
        },
    };
    proof {
        assert(rows@[start as int].1@ == rv[start as int].1);
    }
    let ghost line0v = line@;
    let deeper = start + 1 < n && rows[start + 1].0 > level;
    proof {
        if start as int + 1 < n {
            let s1 = start as int + 1;
            assert(rv[s1] == (rows@[s1].0 as nat, rows@[s1].1@));
        }
    }
    let (subs, j) = if deeper {
        match build_lines(rows, start + 1, level + 1) {
            Ok(p) => p,
            Err(e) => {
                return Err(e);
            },
        }
    } else {
        (Vec::new(), start + 1)
    };
    proof {
        if !deeper {
            assert(spec_classic_subs_view(subs, 0) =~= Seq::<ClassicLineV>::empty());
            assert(spec_cbuild(rv, start as int + 1, (level + 1) as nat) == Some((
                Seq::<ClassicLineV>::empty(),
                start as int + 1,
            )));
        }
        assert(j > start);
    }
    let ghost subsv = crate::classic::line::spec_classic_subs_view(subs, 0);
    let has_subs = subs.len() > 0;
    proof {
        if !has_subs {
            assert(subsv =~= Seq::<ClassicLineV>::empty());
        }
    }
    let line = if has_subs {
        match line {
            Line::Say(s) => Line::Say(
                crate::classic::say::Say {
                    subject: s.subject,
                    text: s.text,
                    sub_statements: subs,
                },
            ),
            Line::Choice(c) => Line::Choice(
                crate::classic::choice::Choice { text: c.text, sub_statements: subs },
            ),
            _ => {
                proof {
                    assert(spec_attach(line0v, subsv) is None);
                }
                return Err(ClassicError::SubstatementsNotAllowed);
            },
        }
    } else {
        line
    };
    proof {
        assert(line@ == spec_attach(line0v, subsv)->Some_0);
    }
    let ghost linev = line@;
    let (mut rest, end) = match build_lines(rows, j, level) {
        Ok(p) => p,
        Err(e) => {
            return Err(e);
        },
    };
    let ghost restv = crate::classic::line::spec_classic_subs_view(rest, 0);
    let ghost rest_snap = rest@;
    proof {
        crate::classic::line::lemma_classic_subs_view(rest, 0);
    }
    let mut out: Vec<Line> = Vec::new();
    out.push(line);
    out.append(&mut rest);
    proof {
        assert(out@ =~= seq![line] + rest_snap);
        crate::classic::line::lemma_classic_subs_view(out, 0);
        assert(crate::classic::line::spec_lines_views(out@) =~= seq![linev]
            + crate::classic::line::spec_lines_views(rest_snap)) by {
            assert forall|q: int|
                0 <= q < out@.len() implies crate::classic::line::spec_lines_views(out@)[q] == (
            seq![linev] + crate::classic::line::spec_lines_views(rest_snap))[q] by {
                if q > 0 {
                    assert(out@[q] == rest_snap[q - 1]);
                }
            }
        }
        assert(crate::classic::line::spec_classic_subs_view(out, 0) =~= seq![linev] + restv) by {
            assert(crate::classic::line::spec_lines_views(out@).subrange(
                0,
                out@.len() as int,
            ) =~= crate::classic::line::spec_lines_views(out@));
            assert(crate::classic::line::spec_lines_views(rest_snap).subrange(
                0,
                rest_snap.len() as int,
            ) =~= crate::classic::line::spec_lines_views(rest_snap));
        }
    }
    Ok((out, end))
}

} // verus!
