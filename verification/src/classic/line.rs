//! Lines of the classic syntax: a speech, choice or jump command, or a
//! marker.  Speech and choice lines may carry sub-statements from an
//! indented block beneath them.

use crate::classic::ClassicError;
use crate::classic::choice::Choice;
use crate::classic::goto::Goto;
use crate::classic::say::Say;
use crate::script::marker::Marker;
use crate::text::{chars_of, spec_begins};
use vstd::prelude::*;
use vstd::pervasive::unreached;

verus! {

/// The mathematical value of a classic [`Line`].
pub ghost enum ClassicLineV {
    Say { subject: Option<Seq<char>>, text: Seq<char>, subs: Seq<ClassicLineV> },
    Choice { text: Seq<char>, subs: Seq<ClassicLineV> },
    Goto(Seq<char>),
    Marker(Seq<char>),
}

/// A line of the classic syntax.
#[derive(Debug, PartialEq, Eq)]
pub enum Line {
    /// A speech line.
    Say(Say),
    /// A choice line.
    Choice(Choice),
    /// A jump line.
    Goto(Goto),
    /// A marker line.
    Marker(Marker),
}

/// The value of a classic line; sub-statements recurse.
pub open spec fn spec_classic_line_view(l: Line) -> ClassicLineV
    decreases l, 1nat,
{
    match l {
        Line::Say(s) => ClassicLineV::Say {
            subject: match s.subject {
                Some(ref p) => Some(p@),
                None => None,
            },
            text: s.text@,
            subs: spec_classic_subs_view(s.sub_statements, 0),
        },
        Line::Choice(c) => ClassicLineV::Choice {
            text: c.text@,
            subs: spec_classic_subs_view(c.sub_statements, 0),
        },
        Line::Goto(g) => ClassicLineV::Goto(g.marker@),
        Line::Marker(m) => ClassicLineV::Marker(m@),
    }
}

/// The values of the lines of `v` from index `i` on.
pub open spec fn spec_classic_subs_view(v: Vec<Line>, i: int) -> Seq<ClassicLineV>
    decreases v, v@.len() - i, 0nat,
{
    if i < 0 || i >= v@.len() {
        Seq::<ClassicLineV>::empty()
    } else {
        seq![spec_classic_line_view(v[i])] + spec_classic_subs_view(v, i + 1)
    }
}

impl View for Line {
    type V = ClassicLineV;

    open spec fn view(&self) -> ClassicLineV {
        spec_classic_line_view(*self)
    }
}

/// The values of a sequence of classic lines, in order.
pub open spec fn spec_lines_views(v: Seq<Line>) -> Seq<ClassicLineV> {
    Seq::new(v.len(), |i: int| spec_classic_line_view(v[i]))
}

/// The vector view is the sequence view.
pub proof fn lemma_classic_subs_view(v: Vec<Line>, i: int)
    requires
        0 <= i <= v@.len(),
    ensures
        spec_classic_subs_view(v, i) == spec_lines_views(v@).subrange(i, v@.len() as int),
    decreases v@.len() - i,
{
    if i == v@.len() {
        assert(spec_classic_subs_view(v, i) =~= spec_lines_views(v@).subrange(
            i,
            v@.len() as int,
        ));
    } else {
        lemma_classic_subs_view(v, i + 1);
        assert(spec_classic_subs_view(v, i) =~= spec_lines_views(v@).subrange(
            i,
            v@.len() as int,
        ));
    }
}

/// Whether `c` may appear in a classic marker name: uppercase letters,
/// digits and hyphens.
pub open spec fn is_classic_marker_char(c: char) -> bool {
    ('A' <= c && c <= 'Z') || ('0' <= c && c <= '9') || c == '-'
}

/// Whether `s` is a whole classic marker: `%NAME%` with a non-empty name
/// of uppercase letters, digits and hyphens.
pub open spec fn spec_classic_marker(s: Seq<char>) -> bool {
    &&& s.len() >= 3
    &&& s[0] == '%'
    &&& s[s.len() - 1] == '%'
    &&& forall|i: int| 1 <= i < s.len() - 1 ==> is_classic_marker_char(#[trigger] s[i])
}

/// The first position in `s` at or after `i` where ` SAY ` occurs, or the
/// length.
pub open spec fn spec_find_say(s: Seq<char>, i: int) -> int
    decreases s.len() - i,
{
    if i < 0 || i > s.len() - 5 {
        s.len() as int
    } else if spec_begins(s, " SAY "@, i) {
        i
    } else {
        spec_find_say(s, i + 1)
    }
}

/// Classifies one line's content (no line break, no indentation):
/// a marker, a subjectless speech, a choice, a jump, or a speech with a
/// subject (the text before the first ` SAY `), in that order of
/// precedence.  The resulting value carries no sub-statements.
pub open spec fn spec_classic_content(s: Seq<char>) -> Option<ClassicLineV> {
    if spec_classic_marker(s) {
        Some(ClassicLineV::Marker(s.subrange(1, s.len() - 1)))
    } else if spec_begins(s, "SAY "@, 0) && s.len() > 4 {
        Some(
            ClassicLineV::Say {
                subject: None,
                text: s.subrange(4, s.len() as int),
                subs: Seq::<ClassicLineV>::empty(),
            },
        )
    } else if spec_begins(s, "CHOICE "@, 0) && s.len() > 7 {
        Some(
            ClassicLineV::Choice {
                text: s.subrange(7, s.len() as int),
                subs: Seq::<ClassicLineV>::empty(),
            },
        )
    } else if spec_begins(s, "GOTO "@, 0) && spec_classic_marker(
        s.subrange(5, s.len() as int),
    ) {
        Some(ClassicLineV::Goto(s.subrange(6, s.len() - 1)))
    } else if 1 <= spec_find_say(s, 0) && spec_find_say(s, 0) + 5 < s.len() {
        Some(
            ClassicLineV::Say {
                subject: Some(s.subrange(0, spec_find_say(s, 0))),
                text: s.subrange(spec_find_say(s, 0) + 5, s.len() as int),
                subs: Seq::<ClassicLineV>::empty(),
            },
        )
    } else {
        None
    }
}

/// Classifies one line of classic content, per [`spec_classic_content`].
/// The line must hold no line break.
pub(crate) fn parse_classic_content(cs: &Vec<char>) -> (r: Result<Line, ClassicError>)
    ensures
        r is Ok <==> spec_classic_content(cs@) is Some,
        r matches Ok(l) ==> l@ == spec_classic_content(cs@)->Some_0,
{
    proof {
        reveal_strlit("SAY ");
        reveal_strlit("CHOICE ");
        reveal_strlit("GOTO ");
        reveal_strlit(" SAY ");
        assert(cs@.subrange(0, cs@.len() as int) =~= cs@);
    }
    let n = cs.len();
    if let Some(m) = try_classic_marker(cs, 0) {
        return Ok(Line::Marker(m));
    }
    if crate::text::begins_with(cs, "SAY ", 0) && n > 4 {
        let text = crate::text::string_range(cs, 4, n);
        return Ok(Line::Say(Say::new(None, text)));
    }
    if crate::text::begins_with(cs, "CHOICE ", 0) && n > 7 {
        let text = crate::text::string_range(cs, 7, n);
        return Ok(Line::Choice(Choice::new(text)));
    }
    if crate::text::begins_with(cs, "GOTO ", 0) {
        let rest = crate::text::chars_range(cs, 5, n);
        proof {
            assert(rest@.subrange(0, rest@.len() as int) =~= rest@);
        }
        if let Some(m) = try_classic_marker(&rest, 0) {
            proof {
                assert(cs@.subrange(5, n as int).subrange(
                    1,
                    cs@.subrange(5, n as int).len() - 1,
                ) =~= cs@.subrange(6, n as int - 1));
            }
            return Ok(Line::Goto(Goto::new(m)));
        }
        proof {
            assert(!spec_classic_marker(cs@.subrange(5, n as int)));
        }
    }
    let k = find_say(cs);
    if 1 <= k && k < n && n - k > 5 {
        let subject = crate::text::string_range(cs, 0, k);
        let text = crate::text::string_range(cs, k + 5, n);
        return Ok(Line::Say(Say::new(Some(subject), text)));
    }
    proof {
        if spec_classic_content(cs@) is Some {
            assert(1 <= spec_find_say(cs@, 0) && spec_find_say(cs@, 0) + 5 < cs@.len());
        }
    }
    Err(ClassicError::Invalid)
}

/// Reads a whole classic marker out of `cs` from `from` to the end.
fn try_classic_marker(cs: &Vec<char>, from: usize) -> (r: Option<Marker>)
    requires
        from <= cs@.len(),
    ensures
        r is Some <==> spec_classic_marker(cs@.subrange(from as int, cs@.len() as int)),
        r matches Some(m) ==> m@ == cs@.subrange(from as int + 1, cs@.len() - 1),
{
    let ghost s = cs@.subrange(from as int, cs@.len() as int);
    let n = cs.len();
    if n - from < 3 || cs[from] != '%' || cs[n - 1] != '%' {
        return None;
    }
    let mut i: usize = from + 1;
    while i < n - 1
        invariant
            from + 1 <= i <= n - 1,
            n == cs@.len(),
            from + 3 <= n,
            s == cs@.subrange(from as int, n as int),
            forall|j: int|
                from + 1 <= j < i ==> is_classic_marker_char(#[trigger] cs@[j]),
        decreases n - 1 - i,
    {
        let c = cs[i];
        if !(('A' <= c && c <= 'Z') || ('0' <= c && c <= '9') || c == '-') {
            proof {
                assert(s[i - from] == cs@[i as int]);
            }
            return None;
        }
        i = i + 1;
    }
    proof {
        assert forall|j: int| 1 <= j < s.len() - 1 implies is_classic_marker_char(
            #[trigger] s[j],
        ) by {
            assert(s[j] == cs@[from + j]);
        }
        assert(s[0] == cs@[from as int]);
        assert(s[s.len() - 1] == cs@[n - 1]);
        assert(cs@.subrange(from as int + 1, n as int - 1) =~= s.subrange(1, s.len() - 1));
    }
    let name = crate::text::string_range(cs, from + 1, n - 1);
    Some(Marker::new(name.as_str()))
}

/// The first position of ` SAY ` in `cs`, or the length.
fn find_say(cs: &Vec<char>) -> (r: usize)
    ensures
        r == spec_find_say(cs@, 0),
        r <= cs@.len(),
{
    let n = cs.len();
    if n < 5 {
        proof {
            assert(spec_find_say(cs@, 0) == n);
        }
        return n;
    }
    let mut i: usize = 0;
    while i <= n - 5
        invariant
            0 <= i <= n - 4,
            n == cs@.len(),
            n >= 5,
            spec_find_say(cs@, 0) == spec_find_say(cs@, i as int),
        decreases n - i,
    {
        if crate::text::begins_with(cs, " SAY ", i) {
            return i;
        }
        i = i + 1;
    }
    proof {
        assert(spec_find_say(cs@, i as int) == n);
    }
    n
}

impl Line {
    /// Parse a classic line from a string; a trailing line break is
    /// allowed.
    pub fn parse(line_str: &str) -> (r: Result<Line, ClassicError>)
        ensures
            r is Ok <==> spec_classic_content(spec_line_core(line_str@)) is Some,
            r matches Ok(l) ==> l@ == spec_classic_content(spec_line_core(line_str@))->Some_0,
    {
        let cs = chars_of(line_str);
        let n = cs.len();
        let core_len = if n > 0 && cs[n - 1] == '\n' {
            n - 1
        } else {
            n
        };
        let core = crate::text::chars_range(&cs, 0, core_len);
        proof {
            assert(core@ =~= spec_line_core(line_str@));
        }
        parse_classic_content(&core)
    }

    /// The speech of the line; the line must be a speech.
    pub fn expect_say(self) -> (r: Say)
        requires
            self@ is Say,
        ensures
            self@ == r@,
    {
        match self {
            Line::Say(s) => s,
            _ => unreached(),
        }
    }

    /// The choice of the line; the line must be a choice.
    pub fn expect_choice(self) -> (r: Choice)
        requires
            self@ is Choice,
        ensures
            self@ == r@,
    {
        match self {
            Line::Choice(c) => c,
            _ => unreached(),
        }
    }

    /// The jump of the line; the line must be a jump.
    pub fn expect_goto(self) -> (r: Goto)
        requires
            self@ is Goto,
        ensures
            self@ == r@,
    {
        match self {
            Line::Goto(g) => g,
            _ => unreached(),
        }
    }

    /// The marker of the line; the line must be a marker.
    pub fn expect_marker(self) -> (r: Marker)
        requires
            self@ is Marker,
        ensures
            self@ == ClassicLineV::Marker(r@),
    {
        match self {
            Line::Marker(m) => m,
            _ => unreached(),
        }
    }
}

/// The content of a line without one trailing line break.
pub open spec fn spec_line_core(s: Seq<char>) -> Seq<char> {
    if s.len() > 0 && s[s.len() - 1] == '\n' {
        s.subrange(0, s.len() - 1)
    } else {
        s
    }
}

} // verus!
