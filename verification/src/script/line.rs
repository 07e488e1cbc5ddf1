//! Lines: a line of a script is either a marker or a command.

use crate::script::ParseError;
use crate::script::command::{Command, CommandV, spec_command_text, spec_parse_command};
use crate::script::marker::{
    Marker, spec_marker_shape, spec_marker_text, spec_valid_marker_name,
};
use crate::text::{chars_of, spec_find, find_char};
use vstd::prelude::*;
use vstd::pervasive::unreached;

verus! {

/// The mathematical value of a [`Line`].
pub ghost enum LineV {
    Command(CommandV),
    Marker(Seq<char>),
}

/// A line in a script.
#[derive(Debug, PartialEq, Eq)]
pub enum Line {
    /// A command, such as `ZELDA |SAY| "Hello"`.
    Command(Command),
    /// A marker, such as `%START%`.
    Marker(Marker),
}

impl Clone for Line {
    fn clone(&self) -> (res: Self)
        ensures
            res == *self,
    {
        match self {
            Line::Command(c) => Line::Command(c.clone()),
            Line::Marker(m) => Line::Marker(m.clone()),
        }
    }
}

impl View for Line {
    type V = LineV;

    open spec fn view(&self) -> LineV {
        match self {
            Line::Command(c) => LineV::Command(c@),
            Line::Marker(m) => LineV::Marker(m@),
        }
    }
}

/// The text of a line, without its line break.
pub open spec fn spec_line_content(l: LineV) -> Seq<char> {
    match l {
        LineV::Command(c) => spec_command_text(c),
        LineV::Marker(n) => spec_marker_text(n),
    }
}

/// Classifies the content of one line (no line break, no indentation): a
/// marker where the text is `%NAME%` with a non-empty name of uppercase
/// letters and hyphens, else a command.
pub open spec fn spec_classify_line(content: Seq<char>) -> Option<LineV> {
    if spec_marker_shape(content) && content.len() > 2 && spec_valid_marker_name(
        content.subrange(1, content.len() - 1),
    ) {
        Some(LineV::Marker(content.subrange(1, content.len() - 1)))
    } else {
        match spec_parse_command(content) {
            Some(c) => Some(LineV::Command(c)),
            None => None,
        }
    }
}

/// Classifying a line and writing it back reproduces the content.
pub proof fn lemma_line_round_trip(content: Seq<char>)
    requires
        spec_classify_line(content) is Some,
    ensures
        spec_line_content(spec_classify_line(content)->Some_0) == content,
{
    if spec_marker_shape(content) && content.len() > 2 && spec_valid_marker_name(
        content.subrange(1, content.len() - 1),
    ) {
        assert(spec_marker_text(content.subrange(1, content.len() - 1)) =~= content);
    } else {
        crate::script::command::lemma_command_round_trip(content);
    }
}

/// Parses a whole line: its content up to the first line break, which may
/// be followed only by blank lines (spaces and line breaks).
pub open spec fn spec_parse_line(s: Seq<char>) -> Option<LineV> {
    let e = spec_find(s, '\n', 0);
    if forall|j: int| e < j < s.len() ==> (#[trigger] s[j] == ' ' || s[j] == '\n') {
        spec_classify_line(s.subrange(0, e))
    } else {
        None
    }
}

impl Line {
    /// Create a new `Line` from a [`Command`].
    pub fn command(command: Command) -> (r: Line)
        ensures
            r@ == LineV::Command(command@),
    {
        Line::Command(command)
    }

    /// Parse a `Line` from a string, per [`spec_parse_line`].
    pub fn parse(line_str: &str) -> (r: Result<Line, ParseError>)
        ensures
            r is Ok <==> spec_parse_line(line_str@) is Some,
            r matches Ok(l) ==> l@ == spec_parse_line(line_str@)->Some_0,
    {
        let cs = chars_of(line_str);
        let n = cs.len();
        let e = find_char(&cs, '\n', 0);
        proof {
            crate::text::lemma_find_props(cs@, '\n', 0);
        }
        let mut j: usize = e;
        while j < n
            invariant
                e <= j <= n,
                n == cs@.len(),
                cs@ == line_str@,
                e == spec_find(cs@, '\n', 0),
                forall|k: int| e < k < j ==> (#[trigger] cs@[k] == ' ' || cs@[k] == '\n'),
            decreases n - j,
        {
            if j > e && !(cs[j] == ' ' || cs[j] == '\n') {
                return Err(ParseError { line: 0 });
            }
            j = j + 1;
        }
        let content = crate::text::chars_range(&cs, 0, e);
        parse_line_content(&content)
    }

    /// The marker of the line, where it is one.
    pub fn as_marker(&self) -> (r: Option<&Marker>)
        ensures
            r matches Some(m) ==> self@ == LineV::Marker(m@),
            r is Some <==> self@ is Marker,
    {
        match self {
            Line::Marker(m) => Some(m),
            Line::Command(_) => None,
        }
    }

    /// The command of the line, where it is one.
    pub fn as_command(&self) -> (r: Option<&Command>)
        ensures
            r matches Some(c) ==> self@ == LineV::Command(c@),
            r is Some <==> self@ is Command,
    {
        match self {
            Line::Command(c) => Some(c),
            Line::Marker(_) => None,
        }
    }

    /// The marker of the line; the line must be a marker.
    pub fn expect_marker(self) -> (r: Marker)
        requires
            self@ is Marker,
        ensures
            self@ == LineV::Marker(r@),
    {
        match self {
            Line::Marker(m) => m,
            Line::Command(_) => unreached(),
        }
    }

    /// The command of the line; the line must be a command.
    pub fn expect_command(self) -> (r: Command)
        requires
            self@ is Command,
        ensures
            self@ == LineV::Command(r@),
    {
        match self {
            Line::Command(c) => c,
            Line::Marker(_) => unreached(),
        }
    }

    /// The text of the line followed by a line break.
    pub fn to_string(&self) -> (r: String)
        ensures
            r@ == spec_line_content(self@) + seq!['\n'],
    {
        let mut out: Vec<char> = Vec::new();
        self.write_into(&mut out);
        out.push('\n');
        proof {
            assert(out@ =~= spec_line_content(self@) + seq!['\n']);
        }
        crate::text::string_from_chars(&out)
    }

    /// Appends the text of the line to `out`, without a line break.
    pub(crate) fn write_into(&self, out: &mut Vec<char>)
        ensures
            final(out)@ == old(out)@ + spec_line_content(self@),
    {
        match self {
            Line::Command(c) => c.write_into(out),
            Line::Marker(m) => {
                out.push('%');
                crate::text::push_str_chars(out, m.name());
                out.push('%');
                proof {
                    assert(out@ =~= old(out)@ + spec_line_content(self@));
                }
            },
        }
    }
}

/// Classifies the characters of one line's content, per
/// [`spec_classify_line`].
pub(crate) fn parse_line_content(content: &Vec<char>) -> (r: Result<Line, ParseError>)
    ensures
        r is Ok <==> spec_classify_line(content@) is Some,
        r matches Ok(l) ==> l@ == spec_classify_line(content@)->Some_0,
{
    let n = content.len();
    if n > 2 && content[0] == '%' && content[n - 1] == '%' {
        let mut i: usize = 1;
        let mut valid: bool = true;
        while i < n - 1
            invariant
                1 <= i <= n - 1,
                n == content@.len(),
                n > 2,
                valid == (forall|j: int|
                    1 <= j < i ==> crate::script::marker::is_marker_name_char(
                        #[trigger] content@[j],
                    )),
            decreases n - 1 - i,
        {
            let c = content[i];
            if !(('A' <= c && c <= 'Z') || c == '-') {
                valid = false;
            }
            i = i + 1;
        }
        proof {
            let mid = content@.subrange(1, n - 1);
            assert(forall|k: int| 0 <= k < mid.len() ==> mid[k] == content@[k + 1]);
            if valid {
                assert(spec_valid_marker_name(mid));
                assert(forall|j: int| 1 <= j < n - 1 ==> #[trigger] content@[j] != '%');
                assert(spec_marker_shape(content@));
            } else {
                if spec_valid_marker_name(mid) {
                    assert forall|j: int|
                        1 <= j < n - 1 implies crate::script::marker::is_marker_name_char(
                        #[trigger] content@[j],
                    ) by {
                        assert(mid[j - 1] == content@[j]);
                        assert(crate::script::marker::is_marker_name_char(mid[j - 1]));
                    }
                }
            }
        }
        if valid {
            let name = crate::text::string_range(content, 1, n - 1);
            return Ok(Line::Marker(Marker::new(name.as_str())));
        }
    }
    match Command::parse_chars(content) {
        Ok(c) => Ok(Line::Command(c)),
        Err(e) => Err(e),
    }
}

} // verus!
