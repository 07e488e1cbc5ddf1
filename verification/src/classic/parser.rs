//! Rule-level recognizers for the classic syntax.
//!
//! [`ScriptParser::parse`] checks whether a prefix of the input matches a
//! grammar rule, in the manner of a generated parser's rule entry points.

use crate::classic::ClassicError;
use crate::classic::line::{is_classic_marker_char, spec_find_say};
use crate::text::{chars_of, spec_begins, spec_find, begins_with, find_char};
use vstd::prelude::*;

verus! {

/// The rules of the classic grammar.
#[derive(Debug, Clone, Copy, PartialEq, Eq, Structural)]
pub enum Rule {
    AllowedSymbols,
    Block,
    Char,
    ChoiceCommand,
    EOI,
    EndMarker,
    EndOfScript,
    GotoCommand,
    IndentedBlock,
    InfixSayCommand,
    Line,
    Marker,
    MarkerName,
    PostfixSayCommand,
    SayCommand,
    Script,
    Space,
    StartMarker,
    StartOfScript,
    Subject,
    Text,
}

impl Rule {
    /// Get the name of the rule as a string.
    pub fn as_str(&self) -> &'static str {
        match self {
            Rule::AllowedSymbols => "AllowedSymbols",
            Rule::Block => "Block",
            Rule::Char => "single character",
            Rule::ChoiceCommand => "CHOICE command",
            Rule::EOI => "End of Input",
            Rule::EndMarker => "End Marker",
            Rule::EndOfScript => "End of script",
            Rule::GotoCommand => "GOTO command",
            Rule::IndentedBlock => "Indent",
            Rule::InfixSayCommand => "SAY command (infix)",
            Rule::Line => "Line",
            Rule::Marker => "Marker",
            Rule::MarkerName => "marker name",
            Rule::PostfixSayCommand => "SAY command (postfix)",
            Rule::SayCommand => "SAY command",
            Rule::Script => "Script",
            Rule::Space => "space",
            Rule::StartMarker => "Start Marker",
            Rule::StartOfScript => "Start of script",
            Rule::Subject => "subject",
            Rule::Text => "text",
        }
    }
}

/// Whether a prefix of `s` is a classic marker: `%`, a non-empty run of
/// marker characters, and a closing `%`.
pub open spec fn spec_marker_rule(s: Seq<char>) -> bool {
    &&& s.len() >= 3
    &&& s[0] == '%'
    &&& {
        let k = spec_find(s, '%', 1);
        k < s.len() && k >= 2 && (forall|j: int| 1 <= j < k ==> is_classic_marker_char(
            #[trigger] s[j],
        ))
    }
}

/// Whether a prefix of `s` is a subjectless speech command.
pub open spec fn spec_postfix_say_rule(s: Seq<char>) -> bool {
    spec_begins(s, "SAY "@, 0) && s.len() > 4 && s[4] != '\n'
}

/// Whether a prefix of `s` is a speech command with a subject.
pub open spec fn spec_infix_say_rule(s: Seq<char>) -> bool {
    let k = spec_find_say(s, 0);
    &&& 1 <= k
    &&& k + 5 < s.len()
    &&& s[k + 5] != '\n'
    &&& forall|j: int| 0 <= j < k ==> #[trigger] s[j] != '\n'
}

/// Whether a prefix of `s` is a choice command.
pub open spec fn spec_choice_rule(s: Seq<char>) -> bool {
    spec_begins(s, "CHOICE "@, 0) && s.len() > 7 && s[7] != '\n'
}

/// Whether a prefix of `s` is a jump command.
pub open spec fn spec_goto_rule(s: Seq<char>) -> bool {
    spec_begins(s, "GOTO "@, 0) && spec_marker_rule(s.subrange(5, s.len() as int))
}

/// Whether a prefix of `s` is a line: a marker or one of the commands.
pub open spec fn spec_line_rule(s: Seq<char>) -> bool {
    ||| spec_marker_rule(s)
    ||| spec_postfix_say_rule(s)
    ||| spec_infix_say_rule(s)
    ||| spec_choice_rule(s)
    ||| spec_goto_rule(s)
}

/// Whether a prefix of `s` is an indented block: four spaces, then a block
/// one level deeper or a line.
pub open spec fn spec_block_rule(s: Seq<char>) -> bool
    decreases s.len(),
{
    &&& s.len() >= 4
    &&& s[0] == ' '
    &&& s[1] == ' '
    &&& s[2] == ' '
    &&& s[3] == ' '
    &&& (spec_line_rule(s.subrange(4, s.len() as int)) || spec_block_rule(
        s.subrange(4, s.len() as int),
    ))
}

/// Whether `s` is a whole classic script: the start marker on the first
/// line, the end marker on the last, and classic lines (at four-space
/// indents) between them.
pub open spec fn spec_script_rule(s: Seq<char>) -> bool {
    let ls = crate::script::parser::spec_split_lines(s);
    &&& crate::script::parser::spec_well_newlined(s)
    &&& ls.len() >= 2
    &&& ls[0] == "%START%"@
    &&& ls[ls.len() - 1] == "%END%"@
    &&& forall|i: int|
        0 < i < ls.len() - 1 ==> spec_classic_script_line(#[trigger] ls[i])
}

/// Whether one interior script line is blank or a classic line at a
/// four-space indent.
pub open spec fn spec_classic_script_line(l: Seq<char>) -> bool {
    ||| crate::script::parser::spec_is_blank(l)
    ||| {
        let k = crate::script::parser::spec_run_spaces(l, 0);
        k % 4 == 0 && crate::classic::line::spec_classic_content(
            l.subrange(k, l.len() as int),
        ) is Some
    }
}

/// What each rule means of an input.
pub open spec fn spec_rule_matches(rule: Rule, s: Seq<char>) -> bool {
    match rule {
        Rule::AllowedSymbols => s.len() >= 1 && s[0] != '\n',
        Rule::Char => s.len() >= 1 && s[0] != '\n',
        Rule::Subject => s.len() >= 1 && s[0] != '\n',
        Rule::Text => s.len() >= 1 && s[0] != '\n',
        Rule::Space => s.len() >= 1 && s[0] == ' ',
        Rule::EOI => s.len() == 0,
        Rule::MarkerName => s.len() >= 1 && is_classic_marker_char(s[0]),
        Rule::Marker => spec_marker_rule(s),
        Rule::StartMarker => spec_begins(s, "%START%"@, 0),
        Rule::EndMarker => spec_begins(s, "%END%"@, 0),
        Rule::StartOfScript => spec_begins(s, "%START%\n"@, 0),
        Rule::EndOfScript => spec_begins(s, "%END%"@, 0) && (s.len() == 5 || s[5] == '\n'),
        Rule::PostfixSayCommand => spec_postfix_say_rule(s),
        Rule::InfixSayCommand => spec_infix_say_rule(s),
        Rule::SayCommand => spec_postfix_say_rule(s) || spec_infix_say_rule(s),
        Rule::ChoiceCommand => spec_choice_rule(s),
        Rule::GotoCommand => spec_goto_rule(s),
        Rule::Line => spec_line_rule(s),
        Rule::Block => spec_block_rule(s),
        Rule::IndentedBlock => spec_block_rule(s),
        Rule::Script => spec_script_rule(s),
    }
}

/// A parser for the classic `.script` format's rules.
#[derive(Debug)]
pub struct ScriptParser;

impl ScriptParser {
    /// Returns whether a prefix of `input` matches `rule`, per
    /// [`spec_rule_matches`].
    pub fn parse(rule: Rule, input: &str) -> (r: Result<(), ClassicError>)
        ensures
            r is Ok <==> spec_rule_matches(rule, input@),
    {
        let cs = chars_of(input);
        if matches_rule(rule, &cs) {
            Ok(())
        } else {
            Err(ClassicError::Invalid)
        }
    }
}

/// Whether a prefix of `cs` matches `rule`.
fn matches_rule(rule: Rule, cs: &Vec<char>) -> (r: bool)
    ensures
        r == spec_rule_matches(rule, cs@),
    decreases cs@.len(), 1nat,
{
    proof {
        reveal_strlit("%START%");
        reveal_strlit("%END%");
        reveal_strlit("%START%\n");
        reveal_strlit("SAY ");
        reveal_strlit("CHOICE ");
        reveal_strlit("GOTO ");
    }
    let n = cs.len();
    match rule {
        Rule::AllowedSymbols => n >= 1 && cs[0] != '\n',
        Rule::Char => n >= 1 && cs[0] != '\n',
        Rule::Subject => n >= 1 && cs[0] != '\n',
        Rule::Text => n >= 1 && cs[0] != '\n',
        Rule::Space => n >= 1 && cs[0] == ' ',
        Rule::EOI => n == 0,
        Rule::MarkerName => {
            if n >= 1 {
                let c = cs[0];
                ('A' <= c && c <= 'Z') || ('0' <= c && c <= '9') || c == '-'
            } else {
                false
            }
        },
        Rule::Marker => marker_rule(cs),
        Rule::StartMarker => begins_with(cs, "%START%", 0),
        Rule::EndMarker => begins_with(cs, "%END%", 0),
        Rule::StartOfScript => begins_with(cs, "%START%\n", 0),
        Rule::EndOfScript => {
            if begins_with(cs, "%END%", 0) {
                n == 5 || cs[5] == '\n'
            } else {
                false
            }
        },
        Rule::PostfixSayCommand => postfix_say_rule(cs),
        Rule::InfixSayCommand => infix_say_rule(cs),
        Rule::SayCommand => postfix_say_rule(cs) || infix_say_rule(cs),
        Rule::ChoiceCommand => begins_with(cs, "CHOICE ", 0) && n > 7 && cs[7] != '\n',
        Rule::GotoCommand => {
            if begins_with(cs, "GOTO ", 0) {
                proof {
                    assert(cs@.len() >= 5);
                }
                let rest = crate::text::chars_range(cs, 5, n);
                marker_rule(&rest)
            } else {
                false
            }
        },
        Rule::Line => {
            if marker_rule(cs) || postfix_say_rule(cs) || infix_say_rule(cs) {
                return true;
            }
            if begins_with(cs, "CHOICE ", 0) && n > 7 && cs[7] != '\n' {
                return true;
            }
            if begins_with(cs, "GOTO ", 0) {
                proof {
                    assert(cs@.len() >= 5);
                }
                let rest = crate::text::chars_range(cs, 5, n);
                return marker_rule(&rest);
            }
            false
        },
        Rule::Block => block_rule(cs),
        Rule::IndentedBlock => block_rule(cs),
        Rule::Script => script_rule(cs),
    }
}

/// Whether a prefix of `cs` is a marker, per [`spec_marker_rule`].
fn marker_rule(cs: &Vec<char>) -> (r: bool)
    ensures
        r == spec_marker_rule(cs@),
{
    let n = cs.len();
    if n < 3 || cs[0] != '%' {
        return false;
    }
    let k = find_char(cs, '%', 1);
    proof {
        crate::text::lemma_find_props(cs@, '%', 1);
    }
    if k >= n || k < 2 {
        return false;
    }
    let mut j: usize = 1;
    while j < k
        invariant
            1 <= j <= k,
            k < n,
            n == cs@.len(),
            k == spec_find(cs@, '%', 1),
            forall|q: int| 1 <= q < j ==> is_classic_marker_char(#[trigger] cs@[q]),
        decreases k - j,
    {
        let c = cs[j];
        if !(('A' <= c && c <= 'Z') || ('0' <= c && c <= '9') || c == '-') {
            return false;
        }
        j = j + 1;
    }
    true
}

/// Whether a prefix of `cs` is a subjectless speech command.
fn postfix_say_rule(cs: &Vec<char>) -> (r: bool)
    ensures
        r == spec_postfix_say_rule(cs@),
{
    begins_with(cs, "SAY ", 0) && cs.len() > 4 && cs[4] != '\n'
}

/// Whether a prefix of `cs` is a speech command with a subject.
fn infix_say_rule(cs: &Vec<char>) -> (r: bool)
    ensures
        r == spec_infix_say_rule(cs@),
{
    let n = cs.len();
    let k = classic_find_say(cs);
    if !(1 <= k && k < n && n - k > 5) {
        return false;
    }
    if cs[k + 5] == '\n' {
        return false;
    }
    let mut j: usize = 0;
    while j < k
        invariant
            0 <= j <= k,
            k + 5 < n,
            n == cs@.len(),
            k == spec_find_say(cs@, 0),
            forall|q: int| 0 <= q < j ==> #[trigger] cs@[q] != '\n',
        decreases k - j,
    {
        if cs[j] == '\n' {
            return false;
        }
        j = j + 1;
    }
    true
}

/// The first position of ` SAY ` in `cs`, or the length.
fn classic_find_say(cs: &Vec<char>) -> (r: usize)
    ensures
        r == spec_find_say(cs@, 0),
        r <= cs@.len(),
{
    let n = cs.len();
    if n < 5 {
        proof {
            assert(spec_find_say(cs@, 0) == n);
        }
        return n;
    }
    let mut i: usize = 0;
    while i <= n - 5
        invariant
            0 <= i <= n - 4,
            n == cs@.len(),
            n >= 5,
            spec_find_say(cs@, 0) == spec_find_say(cs@, i as int),
        decreases n - i,
    {
        if begins_with(cs, " SAY ", i) {
            return i;
        }
        i = i + 1;
    }
    proof {
        assert(spec_find_say(cs@, i as int) == n);
    }
    n
}

/// Whether a prefix of `cs` is an indented block.
fn block_rule(cs: &Vec<char>) -> (r: bool)
    ensures
        r == spec_block_rule(cs@),
    decreases cs@.len(), 0nat,
{
    let n = cs.len();
    if !(n >= 4 && cs[0] == ' ' && cs[1] == ' ' && cs[2] == ' ' && cs[3] == ' ') {
        return false;
    }
    let rest = crate::text::chars_range(cs, 4, n);
    let line = matches_rule(Rule::Line, &rest);
    if line {
        return true;
    }
    block_rule(&rest)
}

/// Whether `cs` is a whole classic script.
fn script_rule(cs: &Vec<char>) -> (r: bool)
    ensures
        r == spec_script_rule(cs@),
{
    let n = cs.len();
    if n > 0 && cs[n - 1] != '\n' {
        return false;
    }
    let lines = crate::script::parser::split_lines_exec(cs);
    let ghost ls = crate::script::parser::spec_split_lines(cs@);
    let m = lines.len();
    if m < 2 {
        return false;
    }
    proof {
        assert(lines@[0]@ == ls[0]);
        assert(lines@[m - 1]@ == ls[m - 1]);
    }
    if !crate::text::str_eq(crate::text::string_from_chars(&lines[0]).as_str(), "%START%") {
        return false;
    }
    if !crate::text::str_eq(crate::text::string_from_chars(&lines[m - 1]).as_str(), "%END%") {
        return false;
    }
    let mut i: usize = 1;
    while i < m - 1
        invariant
            1 <= i <= m - 1,
            m >= 2,
            m == lines@.len(),
            m == ls.len(),
            ls == crate::script::parser::spec_split_lines(cs@),
            crate::script::parser::spec_well_newlined(cs@),
            ls[0] == "%START%"@,
            ls[m - 1] == "%END%"@,
            forall|j: int| 0 <= j < m ==> (#[trigger] lines@[j])@ == ls[j],
            forall|j: int| 0 < j < i ==> spec_classic_script_line(#[trigger] ls[j]),
        decreases m - 1 - i,
    {
        let line = &lines[i];
        proof {
            assert(line@ == ls[i as int]);
        }
        let ln = line.len();
        let mut k: usize = 0;
        while k < ln && line[k] == ' '
            invariant
                0 <= k <= ln,
                ln == line@.len(),
                forall|q: int| 0 <= q < k ==> line@[q] == ' ',
            decreases ln - k,
        {
            k = k + 1;
        }
        proof {
            crate::script::parser::lemma_run_spaces_from(line@, 0, k as int);
            assert(crate::script::parser::spec_run_spaces(line@, 0) == k);
        }
        if k == ln {
            proof {
                assert(crate::script::parser::spec_is_blank(line@));
            }
            i = i + 1;
            continue ;
        }
        proof {
            assert(!crate::script::parser::spec_is_blank(line@)) by {
                assert(line@[k as int] != ' ');
            }
        }
        if k % 4 != 0 {
            proof {
                assert(!spec_classic_script_line(ls[i as int]));
            }
            return false;
        }
        let content = crate::text::chars_range(line, k, ln);
        match crate::classic::line::parse_classic_content(&content) {
            Ok(_) => {},
            Err(_) => {
                proof {
                    assert(!spec_classic_script_line(ls[i as int]));
                }
                return false;
            },
        }
        proof {
            assert(spec_classic_script_line(ls[i as int]));
        }
        i = i + 1;
    }
    true
}

} // verus!
