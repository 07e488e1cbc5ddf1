//! Commands: named instructions with an optional prefix and suffix.
//!
//! A command is written `PREFIX |NAME| SUFFIX`, where the prefix (the
//! speaker or subject) and the suffix (free text or arguments) may each be
//! absent.  Neither may contain a pipe, and a command stays on one line.

use crate::script::ParseError;
use crate::text::{chars_of, spec_find, string_range, find_char, push_str_chars, str_eq};
use vstd::prelude::*;

verus! {

/// The mathematical value of a [`Command`]: its name, prefix and suffix as
/// character sequences.
pub ghost struct CommandV {
    pub name: Seq<char>,
    pub prefix: Option<Seq<char>>,
    pub suffix: Option<Seq<char>>,
}

/// A command in a script.
#[derive(Debug, PartialEq, Eq)]
pub struct Command {
    name: String,
    prefix: Option<String>,
    suffix: Option<String>,
}

impl Clone for Command {
    fn clone(&self) -> (res: Self)
        ensures
            res == *self,
    {
        Command {
            name: self.name.clone(),
            prefix: match &self.prefix {
                Some(p) => Some(p.clone()),
                None => None,
            },
            suffix: match &self.suffix {
                Some(s) => Some(s.clone()),
                None => None,
            },
        }
    }
}

impl View for Command {
    type V = CommandV;

    closed spec fn view(&self) -> CommandV {
        CommandV {
            name: self.name@,
            prefix: match self.prefix {
                Some(p) => Some(p@),
                None => None,
            },
            suffix: match self.suffix {
                Some(s) => Some(s@),
                None => None,
            },
        }
    }
}

/// The text of a command: the prefix and one space if there is a prefix,
/// the name between pipes, one space and the suffix if there is a suffix.
pub open spec fn spec_command_text(c: CommandV) -> Seq<char> {
    (match c.prefix {
        Some(p) => p + seq![' '],
        None => Seq::<char>::empty(),
    }) + seq!['|'] + c.name + seq!['|'] + (match c.suffix {
        Some(s) => seq![' '] + s,
        None => Seq::<char>::empty(),
    })
}

/// Parses `s` as a command, or `None` where `s` is not a command in
/// canonical form.
///
/// `s` must hold no newline.  The prefix is everything before the first
/// pipe, less the single space that separates it from the pipe; it must not
/// start or end with a space.  The name is everything between the first two
/// pipes.  The suffix is everything after the second pipe, less the single
/// space that separates it; no pipe may follow the second one.
pub open spec fn spec_parse_command(s: Seq<char>) -> Option<CommandV> {
    let p = spec_find(s, '|', 0);
    let q = spec_find(s, '|', p + 1);
    if spec_find(s, '\n', 0) != s.len() {
        None
    } else if p == s.len() || q == s.len() {
        None
    } else if p != 0 && !(p >= 2 && s[p - 1] == ' ' && s[p - 2] != ' ' && s[0] != ' ') {
        None
    } else if q + 1 < s.len() && (s[q + 1] != ' ' || spec_find(s, '|', q + 1) != s.len()) {
        None
    } else {
        Some(
            CommandV {
                name: s.subrange(p + 1, q),
                prefix: if p == 0 {
                    None
                } else {
                    Some(s.subrange(0, p - 1))
                },
                suffix: if q + 1 == s.len() {
                    None
                } else {
                    Some(s.subrange(q + 2, s.len() as int))
                },
            },
        )
    }
}

/// Parsing a command and writing it back reproduces the text.
pub proof fn lemma_command_round_trip(s: Seq<char>)
    requires
        spec_parse_command(s) is Some,
    ensures
        spec_command_text(spec_parse_command(s)->Some_0) == s,
{
    let c = spec_parse_command(s)->Some_0;
    let p = spec_find(s, '|', 0);
    let q = spec_find(s, '|', p + 1);
    crate::text::lemma_find_props(s, '|', 0);
    crate::text::lemma_find_props(s, '|', p + 1);
    assert(spec_command_text(c) =~= s);
}

impl Command {
    /// Create a new `Command` from its parts.
    pub fn new(name: &str, prefix: Option<&str>, suffix: Option<&str>) -> (r: Command)
        ensures
            r@.name == name@,
            r@.prefix == (match prefix {
                Some(p) => Some(p@),
                None => None,
            }),
            r@.suffix == (match suffix {
                Some(s) => Some(s@),
                None => None,
            }),
    {
        Command {
            name: name.to_owned(),
            prefix: match prefix {
                Some(p) => Some(p.to_owned()),
                None => None,
            },
            suffix: match suffix {
                Some(s) => Some(s.to_owned()),
                None => None,
            },
        }
    }

    /// The name of the command.
    pub fn name(&self) -> (r: &str)
        ensures
            r@ == self@.name,
    {
        self.name.as_str()
    }

    /// The prefix of the command, if one exists.
    pub fn prefix(&self) -> (r: Option<&str>)
        ensures
            r is None <==> self@.prefix is None,
            r matches Some(p) ==> self@.prefix == Some(p@),
    {
        match &self.prefix {
            Some(p) => Some(p.as_str()),
            None => None,
        }
    }

    /// The suffix of the command, if one exists.
    pub fn suffix(&self) -> (r: Option<&str>)
        ensures
            r is None <==> self@.suffix is None,
            r matches Some(p) ==> self@.suffix == Some(p@),
    {
        match &self.suffix {
            Some(s) => Some(s.as_str()),
            None => None,
        }
    }

    /// Whether this command is the built-in choice command.
    pub fn is_choice(&self) -> (r: bool)
        ensures
            r == (self@.name == "CHOICE"@),
    {
        str_eq(self.name.as_str(), "CHOICE")
    }

    /// Parse a `Command` from a string, per [`spec_parse_command`].
    pub fn parse(command_str: &str) -> (r: Result<Command, ParseError>)
        ensures
            r is Ok <==> spec_parse_command(command_str@) is Some,
            r matches Ok(c) ==> c@ == spec_parse_command(command_str@)->Some_0,
    {
        let cs = chars_of(command_str);
        Command::parse_chars(&cs)
    }

    /// Parse a `Command` from characters, per [`spec_parse_command`].
    pub(crate) fn parse_chars(cs: &Vec<char>) -> (r: Result<Command, ParseError>)
        ensures
            r is Ok <==> spec_parse_command(cs@) is Some,
            r matches Ok(c) ==> c@ == spec_parse_command(cs@)->Some_0,
    {
        let n = cs.len();
        let p = find_char(&cs, '|', 0);
        proof {
            crate::text::lemma_find_props(cs@, '|', 0);
        }
        if find_char(&cs, '\n', 0) != n {
            return Err(ParseError { line: 0 });
        }
        if p == n {
            return Err(ParseError { line: 0 });
        }
        let q = find_char(&cs, '|', p + 1);
        proof {
            crate::text::lemma_find_props(cs@, '|', p + 1);
        }
        if q == n {
            return Err(ParseError { line: 0 });
        }
        if p != 0 && !(p >= 2 && cs[p - 1] == ' ' && cs[p - 2] != ' ' && cs[0] != ' ') {
            return Err(ParseError { line: 0 });
        }
        if q + 1 < n && (cs[q + 1] != ' ' || find_char(&cs, '|', q + 1) != n) {
            return Err(ParseError { line: 0 });
        }
        let name = string_range(&cs, p + 1, q);
        let prefix = if p == 0 {
            None
        } else {
            Some(string_range(&cs, 0, p - 1))
        };
        let suffix = if q + 1 == n {
            None
        } else {
            Some(string_range(&cs, q + 2, n))
        };
        Ok(Command { name, prefix, suffix })
    }

    /// The text of the command, per [`spec_command_text`].
    pub fn to_string(&self) -> (r: String)
        ensures
            r@ == spec_command_text(self@),
    {
        let mut out: Vec<char> = Vec::new();
        self.write_into(&mut out);
        crate::text::string_from_chars(&out)
    }

    /// Appends the text of the command to `out`.
    pub(crate) fn write_into(&self, out: &mut Vec<char>)
        ensures
            final(out)@ == old(out)@ + spec_command_text(self@),
    {
        match &self.prefix {
            Some(p) => {
                push_str_chars(out, p.as_str());
                out.push(' ');
            },
            None => {},
        }
        out.push('|');
        push_str_chars(out, self.name.as_str());
        out.push('|');
        match &self.suffix {
            Some(s) => {
                out.push(' ');
                push_str_chars(out, s.as_str());
            },
            None => {},
        }
        proof {
            assert(out@ =~= old(out)@ + spec_command_text(self@));
        }
    }
}

} // verus!
