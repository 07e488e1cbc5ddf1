//! Comments: `// text` to the end of the line.  Comments are ignored by the
//! execution engine but preserved for round-trip formatting.

use crate::script::ParseError;
use crate::text::{chars_of, spec_find, string_range, find_char, push_str_chars};
use vstd::prelude::*;

verus! {

/// A comment in a script.
#[derive(Debug, PartialEq, Eq)]
pub struct Comment {
    text: String,
}

impl Clone for Comment {
    fn clone(&self) -> (res: Self)
        ensures
            res == *self,
    {
        Comment { text: self.text.clone() }
    }
}

impl View for Comment {
    type V = Seq<char>;

    closed spec fn view(&self) -> Seq<char> {
        self.text@
    }
}

/// The text of a comment without its line break: `// ` then the text.
pub open spec fn spec_comment_content(text: Seq<char>) -> Seq<char> {
    seq!['/', '/', ' '] + text
}

/// Parses `s` as a comment, or `None` where `s` is not one.
///
/// A comment is `// `, the text (which holds no newline), and at most one
/// trailing newline.
pub open spec fn spec_parse_comment(s: Seq<char>) -> Option<Seq<char>> {
    let core = if s.len() > 0 && s[s.len() - 1] == '\n' {
        s.subrange(0, s.len() - 1)
    } else {
        s
    };
    if core.len() >= 3 && core[0] == '/' && core[1] == '/' && core[2] == ' ' && spec_find(
        core,
        '\n',
        0,
    ) == core.len() {
        Some(core.subrange(3, core.len() as int))
    } else {
        None
    }
}

impl Comment {
    /// Create a new `Comment` holding the given text.
    pub fn new(text: &str) -> (r: Comment)
        ensures
            r@ == text@,
    {
        Comment { text: text.to_owned() }
    }

    /// The text of the comment, without the leading `// `.
    pub fn text(&self) -> (r: &str)
        ensures
            r@ == self@,
    {
        self.text.as_str()
    }

    /// Parse a `Comment` from a string, per [`spec_parse_comment`].
    pub fn parse(comment_str: &str) -> (r: Result<Comment, ParseError>)
        ensures
            r is Ok <==> spec_parse_comment(comment_str@) is Some,
            r matches Ok(c) ==> c@ == spec_parse_comment(comment_str@)->Some_0,
    {
        let cs = chars_of(comment_str);
        let n = cs.len();
        let core_len = if n > 0 && cs[n - 1] == '\n' {
            n - 1
        } else {
            n
        };
        let ghost core = cs@.subrange(0, core_len as int);
        proof {
            assert(forall|j: int| 0 <= j < core.len() ==> core[j] == cs@[j]);
            crate::text::lemma_find_props(core, '\n', 0);
        }
        if core_len < 3 || cs[0] != '/' || cs[1] != '/' || cs[2] != ' ' {
            return Err(ParseError { line: 0 });
        }
        let nl = find_char(&cs, '\n', 0);
        proof {
            crate::text::lemma_find_props(cs@, '\n', 0);
        }
        if nl < core_len {
            proof {
                assert(core[nl as int] == '\n');
            }
            return Err(ParseError { line: 0 });
        }
        proof {
            assert(spec_find(core, '\n', 0) == core.len()) by {
                if spec_find(core, '\n', 0) < core.len() {
                    assert(cs@[spec_find(core, '\n', 0)] == '\n');
                    assert(spec_find(cs@, '\n', 0) <= spec_find(core, '\n', 0));
                }
            }
        }
        let text = string_range(&cs, 3, core_len);
        proof {
            assert(cs@.subrange(3, core_len as int) =~= core.subrange(3, core_len as int));
        }
        Ok(Comment { text })
    }

    /// The text of the comment followed by a line break: `// text` and `\n`.
    pub fn to_string(&self) -> (r: String)
        ensures
            r@ == spec_comment_content(self@) + seq!['\n'],
    {
        let mut out: Vec<char> = Vec::new();
        self.write_into(&mut out);
        out.push('\n');
        proof {
            assert(out@ =~= spec_comment_content(self@) + seq!['\n']);
        }
        crate::text::string_from_chars(&out)
    }

    /// Appends `// ` and the text of the comment to `out`, without a line
    /// break.
    pub(crate) fn write_into(&self, out: &mut Vec<char>)
        ensures
            final(out)@ == old(out)@ + spec_comment_content(self@),
    {
        out.push('/');
        out.push('/');
        out.push(' ');
        push_str_chars(out, self.text.as_str());
        proof {
            assert(out@ =~= old(out)@ + spec_comment_content(self@));
        }
    }
}

} // verus!
