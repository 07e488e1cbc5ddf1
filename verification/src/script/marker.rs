//! Markers: named jump targets.
//!
//! A marker is written `%NAME%`.  Within a script the name may use only
//! uppercase ASCII letters and hyphens; a script starts at the `%START%`
//! marker and ends at the `%END%` marker.

use crate::text::{chars_of, string_range};
use vstd::prelude::*;

verus! {

/// A marker that can be used as a destination for `GOTO` commands.
#[derive(Debug, PartialEq, Eq, Hash)]
pub struct Marker {
    name: String,
}

impl Clone for Marker {
    fn clone(&self) -> (res: Self)
        ensures
            res == *self,
    {
        Marker { name: self.name.clone() }
    }
}

impl View for Marker {
    type V = Seq<char>;

    closed spec fn view(&self) -> Seq<char> {
        self.name@
    }
}

/// Holds when `c` may appear in a marker name inside a script: uppercase
/// ASCII letters and hyphens only.
pub open spec fn is_marker_name_char(c: char) -> bool {
    ('A' <= c && c <= 'Z') || c == '-'
}

/// Holds when every character of `name` may appear in a marker name.
pub open spec fn spec_valid_marker_name(name: Seq<char>) -> bool {
    forall|i: int| 0 <= i < name.len() ==> is_marker_name_char(#[trigger] name[i])
}

/// Holds when `s` is a whole marker: a `%`, a (possibly empty) run of
/// characters other than `%`, and a closing `%`.
pub open spec fn spec_marker_shape(s: Seq<char>) -> bool {
    &&& s.len() >= 2
    &&& s[0] == '%'
    &&& s[s.len() - 1] == '%'
    &&& forall|i: int| 1 <= i < s.len() - 1 ==> #[trigger] s[i] != '%'
}

/// The text of a marker with the given name: `%NAME%`.
pub open spec fn spec_marker_text(name: Seq<char>) -> Seq<char> {
    seq!['%'] + name + seq!['%']
}

/// Returns whether every character of `name` is an uppercase ASCII letter
/// or a hyphen.
pub fn is_valid_marker_name(name: &str) -> (r: bool)
    ensures
        r == spec_valid_marker_name(name@),
{
    let n = name.unicode_len();
    let mut i: usize = 0;
    while i < n
        invariant
            i <= n,
            n == name@.len(),
            forall|j: int| 0 <= j < i ==> is_marker_name_char(#[trigger] name@[j]),
        decreases n - i,
    {
        let c = name.get_char(i);
        if !(('A' <= c && c <= 'Z') || c == '-') {
            return false;
        }
        i = i + 1;
    }
    true
}

impl Marker {
    /// Create a new `Marker` with the given name.
    pub fn new(name: &str) -> (r: Marker)
        ensures
            r@ == name@,
    {
        Marker { name: name.to_owned() }
    }

    /// The name of the marker, without its `%` delimiters.
    pub fn name(&self) -> (r: &str)
        ensures
            r@ == self@,
    {
        self.name.as_str()
    }

    /// Parse a `Marker` from a string of the shape `%NAME%`.
    ///
    /// Succeeds exactly on strings that start and end with a `%` and hold no
    /// other `%`; the name between the delimiters is taken as it stands.
    pub fn parse(marker_str: &str) -> (r: Result<Marker, crate::script::ParseError>)
        ensures
            r is Ok <==> spec_marker_shape(marker_str@),
            r matches Ok(m) ==> m@ == marker_str@.subrange(1, marker_str@.len() - 1),
    {
        let cs = chars_of(marker_str);
        let n = cs.len();
        if n < 2 {
            return Err(crate::script::ParseError { line: 0 });
        }
        if cs[0] != '%' || cs[n - 1] != '%' {
            return Err(crate::script::ParseError { line: 0 });
        }
        let mut i: usize = 1;
        while i < n - 1
            invariant
                1 <= i <= n - 1,
                n == cs@.len(),
                cs@ == marker_str@,
                forall|j: int| 1 <= j < i ==> #[trigger] cs@[j] != '%',
            decreases n - 1 - i,
        {
            if cs[i] == '%' {
                return Err(crate::script::ParseError { line: 0 });
            }
            i = i + 1;
        }
        let name = string_range(&cs, 1, n - 1);
        Ok(Marker { name })
    }

    /// The text of the marker: `%NAME%`.
    pub fn to_string(&self) -> (r: String)
        ensures
            r@ == spec_marker_text(self@),
    {
        let mut out: Vec<char> = Vec::new();
        out.push('%');
        crate::text::push_str_chars(&mut out, self.name.as_str());
        out.push('%');
        proof {
            assert(out@ =~= spec_marker_text(self@));
        }
        crate::text::string_from_chars(&out)
    }
}

} // verus!
