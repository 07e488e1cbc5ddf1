//! Character-level helpers shared by the parser and the formatters.
//!
//! The library models every piece of text as a `Seq<char>`.  Executable code
//! works on `Vec<char>` and converts to and from `String` at the public
//! boundary.

use vstd::prelude::*;

verus! {

/// Collects the characters of a string slice into a vector.
pub fn chars_of(s: &str) -> (r: Vec<char>)
    ensures
        r@ == s@,
{
    let n = s.unicode_len();
    let mut r: Vec<char> = Vec::new();
    let mut i: usize = 0;
    while i < n
        invariant
            i <= n,
            n == s@.len(),
            r@ == s@.subrange(0, i as int),
        decreases n - i,
    {
        r.push(s.get_char(i));
        i = i + 1;
        proof {
            assert(r@ =~= s@.subrange(0, i as int));
        }
    }
    proof {
        assert(r@ =~= s@);
    }
    r
}

/// Builds a `String` from a vector of characters.
///
/// Relies on `String`'s `FromIterator<char>` implementation, which collects
/// the characters in order.
#[verifier::external_body]
pub fn string_from_chars(v: &Vec<char>) -> (r: String)
    ensures
        r@ == v@,
{
    v.iter().collect()
}

/// Copies the characters of `v` between `from` and `to` into a new vector.
pub fn chars_range(v: &Vec<char>, from: usize, to: usize) -> (r: Vec<char>)
    requires
        from <= to <= v@.len(),
    ensures
        r@ == v@.subrange(from as int, to as int),
{
    let mut r: Vec<char> = Vec::new();
    let mut i: usize = from;
    while i < to
        invariant
            from <= i <= to <= v@.len(),
            r@ == v@.subrange(from as int, i as int),
        decreases to - i,
    {
        r.push(v[i]);
        i = i + 1;
        proof {
            assert(r@ =~= v@.subrange(from as int, i as int));
        }
    }
    r
}

/// Builds a `String` from the characters of `v` between `from` and `to`.
pub fn string_range(v: &Vec<char>, from: usize, to: usize) -> (r: String)
    requires
        from <= to <= v@.len(),
    ensures
        r@ == v@.subrange(from as int, to as int),
{
    let part = chars_range(v, from, to);
    string_from_chars(&part)
}

/// Compares two string slices character by character.
pub fn str_eq(a: &str, b: &str) -> (r: bool)
    ensures
        r == (a@ == b@),
{
    let na = a.unicode_len();
    let nb = b.unicode_len();
    if na != nb {
        return false;
    }
    let mut i: usize = 0;
    while i < na
        invariant
            i <= na,
            na == a@.len(),
            na == b@.len(),
            forall|j: int| 0 <= j < i ==> a@[j] == b@[j],
        decreases na - i,
    {
        if a.get_char(i) != b.get_char(i) {
            return false;
        }
        i = i + 1;
    }
    proof {
        assert(a@ =~= b@);
    }
    true
}

/// The index of the first occurrence of `c` in `s` at or after `from`, or
/// `s.len()` when there is none.
pub open spec fn spec_find(s: Seq<char>, c: char, from: int) -> int
    decreases s.len() - from,
{
    if from < 0 || from >= s.len() {
        s.len() as int
    } else if s[from] == c {
        from
    } else {
        spec_find(s, c, from + 1)
    }
}

/// What `spec_find` returns: the first occurrence, within bounds.
pub proof fn lemma_find_props(s: Seq<char>, c: char, from: int)
    requires
        0 <= from <= s.len(),
    ensures
        from <= spec_find(s, c, from) <= s.len(),
        spec_find(s, c, from) < s.len() ==> s[spec_find(s, c, from)] == c,
        forall|j: int| from <= j < spec_find(s, c, from) ==> s[j] != c,
    decreases s.len() - from,
{
    if from < s.len() && s[from] != c {
        lemma_find_props(s, c, from + 1);
    }
}

/// Finds the first occurrence of `c` in `v` at or after `from`.
pub fn find_char(v: &Vec<char>, c: char, from: usize) -> (r: usize)
    requires
        from <= v@.len(),
    ensures
        r == spec_find(v@, c, from as int),
{
    let n = v.len();
    let mut i: usize = from;
    while i < n
        invariant
            from <= i <= n,
            n == v@.len(),
            forall|j: int| from <= j < i ==> v@[j] != c,
        decreases n - i,
    {
        if v[i] == c {
            proof {
                lemma_find_from_le(v@, c, from as int, i as int);
            }
            return i;
        }
        i = i + 1;
    }
    proof {
        lemma_find_from_le(v@, c, from as int, n as int);
    }
    n
}

/// Finding in a tail of `s` is finding in `s`, shifted.
pub proof fn lemma_find_subrange(s: Seq<char>, c: char, a: int)
    requires
        0 <= a <= s.len(),
    ensures
        spec_find(s.subrange(a, s.len() as int), c, 0) == spec_find(s, c, a) - a,
{
    lemma_find_subrange_at(s, c, a, a);
}

/// Finding in a tail of `s` from any offset is finding in `s`, shifted.
proof fn lemma_find_subrange_at(s: Seq<char>, c: char, a: int, j: int)
    requires
        0 <= a <= j <= s.len(),
    ensures
        spec_find(s.subrange(a, s.len() as int), c, j - a) == spec_find(s, c, j) - a,
    decreases s.len() - j,
{
    let t = s.subrange(a, s.len() as int);
    if j < s.len() {
        assert(t[j - a] == s[j]);
        if s[j] != c {
            lemma_find_subrange_at(s, c, a, j + 1);
        }
    }
}

/// `spec_find` gives the same answer from any start at or before the first
/// occurrence.
pub proof fn lemma_find_from_le(s: Seq<char>, c: char, from: int, mid: int)
    requires
        0 <= from <= mid <= s.len(),
        forall|j: int| from <= j < mid ==> s[j] != c,
    ensures
        spec_find(s, c, from) == spec_find(s, c, mid),
    decreases mid - from,
{
    if from < mid {
        lemma_find_from_le(s, c, from + 1, mid);
    }
}

/// Whether `p` occurs in `s` at position `i`.
pub open spec fn spec_begins(s: Seq<char>, p: Seq<char>, i: int) -> bool {
    0 <= i && i + p.len() <= s.len() && s.subrange(i, i + p.len()) == p
}

/// Whether `p` occurs in `v` at position `at`.
pub fn begins_with(v: &Vec<char>, p: &str, at: usize) -> (r: bool)
    ensures
        r == spec_begins(v@, p@, at as int),
{
    let m = p.unicode_len();
    let n = v.len();
    if at > n || n - at < m {
        return false;
    }
    let mut j: usize = 0;
    while j < m
        invariant
            0 <= j <= m,
            m == p@.len(),
            n == v@.len(),
            at + m <= n,
            forall|q: int| 0 <= q < j ==> v@[at + q] == p@[q],
        decreases m - j,
    {
        if v[at + j] != p.get_char(j) {
            proof {
                assert(v@.subrange(at as int, at + m) != p@) by {
                    assert(v@.subrange(at as int, at + m)[j as int] == v@[at + j]);
                }
            }
            return false;
        }
        j = j + 1;
    }
    proof {
        assert(v@.subrange(at as int, at + m) =~= p@);
    }
    true
}

/// Appends the characters of `s` to `out`.
pub fn push_chars(out: &mut Vec<char>, s: &Vec<char>)
    ensures
        final(out)@ == old(out)@ + s@,
{
    let n = s.len();
    let mut i: usize = 0;
    while i < n
        invariant
            i <= n,
            n == s@.len(),
            out@ == old(out)@ + s@.subrange(0, i as int),
        decreases n - i,
    {
        out.push(s[i]);
        i = i + 1;
        proof {
            assert(out@ =~= old(out)@ + s@.subrange(0, i as int));
        }
    }
    proof {
        assert(out@ =~= old(out)@ + s@);
    }
}

/// Appends the characters of `s` to `out`.
pub fn push_str_chars(out: &mut Vec<char>, s: &str)
    ensures
        final(out)@ == old(out)@ + s@,
{
    let n = s.unicode_len();
    let mut i: usize = 0;
    while i < n
        invariant
            i <= n,
            n == s@.len(),
            out@ == old(out)@ + s@.subrange(0, i as int),
        decreases n - i,
    {
        out.push(s.get_char(i));
        i = i + 1;
        proof {
            assert(out@ =~= old(out)@ + s@.subrange(0, i as int));
        }
    }
    proof {
        assert(out@ =~= old(out)@ + s@);
    }
}

} // verus!
