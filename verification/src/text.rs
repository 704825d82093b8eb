//! Characters and small string utilities that the extractors build on.

use vstd::prelude::*;
use vstd::string::StrSliceExecFns;

verus! {

/// Whether a character counts as alphanumeric, exactly as
/// `char::is_alphanumeric` decides it: a property of the character alone.
pub uninterp spec fn unicode_alphanumeric(c: char) -> bool;

/// Whether a character counts as whitespace, exactly as
/// `char::is_whitespace` decides it: a property of the character alone.
pub uninterp spec fn unicode_whitespace(c: char) -> bool;

/// Relies on `char::is_alphanumeric`: whether the character lies in one of
/// the Unicode letter or number categories, a fact of the character alone.
pub assume_specification[ char::is_alphanumeric ](c: char) -> (r: bool)
    ensures
        r == unicode_alphanumeric(c),
;

/// Relies on `char::is_whitespace`: whether the character has the Unicode
/// `White_Space` property, a fact of the character alone.
pub assume_specification[ char::is_whitespace ](c: char) -> (r: bool)
    ensures
        r == unicode_whitespace(c),
;

/// Relies on `String::push`: appends the given character at the end of the
/// string and changes nothing else.
pub assume_specification[ String::push ](s: &mut String, c: char)
    ensures
        final(s)@ == old(s)@.push(c),
;

/// A character that may stand inside a class token: alphanumeric, `-` or `_`.
pub open spec fn is_class_char(c: char) -> bool {
    unicode_alphanumeric(c) || c == '-' || c == '_'
}

/// Executable counterpart of `is_class_char`.
pub fn check_class_char(c: char) -> (r: bool)
    ensures
        r == is_class_char(c),
{
    c.is_alphanumeric() || c == '-' || c == '_'
}

/// The characters of a string slice, collected into a vector.
pub fn chars_of(s: &str) -> (v: Vec<char>)
    ensures
        v@ == s@,
{
    let n: usize = s.unicode_len();
    let mut v: Vec<char> = Vec::new();
    let mut i: usize = 0;
    while i < n
        invariant
            n == s@.len(),
            i <= n,
            v@ == s@.subrange(0, i as int),
        decreases n - i,
    {
        let c = s.get_char(i);
        v.push(c);
        assert(v@ =~= s@.subrange(0, i as int + 1));
        i += 1;
    }
    assert(v@ =~= s@);
    v
}

/// An element of either part of a concatenation is an element of the whole.
pub proof fn lemma_concat_contains<A>(a: Seq<A>, b: Seq<A>, t: A)
    requires
        a.contains(t) || b.contains(t),
    ensures
        (a + b).contains(t),
{
    if a.contains(t) {
        let j = choose|j: int| 0 <= j < a.len() && a[j] == t;
        assert((a + b)[j] == t);
    } else {
        let j = choose|j: int| 0 <= j < b.len() && b[j] == t;
        assert((a + b)[a.len() + j] == t);
    }
}

/// The string holding exactly the given characters.
pub fn string_of(chars: &Vec<char>) -> (s: String)
    ensures
        s@ == chars@,
{
    let mut s = String::new();
    let mut i: usize = 0;
    while i < chars.len()
        invariant
            i <= chars@.len(),
            s@ == chars@.subrange(0, i as int),
        decreases chars@.len() - i,
    {
        s.push(chars[i]);
        assert(s@ =~= chars@.subrange(0, i as int + 1));
        i += 1;
    }
    assert(s@ =~= chars@);
    s
}

} // verus!
