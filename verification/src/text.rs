//! Verified helpers on strings and character vectors.
//!
//! The feed is decoded character by character, so the parser works on
//! `Vec<char>`; these helpers move between that representation and the
//! `String`s of the public record type.

use vstd::prelude::*;

verus! {

/// Relies on std's `String::push`: it appends the given character to the
/// end of the string.
pub assume_specification[ String::push ](s: &mut String, c: char)
    ensures
        final(s)@ == old(s)@.push(c),
;

/// The characters of `s`, as a vector.
pub fn chars_of(s: &str) -> (r: Vec<char>)
    ensures
        r@ == s@,
{
    let n = s.unicode_len();
    let mut r: Vec<char> = Vec::new();
    for i in 0..n
        invariant
            n == s@.len(),
            r@ =~= s@.subrange(0, i as int),
    {
        r.push(s.get_char(i));
    }
    proof {
        assert(r@ =~= s@);
    }
    r
}

/// A `String` holding exactly the given characters.
pub fn string_from_chars(chars: &Vec<char>) -> (s: String)
    ensures
        s@ == chars@,
{
    let mut s = String::new();
    for i in 0..chars.len()
        invariant
            s@ =~= chars@.subrange(0, i as int),
    {
        s.push(chars[i]);
    }
    proof {
        assert(s@ =~= chars@);
    }
    s
}

/// Character-wise equality of two string slices.
pub fn str_eq(a: &str, b: &str) -> (r: bool)
    ensures
        r == (a@ == b@),
{
    let na = a.unicode_len();
    let nb = b.unicode_len();
    if na != nb {
        return false;
    }
    for i in 0..na
        invariant
            na == a@.len(),
            na == b@.len(),
            forall|j: int| 0 <= j < i ==> a@[j] == b@[j],
    {
        if a.get_char(i) != b.get_char(i) {
            return false;
        }
    }
    proof {
        assert(a@ =~= b@);
    }
    true
}

/// Character-wise equality of a character vector and a string slice.
pub fn chars_eq_str(v: &Vec<char>, s: &str) -> (r: bool)
    ensures
        r == (v@ == s@),
{
    let ns = s.unicode_len();
    if v.len() != ns {
        return false;
    }
    for i in 0..ns
        invariant
            ns == s@.len(),
            ns == v@.len(),
            forall|j: int| 0 <= j < i ==> v@[j] == s@[j],
    {
        if v[i] != s.get_char(i) {
            return false;
        }
    }
    proof {
        assert(v@ =~= s@);
    }
    true
}

} // verus!
