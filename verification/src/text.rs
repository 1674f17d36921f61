//! Small text helpers: turning a `&str` into its characters, building a
//! `String` back up from characters, and comparing names.

use vstd::prelude::*;

verus! {

/// The characters of a string slice, in order.
pub fn str_to_chars(s: &str) -> (r: Vec<char>)
    ensures
        r@ == s@,
{
    let n: usize = s.unicode_len();
    let mut r: Vec<char> = Vec::new();
    let mut i: usize = 0;
    while i < n
        invariant
            i <= n,
            n == s@.len(),
            r@ == s@.subrange(0, i as int),
        decreases n - i,
    {
        r.push(s.get_char(i));
        i = i + 1;
    }
    assert(r@ == s@.subrange(0, n as int));
    assert(s@.subrange(0, n as int) =~= s@);
    r
}

/// Relies on String::push: appends the given character to the end of
/// the string.
#[verifier::external_body]
pub fn push_char(s: &mut String, c: char)
    ensures
        final (s)@ == old(s)@.push(c),
{
    s.push(c);
}

/// A `String` holding exactly the given characters.
pub fn string_from_chars(cs: &Vec<char>) -> (r: String)
    ensures
        r@ == cs@,
{
    let mut r = String::new();
    let mut i: usize = 0;
    while i < cs.len()
        invariant
            i <= cs@.len(),
            r@ == cs@.subrange(0, i as int),
        decreases cs@.len() - i,
    {
        push_char(&mut r, cs[i]);
        assert(r@ == cs@.subrange(0, i + 1 as int));
        i = i + 1;
    }
    assert(cs@.subrange(0, cs@.len() as int) =~= cs@);
    r
}

/// Whether a string equals a literal, by characters.
pub fn string_eq_str(a: &String, b: &str) -> (r: bool)
    ensures
        r == (a@ == b@),
{
    let bs = String::from_str(b);
    *a == bs
}

} // verus!
