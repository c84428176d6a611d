//! Character-level helpers for turning text into cells and back.
use vstd::prelude::*;
use crate::grid::digit_char;

verus! {

/// Collects the characters of `s`, in order.
pub fn chars_of(s: &str) -> (r: Vec<char>)
    ensures
        r@ == s@,
{
    broadcast use vstd::string::axiom_spec_iter;
    let mut r: Vec<char> = Vec::new();
    for c in it: s.chars()
        invariant
            it.seq() == s@,
            r@ == it.seq().take(it.index() as int),
    {
        r.push(c);
    }
    r
}

/// Relies on `String::push`: appends one character at the end.
#[verifier::external_body]
pub(crate) fn push_char(s: &mut String, c: char)
    ensures
        final(s)@ == old(s)@.push(c),
{
    s.push(c)
}

pub fn digit_to_char(d: u8) -> (c: char)
    requires d < 10
    ensures c == digit_char(d as nat),
{
    (d + 48) as char
}

} // verus!
