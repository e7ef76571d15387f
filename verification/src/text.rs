//! Small helpers for building `String` values character by character.

use vstd::prelude::*;

verus! {

/// Relies on `String::push`: appends exactly the one character `c` to `s`.
#[verifier::external_body]
pub fn push_char(s: &mut String, c: char)
    ensures
        final(s)@ == old(s)@.push(c),
{
    s.push(c)
}

} // verus!
