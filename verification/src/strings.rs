//! Contracts for the two operations of the standard library's strings that the
//! crate relies on and that `vstd` leaves without a specification. Nothing in
//! this file is proved: each contract restates the documented behaviour of the
//! function it names.

use vstd::prelude::*;

verus! {

/// `String::push` appends the given character to the end of the string and
/// leaves what was there before untouched.
pub assume_specification[ String::push ](s: &mut String, c: char)
    ensures
        final(s)@ == old(s)@.push(c),
;

/// `==` on string slices (`str::eq`) holds exactly when both slices are the
/// same sequence of characters.
pub assume_specification[ <str as PartialEq>::eq ](a: &str, b: &str) -> (same: bool)
    ensures
        same == (a@ == b@),
;

} // verus!
