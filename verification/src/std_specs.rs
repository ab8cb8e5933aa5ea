//! Contracts for the functions of `std` that the library calls and vstd does
//! not specify. None of them is proved.

use vstd::prelude::*;
use vstd::utf8::*;

verus! {

/// `char::len_utf8`: the number of bytes of the character's UTF-8 encoding.
pub assume_specification[ char::len_utf8 ](c: char) -> (n: usize)
    ensures
        n == encode_scalar(c as u32).len(),
;

/// `String::with_capacity`: an empty string.
pub assume_specification[ String::with_capacity ](capacity: usize) -> (s: String)
    ensures
        s@ == Seq::<char>::empty(),
;

/// `String::push_str`: appends the slice.
pub assume_specification[ String::push_str ](s: &mut String, string: &str)
    ensures
        final(s)@ == old(s)@ + string@,
;

/// `String::into_boxed_str`: the same text, boxed.
pub assume_specification[ String::into_boxed_str ](s: String) -> (b: Box<str>)
    ensures
        b@ == s@,
;

/// `Box::<str>::from(&str)`: a boxed copy of the slice.
pub assume_specification<'a>[ <Box<str> as From<&'a str>>::from ](s: &str) -> (b: Box<str>)
    ensures
        b@ == s@,
;

} // verus!
