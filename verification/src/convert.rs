//! Conversions between small strings and the string types of `std`.
//!
//! A small string made from other text holds exactly that text, and is on
//! the heap exactly when the text does not fit inline. No conversion has a
//! spec-level twin: what each returns is stated by the `ensures` of its
//! `from`.

use crate::backend;
use crate::backend::inline_capacity;
use crate::model::byte_len;
use crate::small_string::SmallString;
use core::convert::Infallible;
use core::str::FromStr;
use std::borrow::Cow;
use vstd::prelude::*;
use vstd::std_specs::convert::FromSpecImpl;
use vstd::utf8::*;

verus! {

impl From<String> for SmallString {
    fn from(s: String) -> (r: SmallString)
        ensures
            r@ == s@,
            r.is_heap() == (byte_len(s@) > inline_capacity()),
    {
        SmallString::from_inner(backend::from_string(s))
    }
}

impl FromSpecImpl<String> for SmallString {
    open spec fn obeys_from_spec() -> bool {
        false
    }

    open spec fn from_spec(v: String) -> SmallString {
        arbitrary()
    }
}

impl From<&String> for SmallString {
    fn from(s: &String) -> (r: SmallString)
        ensures
            r@ == s@,
            r.is_heap() == (byte_len(s@) > inline_capacity()),
    {
        SmallString::from_inner(backend::from_str(s.as_str()))
    }
}

impl FromSpecImpl<&String> for SmallString {
    open spec fn obeys_from_spec() -> bool {
        false
    }

    open spec fn from_spec(v: &String) -> SmallString {
        arbitrary()
    }
}

impl From<&str> for SmallString {
    fn from(s: &str) -> (r: SmallString)
        ensures
            r@ == s@,
            r.is_heap() == (byte_len(s@) > inline_capacity()),
    {
        SmallString::from_inner(backend::from_str(s))
    }
}

impl FromSpecImpl<&str> for SmallString {
    open spec fn obeys_from_spec() -> bool {
        false
    }

    open spec fn from_spec(v: &str) -> SmallString {
        arbitrary()
    }
}

impl From<Box<str>> for SmallString {
    fn from(s: Box<str>) -> (r: SmallString)
        ensures
            r@ == s@,
            r.is_heap() == (byte_len(s@) > inline_capacity()),
    {
        SmallString::from_inner(backend::from_str(&*s))
    }
}

impl FromSpecImpl<Box<str>> for SmallString {
    open spec fn obeys_from_spec() -> bool {
        false
    }

    open spec fn from_spec(v: Box<str>) -> SmallString {
        arbitrary()
    }
}

impl From<SmallString> for String {
    fn from(s: SmallString) -> (r: String)
        ensures
            r@ == s@,
    {
        backend::into_string(s.into_inner())
    }
}

impl FromSpecImpl<SmallString> for String {
    open spec fn obeys_from_spec() -> bool {
        false
    }

    open spec fn from_spec(v: SmallString) -> String {
        arbitrary()
    }
}

impl From<SmallString> for Box<str> {
    fn from(s: SmallString) -> (r: Box<str>)
        ensures
            r@ == s@,
    {
        s.into_boxed_str()
    }
}

impl FromSpecImpl<SmallString> for Box<str> {
    open spec fn obeys_from_spec() -> bool {
        false
    }

    open spec fn from_spec(v: SmallString) -> Box<str> {
        arbitrary()
    }
}

impl From<SmallString> for Vec<u8> {
    fn from(s: SmallString) -> (r: Vec<u8>)
        ensures
            r@ == encode_utf8(s@),
    {
        s.into_bytes()
    }
}

impl FromSpecImpl<SmallString> for Vec<u8> {
    open spec fn obeys_from_spec() -> bool {
        false
    }

    open spec fn from_spec(v: SmallString) -> Vec<u8> {
        arbitrary()
    }
}

impl<'a> From<SmallString> for Cow<'a, str> {
    fn from(s: SmallString) -> (r: Cow<'a, str>)
        ensures
            r@ == s@,
    {
        Cow::Owned(backend::into_string(s.into_inner()))
    }
}

impl<'a> FromSpecImpl<SmallString> for Cow<'a, str> {
    open spec fn obeys_from_spec() -> bool {
        false
    }

    open spec fn from_spec(v: SmallString) -> Cow<'a, str> {
        arbitrary()
    }
}

impl FromStr for SmallString {
    type Err = Infallible;

    fn from_str(s: &str) -> (r: Result<SmallString, Infallible>)
        ensures
            r matches Ok(text) && text@ == s@ && text.is_heap() == (byte_len(s@)
                > inline_capacity()),
    {
        Ok(SmallString::from_inner(backend::from_str(s)))
    }
}

} // verus!
