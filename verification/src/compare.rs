//! Equality: two small strings, or a small string and a plain one, are equal
//! when their texts are.

use crate::backend;
use crate::small_string::SmallString;
use vstd::prelude::*;
use vstd::std_specs::cmp::PartialEqSpecImpl;

verus! {

impl PartialEq for SmallString {
    fn eq(&self, other: &SmallString) -> (r: bool) {
        backend::eq(self.inner(), other.inner())
    }
}

impl PartialEqSpecImpl for SmallString {
    open spec fn obeys_eq_spec() -> bool {
        true
    }

    open spec fn eq_spec(&self, other: &SmallString) -> bool {
        self@ == other@
    }
}

impl Eq for SmallString {

}

impl PartialEq<str> for SmallString {
    fn eq(&self, other: &str) -> (r: bool) {
        backend::eq_str(self.inner(), other)
    }
}

impl PartialEqSpecImpl<str> for SmallString {
    open spec fn obeys_eq_spec() -> bool {
        true
    }

    open spec fn eq_spec(&self, other: &str) -> bool {
        self@ == other@
    }
}

impl PartialEq<SmallString> for str {
    fn eq(&self, other: &SmallString) -> (r: bool) {
        backend::eq_str(other.inner(), self)
    }
}

impl PartialEqSpecImpl<SmallString> for str {
    open spec fn obeys_eq_spec() -> bool {
        true
    }

    open spec fn eq_spec(&self, other: &SmallString) -> bool {
        self@ == other@
    }
}

impl PartialEq<String> for SmallString {
    fn eq(&self, other: &String) -> (r: bool) {
        backend::eq_str(self.inner(), other.as_str())
    }
}

impl PartialEqSpecImpl<String> for SmallString {
    open spec fn obeys_eq_spec() -> bool {
        true
    }

    open spec fn eq_spec(&self, other: &String) -> bool {
        self@ == other@
    }
}

impl PartialEq<SmallString> for String {
    fn eq(&self, other: &SmallString) -> (r: bool) {
        backend::eq_str(other.inner(), self.as_str())
    }
}

impl PartialEqSpecImpl<SmallString> for String {
    open spec fn obeys_eq_spec() -> bool {
        true
    }

    open spec fn eq_spec(&self, other: &SmallString) -> bool {
        self@ == other@
    }
}

} // verus!
