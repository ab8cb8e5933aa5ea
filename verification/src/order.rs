//! Order: small strings are ordered as their texts are, byte by byte.

use crate::backend::text_of;
use crate::model::bytes_less;
use crate::small_string::SmallString;
use core::cmp::Ordering;
use inlinable_string::InlinableString;
use vstd::prelude::*;
use vstd::std_specs::cmp::PartialOrdSpecImpl;
use vstd::utf8::encode_utf8;

verus! {

/// How text `a` stands to text `b` in the order of their bytes.
pub open spec fn text_order(a: Seq<char>, b: Seq<char>) -> Ordering {
    if a == b {
        Ordering::Equal
    } else if bytes_less(encode_utf8(a), encode_utf8(b)) {
        Ordering::Less
    } else {
        Ordering::Greater
    }
}

/// `Ord::cmp` of `InlinableString`, which compares the two texts as string
/// slices: lexicographically, by their bytes.
#[verifier::external_body]
fn backend_order(a: &InlinableString, b: &InlinableString) -> (r: Ordering)
    ensures
        r == text_order(text_of(*a), text_of(*b)),
{
    a.cmp(b)
}

impl PartialOrd for SmallString {
    fn partial_cmp(&self, other: &SmallString) -> (r: Option<Ordering>) {
        Some(backend_order(self.inner(), other.inner()))
    }
}

impl PartialOrdSpecImpl for SmallString {
    open spec fn obeys_partial_cmp_spec() -> bool {
        true
    }

    open spec fn partial_cmp_spec(&self, other: &SmallString) -> Option<Ordering> {
        Some(text_order(self@, other@))
    }
}

} // verus!
