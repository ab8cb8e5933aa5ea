//! The operator and borrowing traits of `std` on a small string.

use crate::backend;
use crate::model::{between, is_boundary, lemma_between, prefix, suffix};
use crate::small_string::SmallString;
use core::borrow::{Borrow, BorrowMut};
use core::ops::{Add, AddAssign, Deref, DerefMut, Index, Range};
use vstd::prelude::*;
use vstd::string::StringSliceAdditionalSpecFns;
use vstd::std_specs::ops::AddSpecImpl;

verus! {

impl Deref for SmallString {
    type Target = str;

    fn deref(&self) -> (r: &str)
        ensures
            r@ == self@,
    {
        self.as_str()
    }
}

impl DerefMut for SmallString {
    fn deref_mut(&mut self) -> (r: &mut str)
        ensures
            r@ == old(self)@,
            final(self)@ == final(r)@,
            final(self).is_heap() == old(self).is_heap(),
    {
        self.as_mut_str()
    }
}

impl AsRef<str> for SmallString {
    fn as_ref(&self) -> (r: &str)
        ensures
            ({
                let text: &str = r;
                text@ == self@
            }),
    {
        self.as_str()
    }
}

impl AsRef<[u8]> for SmallString {
    fn as_ref(&self) -> (r: &[u8])
        ensures
            ({
                let bytes: &[u8] = r;
                bytes@ == self.spec_bytes()
            }),
    {
        self.as_bytes()
    }
}

impl Borrow<str> for SmallString {
    fn borrow(&self) -> (r: &str)
        ensures
            ({
                let text: &str = r;
                text@ == self@
            }),
    {
        self.as_str()
    }
}

impl BorrowMut<str> for SmallString {
    fn borrow_mut(&mut self) -> (r: &mut str)
        ensures
            ({
                let text: &mut str = r;
                text@ == old(self)@ && final(self)@ == final(text)@
            }),
            final(self).is_heap() == old(self).is_heap(),
    {
        self.as_mut_str()
    }
}

impl Add<&str> for SmallString {
    type Output = SmallString;

    /// The text followed by `other`.
    fn add(self, other: &str) -> (r: SmallString)
        ensures
            r@ == self@ + other@,
    {
        let mut sum = self;
        sum.push_str(other);
        sum
    }
}

impl AddSpecImpl<&str> for SmallString {
    open spec fn obeys_add_spec() -> bool {
        false
    }

    open spec fn add_req(self, other: &str) -> bool {
        true
    }

    open spec fn add_spec(self, other: &str) -> SmallString {
        arbitrary()
    }
}

impl AddAssign<&str> for SmallString {
    /// Appends `other`.
    fn add_assign(&mut self, other: &str)
        ensures
            final(self)@ == old(self)@ + other@,
    {
        self.push_str(other);
    }
}

impl Index<Range<usize>> for SmallString {
    type Output = str;

    /// The text of the bytes in `index`, both ends of which are boundaries.
    fn index(&self, index: Range<usize>) -> (r: &str)
        ensures
            r@ == between(self@, index.start as int, index.end as int),
            r.spec_bytes() == self.spec_bytes().subrange(index.start as int, index.end as int),
            prefix(self@, index.start as int) + r@ + suffix(self@, index.end as int) == self@,
    {
        proof {
            lemma_between(self@, index.start as int, index.end as int);
        }
        backend::slice(self.inner(), index.start, index.end)
    }
}

impl vstd::std_specs::core::IndexSpecImpl<Range<usize>> for SmallString {
    open spec fn index_req(&self, index: &Range<usize>) -> bool {
        &&& index.start <= index.end
        &&& is_boundary(self@, index.start as int)
        &&& is_boundary(self@, index.end as int)
    }
}

} // verus!
