//! The string type.

use crate::backend;
use crate::backend::{inline_capacity, is_valid_up_to, on_heap, text_of};
use crate::edit;
use crate::edit::{answers, askable};
use crate::error::InvalidUtf8;
use crate::model::{
    between, joined, Edit, byte_len, char_width, is_boundary, kept, lemma_byte_len_zero,
    lemma_char_width, lemma_encode_concat, lemma_encode_push,
    lemma_insert_len, lemma_prefix_of_prefix, lemma_split, prefix, suffix,
};
use core::ops::Range;
use inlinable_string::InlinableString;
use vstd::pervasive::unreached;
use vstd::prelude::*;
use vstd::utf8::*;

verus! {

/// An owned string that stores short text inline and long text on the heap.
///
/// The string starts out inline. It moves to the heap when its text outgrows
/// the inline capacity, and it never moves back: which of the two holds can
/// be told from [`SmallString::capacity`] alone, never from the text.
#[derive(Debug, Hash, Ord)]
pub struct SmallString {
    /// Inner string.
    inner: InlinableString,
}

impl View for SmallString {
    type V = Seq<char>;

    /// The text, as a sequence of characters.
    closed spec fn view(&self) -> Seq<char> {
        text_of(self.inner)
    }
}

impl Clone for SmallString {
    /// A copy with the same text in the same storage mode.
    fn clone(&self) -> (r: Self)
        ensures
            r@ == self@,
            r.is_heap() == self.is_heap(),
    {
        Self { inner: backend::clone(&self.inner) }
    }
}

impl Default for SmallString {
    /// The empty string, stored inline.
    fn default() -> (s: Self)
        ensures
            s@ == Seq::<char>::empty(),
            !s.is_heap(),
    {
        Self { inner: backend::new() }
    }
}

impl SmallString {
    /// True when the text lives on the heap, false when it lives inline.
    pub closed spec fn is_heap(&self) -> bool {
        on_heap(self.inner)
    }

    /// The bytes of the text: its UTF-8 encoding.
    pub open spec fn spec_bytes(&self) -> Seq<u8> {
        encode_utf8(self@)
    }

    /// The length of the text in bytes.
    pub open spec fn spec_len(&self) -> nat {
        byte_len(self@)
    }

    /// Wraps a backend string.
    pub(crate) fn from_inner(inner: InlinableString) -> (s: Self)
        ensures
            s@ == text_of(inner),
            s.is_heap() == on_heap(inner),
    {
        Self { inner }
    }

    /// The backend string.
    pub(crate) fn inner(&self) -> (r: &InlinableString)
        ensures
            text_of(*r) == self@,
            on_heap(*r) == self.is_heap(),
    {
        &self.inner
    }

    /// Unwraps the backend string.
    pub(crate) fn into_inner(self) -> (r: InlinableString)
        ensures
            text_of(r) == self@,
            on_heap(r) == self.is_heap(),
    {
        self.inner
    }

    /// Creates a new empty string. It is stored inline.
    pub fn new() -> (s: Self)
        ensures
            s@ == Seq::<char>::empty(),
            !s.is_heap(),
    {
        Self::from_inner(backend::new())
    }

    /// Creates a new empty string with room for `capacity` bytes.
    ///
    /// The room is made at once: the string starts on the heap exactly when
    /// `capacity` is more than fits inline.
    pub fn with_capacity(capacity: usize) -> (s: Self)
        ensures
            s@ == Seq::<char>::empty(),
            s.is_heap() == (capacity > inline_capacity()),
    {
        Self::from_inner(backend::with_capacity(capacity))
    }

    /// Converts a vector of bytes to a string, if the bytes are valid UTF-8.
    ///
    /// On success the string holds exactly the given bytes. On failure the
    /// error holds them, and the offset of the first byte that is not valid.
    pub fn from_utf8(vec: Vec<u8>) -> (r: Result<Self, InvalidUtf8>)
        ensures
            r is Ok <==> valid_utf8(vec@),
            r matches Ok(s) ==> s.spec_bytes() == vec@ && s@ == decode_utf8(vec@) && s.is_heap(),
            r matches Err(e) ==> e.bytes@ == vec@ && is_valid_up_to(vec@, e.valid_up_to as int),
    {
        match backend::from_utf8(vec) {
            Ok(inner) => {
                proof {
                    encode_utf8_decode_utf8(text_of(inner));
                }
                Ok(Self::from_inner(inner))
            },
            Err((bytes, valid_up_to)) => Err(InvalidUtf8 { bytes, valid_up_to }),
        }
    }

    /// Converts a vector of bytes that is known to be valid UTF-8 to a
    /// string.
    pub fn from_utf8_unchecked(bytes: Vec<u8>) -> (s: Self)
        requires
            valid_utf8(bytes@),
        ensures
            s.spec_bytes() == bytes@,
            s@ == decode_utf8(bytes@),
            s.is_heap(),
    {
        match Self::from_utf8(bytes) {
            Ok(s) => s,
            Err(_) => unreached(),
        }
    }

    /// Converts the string into its bytes.
    pub fn into_bytes(self) -> (v: Vec<u8>)
        ensures
            v@ == self.spec_bytes(),
            valid_utf8(v@),
    {
        proof {
            encode_utf8_valid_utf8(self@);
        }
        backend::into_bytes(self.inner)
    }

    /// Extracts a string slice containing the entire string.
    pub fn as_str(&self) -> (r: &str)
        ensures
            r@ == self@,
    {
        backend::as_str(&self.inner)
    }

    /// Converts the string into a mutable string slice. What is left in the
    /// slice is the text afterwards.
    pub fn as_mut_str(&mut self) -> (r: &mut str)
        ensures
            r@ == old(self)@,
            final(self)@ == final(r)@,
            final(self).is_heap() == old(self).is_heap(),
    {
        backend::as_mut_str(&mut self.inner)
    }

    /// Returns the bytes of the text.
    pub fn as_bytes(&self) -> (r: &[u8])
        ensures
            r@ == self.spec_bytes(),
            valid_utf8(r@),
    {
        proof {
            encode_utf8_valid_utf8(self@);
        }
        backend::as_bytes(&self.inner)
    }

    /// Returns the length of the text in bytes, not in characters.
    pub fn len(&self) -> (n: usize)
        ensures
            n == self.spec_len(),
    {
        backend::len(&self.inner)
    }

    /// Returns `true` if the text has a length of zero.
    pub fn is_empty(&self) -> (b: bool)
        ensures
            b == (self@.len() == 0),
            b == (self.spec_len() == 0),
    {
        proof {
            lemma_byte_len_zero(self@);
        }
        backend::is_empty(&self.inner)
    }

    /// Returns the capacity in bytes: the inline capacity while the string
    /// is inline, whatever the heap buffer holds otherwise. It is never
    /// below the length.
    pub fn capacity(&self) -> (n: usize)
        ensures
            n >= self.spec_len(),
            !self.is_heap() ==> n == inline_capacity(),
    {
        backend::capacity(&self.inner)
    }

    /// Makes room for `additional` more bytes than the text has. The text
    /// stays; the string moves to the heap if that much does not fit inline.
    pub fn reserve(&mut self, additional: usize)
        requires
            old(self).spec_len() + additional <= isize::MAX,
        ensures
            final(self)@ == old(self)@,
            final(self).is_heap() == (old(self).is_heap() || old(self).spec_len() + additional
                > inline_capacity()),
    {
        backend::reserve(&mut self.inner, additional)
    }

    /// Makes room for `additional` more bytes than the text has, without
    /// asking for more than that. The text stays; the string moves to the
    /// heap if that much does not fit inline.
    pub fn reserve_exact(&mut self, additional: usize)
        requires
            old(self).spec_len() + additional <= isize::MAX,
        ensures
            final(self)@ == old(self)@,
            final(self).is_heap() == (old(self).is_heap() || old(self).spec_len() + additional
                > inline_capacity()),
    {
        backend::reserve_exact(&mut self.inner, additional)
    }

    /// Gives back heap capacity that the text does not need. The text and
    /// the storage mode stay: a string on the heap does not move back
    /// inline, however short its text. How much capacity is left is for the
    /// allocator to decide, so nothing is promised of it beyond what
    /// [`SmallString::capacity`] always promises.
    pub fn shrink_to_fit(&mut self)
        ensures
            final(self)@ == old(self)@,
            final(self).is_heap() == old(self).is_heap(),
    {
        if backend::is_heap(&self.inner) {
            backend::heap_shrink_to_fit(&mut self.inner);
        }
    }

    /// Appends the given character to the end of the string.
    pub fn push(&mut self, ch: char)
        ensures
            final(self)@ == old(self)@.push(ch),
            final(self)@ == Edit::Push(ch).apply(old(self)@),
            final(self).spec_len() == old(self).spec_len() + char_width(ch),
            1 <= char_width(ch) <= 4,
            final(self).is_heap() == (old(self).is_heap() || final(self).spec_len()
                > inline_capacity()),
    {
        proof {
            lemma_encode_push(self@, ch);
            lemma_char_width(ch);
        }
        backend::push(&mut self.inner, ch)
    }

    /// Appends the given string slice to the end of the string.
    pub fn push_str(&mut self, string: &str)
        ensures
            final(self)@ == old(self)@ + string@,
            final(self)@ == Edit::PushStr(string@).apply(old(self)@),
            final(self).spec_len() == old(self).spec_len() + byte_len(string@),
            final(self).is_heap() == (old(self).is_heap() || final(self).spec_len()
                > inline_capacity()),
    {
        proof {
            lemma_encode_concat(self@, string@);
        }
        backend::push_str(&mut self.inner, string)
    }

    /// Appends the given characters, in their order.
    pub fn extend_chars(&mut self, chars: &[char])
        ensures
            final(self)@ == old(self)@ + chars@,
            final(self).spec_len() == old(self).spec_len() + byte_len(chars@),
            final(self).is_heap() == (old(self).is_heap() || final(self).spec_len()
                > inline_capacity()),
    {
        proof {
            lemma_encode_concat(self@, chars@);
        }
        backend::extend_chars(&mut self.inner, chars)
    }

    /// Appends the given string slices, in their order.
    pub fn extend_strs(&mut self, parts: &[&str])
        ensures
            final(self)@ == old(self)@ + joined(parts@),
            final(self).spec_len() == old(self).spec_len() + byte_len(joined(parts@)),
            final(self).is_heap() == (old(self).is_heap() || old(self).spec_len() + parts@.len()
                > inline_capacity() || final(self).spec_len() > inline_capacity()),
    {
        proof {
            lemma_encode_concat(self@, joined(parts@));
        }
        backend::extend_strs(&mut self.inner, parts)
    }

    /// The text of the bytes in `range` as a mutable string slice. What is
    /// left in the slice takes the place of those bytes.
    pub fn slice_mut(&mut self, range: Range<usize>) -> (r: &mut str)
        requires
            range.start <= range.end,
            is_boundary(old(self)@, range.start as int),
            is_boundary(old(self)@, range.end as int),
        ensures
            r@ == between(old(self)@, range.start as int, range.end as int),
            final(self)@ == prefix(old(self)@, range.start as int) + final(r)@ + suffix(
                old(self)@,
                range.end as int,
            ),
            final(self).is_heap() == old(self).is_heap(),
    {
        backend::slice_mut(&mut self.inner, range.start, range.end)
    }

    /// Inserts a character at byte offset `idx`.
    pub fn insert(&mut self, idx: usize, ch: char)
        requires
            is_boundary(old(self)@, idx as int),
        ensures
            final(self)@ == prefix(old(self)@, idx as int).push(ch) + suffix(
                old(self)@,
                idx as int,
            ),
            final(self)@ == Edit::Insert(idx as int, ch).apply(old(self)@),
            final(self).spec_len() == old(self).spec_len() + char_width(ch),
            final(self).is_heap() == (old(self).is_heap() || final(self).spec_len()
                > inline_capacity()),
    {
        proof {
            let one = seq![ch];
            assert(prefix(self@, idx as int).push(ch) =~= prefix(self@, idx as int) + one);
            lemma_insert_len(self@, idx as int, one);
            lemma_encode_push(Seq::<char>::empty(), ch);
            assert(Seq::<char>::empty().push(ch) =~= one);
            lemma_byte_len_zero(Seq::<char>::empty());
        }
        backend::insert(&mut self.inner, idx, ch)
    }

    /// Inserts a string slice at byte offset `idx`.
    pub fn insert_str(&mut self, idx: usize, string: &str)
        requires
            is_boundary(old(self)@, idx as int),
        ensures
            final(self)@ == prefix(old(self)@, idx as int) + string@ + suffix(
                old(self)@,
                idx as int,
            ),
            final(self)@ == Edit::InsertStr(idx as int, string@).apply(old(self)@),
            final(self).spec_len() == old(self).spec_len() + byte_len(string@),
            final(self).is_heap() == (old(self).is_heap() || final(self).spec_len()
                > inline_capacity()),
    {
        proof {
            lemma_insert_len(self@, idx as int, string@);
        }
        edit::insert_str(&mut self.inner, idx, string)
    }

    /// Removes the last character and returns it, or returns `None` if the
    /// text is empty.
    pub fn pop(&mut self) -> (r: Option<char>)
        ensures
            old(self)@.len() == 0 ==> r.is_none() && final(self)@ == old(self)@,
            old(self)@.len() > 0 ==> r == Some(old(self)@.last()) && final(self)@ == old(
                self,
            )@.drop_last() && final(self).spec_len() == old(self).spec_len() - char_width(
                old(self)@.last(),
            ),
            final(self)@ == Edit::Pop.apply(old(self)@),
            final(self).is_heap() == old(self).is_heap(),
    {
        proof {
            if self@.len() > 0 {
                lemma_encode_push(self@.drop_last(), self@.last());
                assert(self@.drop_last().push(self@.last()) =~= self@);
            }
        }
        backend::pop(&mut self.inner)
    }

    /// Removes the character that starts at byte offset `idx` and returns
    /// it.
    pub fn remove(&mut self, idx: usize) -> (ch: char)
        requires
            is_boundary(old(self)@, idx as int),
            idx < old(self).spec_len(),
        ensures
            ch == suffix(old(self)@, idx as int)[0],
            final(self)@ == prefix(old(self)@, idx as int) + suffix(
                old(self)@,
                idx as int,
            ).drop_first(),
            final(self)@ == Edit::Remove(idx as int).apply(old(self)@),
            final(self).spec_len() == old(self).spec_len() - char_width(ch),
            final(self).is_heap() == old(self).is_heap(),
    {
        proof {
            let head = prefix(self@, idx as int);
            let tail = suffix(self@, idx as int);
            lemma_split(self@, idx as int);
            lemma_byte_len_zero(tail);
            let one = seq![tail[0]];
            assert(one + tail.drop_first() =~= tail);
            lemma_encode_concat(one, tail.drop_first());
            lemma_encode_push(Seq::<char>::empty(), tail[0]);
            assert(Seq::<char>::empty().push(tail[0]) =~= one);
            lemma_byte_len_zero(Seq::<char>::empty());
            lemma_encode_concat(head, tail);
            lemma_encode_concat(head, tail.drop_first());
        }
        backend::remove(&mut self.inner, idx)
    }

    /// Keeps the characters for which `f` answers `true` and removes the
    /// others. `f` is asked once for each character, from the first to the
    /// last, and what stays keeps its order.
    pub fn retain<F>(&mut self, f: F) where F: FnMut(char) -> bool
        requires
            askable(f, old(self)@),
        ensures
            exists|keep: Seq<bool>|
                answers(f, old(self)@, keep) && final(self)@ == kept(old(self)@, keep)
                    && final(self)@ == Edit::Retain(keep).apply(old(self)@),
            final(self).is_heap() == old(self).is_heap(),
    {
        edit::retain(&mut self.inner, f)
    }

    /// Shortens the text to its first `new_len` bytes. Does nothing if the
    /// text is no longer than that.
    pub fn truncate(&mut self, new_len: usize)
        requires
            new_len < old(self).spec_len() ==> is_boundary(old(self)@, new_len as int),
        ensures
            new_len >= old(self).spec_len() ==> final(self)@ == old(self)@,
            new_len < old(self).spec_len() ==> final(self)@ == prefix(old(self)@, new_len as int)
                && final(self).spec_len() == new_len,
            final(self)@ == Edit::Truncate(new_len as int).apply(old(self)@),
            final(self).is_heap() == old(self).is_heap(),
    {
        if new_len < backend::len(&self.inner) {
            proof {
                lemma_split(self@, new_len as int);
            }
            backend::truncate(&mut self.inner, new_len);
        }
    }

    /// Removes all text. The storage mode stays, and with it what a heap
    /// string has allocated.
    pub fn clear(&mut self)
        ensures
            final(self)@ == Seq::<char>::empty(),
            final(self).spec_len() == 0,
            final(self)@ == Edit::Clear.apply(old(self)@),
            final(self).is_heap() == old(self).is_heap(),
    {
        proof {
            lemma_byte_len_zero(Seq::<char>::empty());
        }
        backend::clear(&mut self.inner)
    }

    /// Splits the string in two at byte offset `at`: this string keeps the
    /// bytes before `at`, the returned string holds the bytes from `at` on.
    /// The two, joined again, are the text as it was.
    pub fn split_off(&mut self, at: usize) -> (other: Self)
        requires
            is_boundary(old(self)@, at as int),
        ensures
            final(self)@ == prefix(old(self)@, at as int),
            final(self)@ == Edit::SplitOff(at as int).apply(old(self)@),
            other@ == suffix(old(self)@, at as int),
            final(self)@ + other@ == old(self)@,
            final(self).spec_bytes() + other.spec_bytes() == old(self).spec_bytes(),
            final(self).spec_len() == at,
            other.spec_len() == old(self).spec_len() - at,
            final(self).is_heap() == old(self).is_heap(),
            other.is_heap() == (other.spec_len() > inline_capacity()),
    {
        proof {
            lemma_split(self@, at as int);
            lemma_encode_concat(prefix(self@, at as int), suffix(self@, at as int));
        }
        Self::from_inner(edit::split_off(&mut self.inner, at))
    }

    /// Removes the bytes in `range` and puts `replace_with` in their place.
    /// The replacement need not have the length of what it replaces.
    pub fn replace_range(&mut self, range: Range<usize>, replace_with: &str)
        requires
            range.start <= range.end,
            is_boundary(old(self)@, range.start as int),
            is_boundary(old(self)@, range.end as int),
        ensures
            final(self)@ == prefix(old(self)@, range.start as int) + replace_with@ + suffix(
                old(self)@,
                range.end as int,
            ),
            final(self)@ == Edit::ReplaceRange(
                range.start as int,
                range.end as int,
                replace_with@,
            ).apply(old(self)@),
            final(self).spec_len() == old(self).spec_len() - (range.end - range.start) + byte_len(
                replace_with@,
            ),
            final(self).is_heap() == (old(self).is_heap() || final(self).spec_len()
                > inline_capacity()),
    {
        let ghost text = self@;
        let ghost head = prefix(text, range.start as int);
        let ghost tail = suffix(text, range.end as int);
        proof {
            lemma_split(text, range.start as int);
            lemma_split(text, range.end as int);
            lemma_prefix_of_prefix(text, range.start as int, range.end as int);
            lemma_encode_concat(head, replace_with@);
            lemma_encode_concat(head + replace_with@, tail);
        }
        let rest = edit::split_off(&mut self.inner, range.end);
        backend::truncate(&mut self.inner, range.start);
        backend::push_str(&mut self.inner, replace_with);
        backend::push_str(&mut self.inner, backend::as_str(&rest));
    }

    /// Converts the string into a boxed string slice.
    pub fn into_boxed_str(self) -> (b: Box<str>)
        ensures
            b@ == self@,
    {
        if backend::is_heap(&self.inner) {
            backend::into_string(self.inner).into_boxed_str()
        } else {
            Box::from(backend::as_str(&self.inner))
        }
    }
}

} // verus!
