//! The storage behind a small string: `inlinable_string::InlinableString`.
//!
//! Nothing in this file is proved. Each function makes one call into the
//! `inlinable_string` crate (or into `std`, on the heap string that the
//! crate holds) and states, over [`text_of`] and [`on_heap`], what that call
//! does. Running out of memory and asking the allocator for more than it can
//! address are outside these contracts, as they are outside vstd's contracts
//! for `Vec` and `String`.

use crate::model::{between, byte_len, char_width, is_boundary, joined, prefix, suffix};
use inlinable_string::InlinableString;
use inlinable_string::StringExt;
use inlinable_string::INLINE_STRING_CAPACITY;
use vstd::prelude::*;
use vstd::utf8::*;

verus! {

/// `inlinable_string::InlinableString`, opaque to the verifier.
#[verifier::external_type_specification]
#[verifier::external_body]
pub struct ExInlinableString(InlinableString);

/// The characters that a backend string holds.
pub uninterp spec fn text_of(s: InlinableString) -> Seq<char>;

/// True when a backend string is its `Heap` variant, false when it is its
/// `Inline` variant.
pub uninterp spec fn on_heap(s: InlinableString) -> bool;

/// The number of bytes that fit inline: 30 where pointers have 64 bits, 14
/// where they have 32.
pub open spec fn inline_capacity() -> nat {
    if usize::BITS == 64 {
        30
    } else {
        14
    }
}

/// True when `n` is the length of the longest prefix of `bytes` that is valid
/// UTF-8.
pub open spec fn is_valid_up_to(bytes: Seq<u8>, n: int) -> bool {
    &&& 0 <= n <= bytes.len()
    &&& valid_utf8(bytes.subrange(0, n))
    &&& forall|m: int| n < m <= bytes.len() ==> !valid_utf8(#[trigger] bytes.subrange(0, m))
}

/// `inlinable_string::INLINE_STRING_CAPACITY`: the constant is 30 or 14, by
/// the target's pointer width.
#[verifier::external_body]
pub(crate) fn inline_limit() -> (n: usize)
    ensures
        n == inline_capacity(),
{
    INLINE_STRING_CAPACITY
}

/// Tells the variants of `InlinableString` apart. An inline string never
/// holds more than `INLINE_STRING_CAPACITY` bytes.
#[verifier::external_body]
pub(crate) fn is_heap(s: &InlinableString) -> (b: bool)
    ensures
        b == on_heap(*s),
        !b ==> byte_len(text_of(*s)) <= inline_capacity(),
{
    match s {
        InlinableString::Heap(_) => true,
        InlinableString::Inline(_) => false,
    }
}

/// `InlinableString::new`: the empty string, inline.
#[verifier::external_body]
pub(crate) fn new() -> (s: InlinableString)
    ensures
        text_of(s) == Seq::<char>::empty(),
        !on_heap(s),
{
    InlinableString::new()
}

/// `InlinableString::with_capacity`: the empty string, on the heap exactly
/// when more than the inline capacity is asked for.
#[verifier::external_body]
pub(crate) fn with_capacity(capacity: usize) -> (s: InlinableString)
    ensures
        text_of(s) == Seq::<char>::empty(),
        on_heap(s) == (capacity > inline_capacity()),
{
    InlinableString::with_capacity(capacity)
}

/// `InlinableString::from_utf8`, which is `String::from_utf8` with the
/// result stored on the heap. It succeeds exactly on valid UTF-8. The error
/// is handed on as the bytes that were given and
/// `Utf8Error::valid_up_to`, the length of their longest valid prefix.
#[verifier::external_body]
pub(crate) fn from_utf8(vec: Vec<u8>) -> (r: Result<InlinableString, (Vec<u8>, usize)>)
    ensures
        r is Ok <==> valid_utf8(vec@),
        r matches Ok(s) ==> encode_utf8(text_of(s)) == vec@ && on_heap(s),
        r matches Err(e) ==> e.0@ == vec@ && is_valid_up_to(vec@, e.1 as int),
{
    match InlinableString::from_utf8(vec) {
        Ok(s) => Ok(s),
        Err(e) => {
            let n = e.utf8_error().valid_up_to();
            Err((e.into_bytes(), n))
        },
    }
}

/// `InlinableString::from(String)`: the same text, on the heap exactly when
/// it does not fit inline.
#[verifier::external_body]
pub(crate) fn from_string(string: String) -> (s: InlinableString)
    ensures
        text_of(s) == string@,
        on_heap(s) == (byte_len(string@) > inline_capacity()),
{
    InlinableString::from(string)
}

/// `InlinableString::from(&str)`: the same text, on the heap exactly when it
/// does not fit inline.
#[verifier::external_body]
pub(crate) fn from_str(string: &str) -> (s: InlinableString)
    ensures
        text_of(s) == string@,
        on_heap(s) == (byte_len(string@) > inline_capacity()),
{
    InlinableString::from(string)
}

/// The variant constructor `InlinableString::Heap`.
#[verifier::external_body]
pub(crate) fn from_heap(string: String) -> (s: InlinableString)
    ensures
        text_of(s) == string@,
        on_heap(s),
{
    InlinableString::Heap(string)
}

/// Takes the text out as a `String`: the heap string itself, or a copy of
/// the inline bytes made by `String::from`.
#[verifier::external_body]
pub(crate) fn into_string(s: InlinableString) -> (string: String)
    ensures
        string@ == text_of(s),
{
    match s {
        InlinableString::Heap(h) => h,
        InlinableString::Inline(i) => String::from(&*i),
    }
}

/// `InlinableString::into_bytes`: the UTF-8 encoding of the text.
#[verifier::external_body]
pub(crate) fn into_bytes(s: InlinableString) -> (v: Vec<u8>)
    ensures
        v@ == encode_utf8(text_of(s)),
{
    s.into_bytes()
}

/// `Deref::deref` of `InlinableString`: the text as a string slice.
#[verifier::external_body]
pub(crate) fn as_str(s: &InlinableString) -> (r: &str)
    ensures
        r@ == text_of(*s),
{
    &**s
}

/// `DerefMut::deref_mut` of `InlinableString`: the text as a mutable string
/// slice. What the caller leaves in the slice is the text afterwards; the
/// variant does not change.
#[verifier::external_body]
pub(crate) fn as_mut_str(s: &mut InlinableString) -> (r: &mut str)
    ensures
        r@ == text_of(*old(s)),
        text_of(*final(s)) == final(r)@,
        on_heap(*final(s)) == on_heap(*old(s)),
{
    &mut **s
}

/// `InlinableString::as_bytes`: the UTF-8 encoding of the text.
#[verifier::external_body]
pub(crate) fn as_bytes(s: &InlinableString) -> (r: &[u8])
    ensures
        r@ == encode_utf8(text_of(*s)),
{
    s.as_bytes()
}

/// `InlinableString::len`: the length of the text in bytes.
#[verifier::external_body]
pub(crate) fn len(s: &InlinableString) -> (n: usize)
    ensures
        n == byte_len(text_of(*s)),
{
    s.len()
}

/// `StringExt::is_empty`, which tests `len() == 0`.
#[verifier::external_body]
pub(crate) fn is_empty(s: &InlinableString) -> (b: bool)
    ensures
        b == (text_of(*s).len() == 0),
{
    s.is_empty()
}

/// `InlinableString::capacity`: the inline capacity for an inline string,
/// the heap string's capacity otherwise. Neither is below the length.
#[verifier::external_body]
pub(crate) fn capacity(s: &InlinableString) -> (n: usize)
    ensures
        n >= byte_len(text_of(*s)),
        !on_heap(*s) ==> n == inline_capacity(),
{
    s.capacity()
}

/// `InlinableString::reserve`. The text stays; an inline string moves to the
/// heap exactly when its length and `additional` together pass the inline
/// capacity. The sum is computed in `usize`, hence the bound.
#[verifier::external_body]
pub(crate) fn reserve(s: &mut InlinableString, additional: usize)
    requires
        byte_len(text_of(*old(s))) + additional <= isize::MAX,
    ensures
        text_of(*final(s)) == text_of(*old(s)),
        on_heap(*final(s)) == (on_heap(*old(s)) || byte_len(text_of(*old(s))) + additional
            > inline_capacity()),
{
    s.reserve(additional)
}

/// `InlinableString::reserve_exact`, which differs from `reserve` only in
/// how much the heap string may over-allocate.
#[verifier::external_body]
pub(crate) fn reserve_exact(s: &mut InlinableString, additional: usize)
    requires
        byte_len(text_of(*old(s))) + additional <= isize::MAX,
    ensures
        text_of(*final(s)) == text_of(*old(s)),
        on_heap(*final(s)) == (on_heap(*old(s)) || byte_len(text_of(*old(s))) + additional
            > inline_capacity()),
{
    s.reserve_exact(additional)
}

/// `String::shrink_to_fit` on the heap string of the `Heap` variant. The
/// text and the variant stay.
#[verifier::external_body]
pub(crate) fn heap_shrink_to_fit(s: &mut InlinableString)
    requires
        on_heap(*old(s)),
    ensures
        text_of(*final(s)) == text_of(*old(s)),
        on_heap(*final(s)),
{
    match s {
        InlinableString::Heap(h) => h.shrink_to_fit(),
        InlinableString::Inline(_) => (),
    }
}

/// `InlinableString::push`. An inline string moves to the heap exactly when
/// the character no longer fits.
#[verifier::external_body]
pub(crate) fn push(s: &mut InlinableString, ch: char)
    ensures
        text_of(*final(s)) == text_of(*old(s)).push(ch),
        on_heap(*final(s)) == (on_heap(*old(s)) || byte_len(text_of(*old(s))) + char_width(ch)
            > inline_capacity()),
{
    s.push(ch)
}

/// `InlinableString::push_str`. An inline string moves to the heap exactly
/// when the addition no longer fits.
#[verifier::external_body]
pub(crate) fn push_str(s: &mut InlinableString, string: &str)
    ensures
        text_of(*final(s)) == text_of(*old(s)) + string@,
        on_heap(*final(s)) == (on_heap(*old(s)) || byte_len(text_of(*old(s))) + byte_len(string@)
            > inline_capacity()),
{
    s.push_str(string)
}

/// `Extend<&char>::extend` of `InlinableString`, which reserves room for as
/// many bytes as there are characters and then pushes each.
#[verifier::external_body]
pub(crate) fn extend_chars(s: &mut InlinableString, chars: &[char])
    ensures
        text_of(*final(s)) == text_of(*old(s)) + chars@,
        on_heap(*final(s)) == (on_heap(*old(s)) || byte_len(text_of(*old(s))) + byte_len(chars@)
            > inline_capacity()),
{
    s.extend(chars.iter())
}

/// `Extend<&str>::extend` of `InlinableString`, which reserves room for as
/// many bytes as there are slices and then appends each.
#[verifier::external_body]
pub(crate) fn extend_strs(s: &mut InlinableString, parts: &[&str])
    ensures
        text_of(*final(s)) == text_of(*old(s)) + joined(parts@),
        on_heap(*final(s)) == (on_heap(*old(s)) || byte_len(text_of(*old(s))) + parts@.len()
            > inline_capacity() || byte_len(text_of(*old(s))) + byte_len(joined(parts@))
            > inline_capacity()),
{
    s.extend(parts.iter().copied())
}

/// `InlinableString::insert`, which panics when `idx` is past the end, and
/// on the heap when it is no boundary. An inline string moves to the heap
/// exactly when the character no longer fits.
#[verifier::external_body]
pub(crate) fn insert(s: &mut InlinableString, idx: usize, ch: char)
    requires
        is_boundary(text_of(*old(s)), idx as int),
    ensures
        text_of(*final(s)) == prefix(text_of(*old(s)), idx as int).push(ch) + suffix(
            text_of(*old(s)),
            idx as int,
        ),
        on_heap(*final(s)) == (on_heap(*old(s)) || byte_len(text_of(*old(s))) + char_width(ch)
            > inline_capacity()),
{
    s.insert(idx, ch)
}

/// `InlineString::insert` on the inline string of the `Inline` variant. It
/// refuses, and changes nothing, exactly when the character does not fit.
#[verifier::external_body]
pub(crate) fn inline_insert(s: &mut InlinableString, idx: usize, ch: char) -> (done: bool)
    requires
        !on_heap(*old(s)),
        is_boundary(text_of(*old(s)), idx as int),
    ensures
        done == (byte_len(text_of(*old(s))) + char_width(ch) <= inline_capacity()),
        done ==> text_of(*final(s)) == prefix(text_of(*old(s)), idx as int).push(ch) + suffix(
            text_of(*old(s)),
            idx as int,
        ),
        !done ==> text_of(*final(s)) == text_of(*old(s)),
        !on_heap(*final(s)),
{
    match s {
        InlinableString::Inline(i) => i.insert(idx, ch).is_ok(),
        InlinableString::Heap(_) => false,
    }
}

/// `String::insert_str` on the heap string of the `Heap` variant, which
/// panics when `idx` is no boundary.
#[verifier::external_body]
pub(crate) fn heap_insert_str(s: &mut InlinableString, idx: usize, string: &str)
    requires
        on_heap(*old(s)),
        is_boundary(text_of(*old(s)), idx as int),
    ensures
        text_of(*final(s)) == prefix(text_of(*old(s)), idx as int) + string@ + suffix(
            text_of(*old(s)),
            idx as int,
        ),
        on_heap(*final(s)),
{
    match s {
        InlinableString::Heap(h) => h.insert_str(idx, string),
        InlinableString::Inline(_) => (),
    }
}

/// `InlinableString::truncate`, which panics when `new_len` is no boundary,
/// and inline also when it is past the end. The variant stays.
#[verifier::external_body]
pub(crate) fn truncate(s: &mut InlinableString, new_len: usize)
    requires
        is_boundary(text_of(*old(s)), new_len as int),
    ensures
        text_of(*final(s)) == prefix(text_of(*old(s)), new_len as int),
        on_heap(*final(s)) == on_heap(*old(s)),
{
    s.truncate(new_len)
}

/// `StringExt::clear`, which is `truncate(0)`.
#[verifier::external_body]
pub(crate) fn clear(s: &mut InlinableString)
    ensures
        text_of(*final(s)) == Seq::<char>::empty(),
        on_heap(*final(s)) == on_heap(*old(s)),
{
    s.clear()
}

/// `InlinableString::pop`: takes the last character off, if there is one.
/// The variant stays.
#[verifier::external_body]
pub(crate) fn pop(s: &mut InlinableString) -> (r: Option<char>)
    ensures
        text_of(*old(s)).len() == 0 ==> r.is_none() && text_of(*final(s)) == text_of(*old(s)),
        text_of(*old(s)).len() > 0 ==> r == Some(text_of(*old(s)).last()) && text_of(*final(s))
            == text_of(*old(s)).drop_last(),
        on_heap(*final(s)) == on_heap(*old(s)),
{
    s.pop()
}

/// `InlinableString::remove`, which panics when `idx` is no boundary or is
/// the end. It takes out the character that starts at `idx`. The variant
/// stays.
#[verifier::external_body]
pub(crate) fn remove(s: &mut InlinableString, idx: usize) -> (ch: char)
    requires
        is_boundary(text_of(*old(s)), idx as int),
        idx < byte_len(text_of(*old(s))),
    ensures
        ch == suffix(text_of(*old(s)), idx as int)[0],
        text_of(*final(s)) == prefix(text_of(*old(s)), idx as int) + suffix(
            text_of(*old(s)),
            idx as int,
        ).drop_first(),
        on_heap(*final(s)) == on_heap(*old(s)),
{
    s.remove(idx)
}

/// `Index<RangeFrom<usize>>` of `InlinableString`, which panics when `idx`
/// is no boundary.
#[verifier::external_body]
pub(crate) fn slice_from(s: &InlinableString, idx: usize) -> (r: &str)
    requires
        is_boundary(text_of(*s), idx as int),
    ensures
        r@ == suffix(text_of(*s), idx as int),
{
    &s[idx..]
}

/// `Index<RangeTo<usize>>` of `InlinableString`, which panics when `idx` is
/// no boundary.
#[verifier::external_body]
pub(crate) fn slice_to(s: &InlinableString, idx: usize) -> (r: &str)
    requires
        is_boundary(text_of(*s), idx as int),
    ensures
        r@ == prefix(text_of(*s), idx as int),
{
    &s[..idx]
}

/// `Index<Range<usize>>` of `InlinableString`, which panics when an end of
/// the range is no boundary, or when the range ends before it starts.
#[verifier::external_body]
pub(crate) fn slice(s: &InlinableString, start: usize, end: usize) -> (r: &str)
    requires
        start <= end,
        is_boundary(text_of(*s), start as int),
        is_boundary(text_of(*s), end as int),
    ensures
        r@ == between(text_of(*s), start as int, end as int),
{
    &s[start..end]
}

/// `IndexMut<Range<usize>>` of `InlinableString`, which panics as `Index`
/// does. What the caller leaves in the slice takes the place of the bytes in
/// the range; the variant does not change.
#[verifier::external_body]
pub(crate) fn slice_mut(s: &mut InlinableString, start: usize, end: usize) -> (r: &mut str)
    requires
        start <= end,
        is_boundary(text_of(*old(s)), start as int),
        is_boundary(text_of(*old(s)), end as int),
    ensures
        r@ == between(text_of(*old(s)), start as int, end as int),
        text_of(*final(s)) == prefix(text_of(*old(s)), start as int) + final(r)@ + suffix(
            text_of(*old(s)),
            end as int,
        ),
        on_heap(*final(s)) == on_heap(*old(s)),
{
    &mut s[start..end]
}

/// `Clone::clone` of `InlinableString`, which is derived: the same variant
/// with the same text.
#[verifier::external_body]
pub(crate) fn clone(s: &InlinableString) -> (r: InlinableString)
    ensures
        text_of(r) == text_of(*s),
        on_heap(r) == on_heap(*s),
{
    s.clone()
}

/// `PartialEq::eq` of `InlinableString`, which compares the two texts as
/// string slices.
#[verifier::external_body]
pub(crate) fn eq(a: &InlinableString, b: &InlinableString) -> (r: bool)
    ensures
        r == (text_of(*a) == text_of(*b)),
{
    a == b
}

/// `PartialEq<str>::eq` of `InlinableString`, which compares the text with
/// the slice.
#[verifier::external_body]
pub(crate) fn eq_str(a: &InlinableString, b: &str) -> (r: bool)
    ensures
        r == (text_of(*a) == b@),
{
    a == b
}

} // verus!
