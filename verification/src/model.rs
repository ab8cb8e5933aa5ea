//! The mathematical model of a text: a sequence of characters, addressed by
//! byte offsets into its UTF-8 encoding.

use vstd::prelude::*;
use vstd::utf8::*;

verus! {

/// Number of bytes that `c` takes in UTF-8.
pub open spec fn char_width(c: char) -> nat {
    encode_scalar(c as u32).len()
}

/// Number of bytes that `text` takes in UTF-8.
pub open spec fn byte_len(text: Seq<char>) -> nat {
    encode_utf8(text).len()
}

/// True when byte offset `at` lies between two characters of `text`, or at
/// one of its ends.
pub open spec fn is_boundary(text: Seq<char>, at: int) -> bool {
    is_char_boundary(encode_utf8(text), at)
}

/// The characters encoded by the first `at` bytes of `text`.
pub open spec fn prefix(text: Seq<char>, at: int) -> Seq<char> {
    decode_utf8(encode_utf8(text).subrange(0, at))
}

/// The characters encoded by the bytes of `text` from offset `at` on.
pub open spec fn suffix(text: Seq<char>, at: int) -> Seq<char> {
    decode_utf8(encode_utf8(text).subrange(at, encode_utf8(text).len() as int))
}

/// The characters encoded by the bytes of `text` from offset `start` up to
/// offset `end`.
pub open spec fn between(text: Seq<char>, start: int, end: int) -> Seq<char> {
    decode_utf8(encode_utf8(text).subrange(start, end))
}

/// The texts of `parts`, joined in their order.
pub open spec fn joined(parts: Seq<&str>) -> Seq<char>
    decreases parts.len(),
{
    if parts.len() == 0 {
        Seq::empty()
    } else {
        joined(parts.drop_last()) + parts.last()@
    }
}

/// True when `a` comes before `b` in the order of their bytes: at the first
/// place where they differ `a` has the smaller byte, or `a` ends there and
/// `b` does not.
pub open spec fn bytes_less(a: Seq<u8>, b: Seq<u8>) -> bool
    decreases a.len(),
{
    if b.len() == 0 {
        false
    } else if a.len() == 0 {
        true
    } else if a[0] != b[0] {
        a[0] < b[0]
    } else {
        bytes_less(a.drop_first(), b.drop_first())
    }
}

/// What is left of `text` when only the characters marked in `keep` stay, in
/// their order.
pub open spec fn kept(text: Seq<char>, keep: Seq<bool>) -> Seq<char>
    decreases text.len(),
{
    if text.len() == 0 {
        Seq::empty()
    } else if keep.len() > 0 && keep.last() {
        kept(text.drop_last(), keep.drop_last()).push(text.last())
    } else {
        kept(text.drop_last(), keep.drop_last())
    }
}

/// One edit of a text, with its arguments: what each mutating method of the
/// string does to the text, whatever the storage mode.
pub enum Edit {
    /// Append a character.
    Push(char),
    /// Append a text.
    PushStr(Seq<char>),
    /// Insert a character at a byte offset.
    Insert(int, char),
    /// Insert a text at a byte offset.
    InsertStr(int, Seq<char>),
    /// Take the last character off, if there is one.
    Pop,
    /// Take out the character that starts at a byte offset.
    Remove(int),
    /// Keep the characters that are marked.
    Retain(Seq<bool>),
    /// Cut the text down to a number of bytes, if it has more.
    Truncate(int),
    /// Remove all text.
    Clear,
    /// Keep the bytes before an offset.
    SplitOff(int),
    /// Replace the bytes between two offsets by a text.
    ReplaceRange(int, int, Seq<char>),
}

impl Edit {
    /// True when the edit may be made on `text`: every byte offset it names
    /// is a boundary of `text`, and in range.
    pub open spec fn allowed(self, text: Seq<char>) -> bool {
        match self {
            Edit::Push(_) => true,
            Edit::PushStr(_) => true,
            Edit::Insert(at, _) => is_boundary(text, at),
            Edit::InsertStr(at, _) => is_boundary(text, at),
            Edit::Pop => true,
            Edit::Remove(at) => is_boundary(text, at) && at < byte_len(text),
            Edit::Retain(keep) => keep.len() == text.len(),
            Edit::Truncate(new_len) => 0 <= new_len && (new_len < byte_len(text) ==> is_boundary(
                text,
                new_len,
            )),
            Edit::Clear => true,
            Edit::SplitOff(at) => is_boundary(text, at),
            Edit::ReplaceRange(start, end, _) => start <= end && is_boundary(text, start)
                && is_boundary(text, end),
        }
    }

    /// True when the edit names byte offset `at`.
    pub open spec fn names(self, at: int) -> bool {
        match self {
            Edit::Insert(a, _) => a == at,
            Edit::InsertStr(a, _) => a == at,
            Edit::Remove(a) => a == at,
            Edit::Truncate(a) => a == at,
            Edit::SplitOff(a) => a == at,
            Edit::ReplaceRange(a, b, _) => a == at || b == at,
            _ => false,
        }
    }

    /// The text after the edit.
    pub open spec fn apply(self, text: Seq<char>) -> Seq<char> {
        match self {
            Edit::Push(ch) => text.push(ch),
            Edit::PushStr(added) => text + added,
            Edit::Insert(at, ch) => prefix(text, at).push(ch) + suffix(text, at),
            Edit::InsertStr(at, added) => prefix(text, at) + added + suffix(text, at),
            Edit::Pop => if text.len() == 0 {
                text
            } else {
                text.drop_last()
            },
            Edit::Remove(at) => prefix(text, at) + suffix(text, at).drop_first(),
            Edit::Retain(keep) => kept(text, keep),
            Edit::Truncate(new_len) => if new_len >= byte_len(text) {
                text
            } else {
                prefix(text, new_len)
            },
            Edit::Clear => Seq::empty(),
            Edit::SplitOff(at) => prefix(text, at),
            Edit::ReplaceRange(start, end, added) => prefix(text, start) + added + suffix(
                text,
                end,
            ),
        }
    }
}

/// True when the edits may be made on `text`, one after the other.
pub open spec fn all_allowed(edits: Seq<Edit>, text: Seq<char>) -> bool
    decreases edits.len(),
{
    edits.len() > 0 ==> edits[0].allowed(text) && all_allowed(
        edits.drop_first(),
        edits[0].apply(text),
    )
}

/// The text after the edits, made one after the other.
pub open spec fn apply_all(edits: Seq<Edit>, text: Seq<char>) -> Seq<char>
    decreases edits.len(),
{
    if edits.len() == 0 {
        text
    } else {
        apply_all(edits.drop_first(), edits[0].apply(text))
    }
}

/// Every character takes between one and four bytes.
pub proof fn lemma_char_width(c: char)
    ensures
        1 <= char_width(c) <= 4,
{
}

/// The empty text has no bytes, and only the empty text has none.
pub proof fn lemma_byte_len_zero(text: Seq<char>)
    ensures
        byte_len(text) == 0 <==> text.len() == 0,
{
    if text.len() > 0 {
        lemma_char_width(text[0]);
    }
}

/// Encoding distributes over concatenation.
pub proof fn lemma_encode_concat(a: Seq<char>, b: Seq<char>)
    ensures
        encode_utf8(a + b) == encode_utf8(a) + encode_utf8(b),
        byte_len(a + b) == byte_len(a) + byte_len(b),
    decreases a.len(),
{
    if a.len() == 0 {
        assert(a + b =~= b);
        assert(encode_utf8(a) + encode_utf8(b) =~= encode_utf8(b));
    } else {
        assert((a + b).drop_first() =~= a.drop_first() + b);
        lemma_encode_concat(a.drop_first(), b);
        assert(encode_utf8(a + b) =~= encode_utf8(a) + encode_utf8(b));
    }
}

/// Pushing one character adds its width to the byte length.
pub proof fn lemma_encode_push(text: Seq<char>, c: char)
    ensures
        encode_utf8(text.push(c)) == encode_utf8(text) + encode_scalar(c as u32),
        byte_len(text.push(c)) == byte_len(text) + char_width(c),
{
    let one = seq![c];
    assert(text.push(c) =~= text + one);
    lemma_encode_concat(text, one);
    assert(one.drop_first() =~= Seq::<char>::empty());
    assert(encode_utf8(one.drop_first()) =~= Seq::<u8>::empty());
    assert(encode_utf8(one) =~= encode_scalar(c as u32));
}

/// Whether `len(a) + d` is a boundary of `a + b` is decided by `b` alone.
pub proof fn lemma_boundary_shift(a: Seq<char>, b: Seq<char>, d: int)
    requires
        d >= 0,
    ensures
        is_boundary(a + b, byte_len(a) + d) <==> is_boundary(b, d),
    decreases a.len(),
{
    broadcast use encode_utf8_valid_utf8;

    if a.len() == 0 {
        assert(a + b =~= b);
    } else {
        let all = a + b;
        let bytes = encode_utf8(all);
        let rest = a.drop_first() + b;
        lemma_char_width(a[0]);
        lemma_encode_concat(a, b);
        lemma_encode_concat(a.drop_first(), b);
        assert(all.drop_first() =~= rest);
        encode_utf8_first_scalar(all);
        assert(pop_first_scalar(bytes) =~= encode_utf8(rest));
        lemma_boundary_shift(a.drop_first(), b, d);
        let at = byte_len(a) + d;
        assert(at > 0);
        if bytes.len() < at {
            assert(encode_utf8(b).len() < d);
            assert(!is_char_boundary(encode_utf8(b), d)) by {
                if d == 0 {
                } else {
                }
            }
        } else {
            assert(is_char_boundary(bytes, at) == is_char_boundary(
                pop_first_scalar(bytes),
                at - length_of_first_scalar(bytes),
            ));
        }
    }
}

/// Both ends of a text are boundaries.
pub proof fn lemma_boundary_ends(text: Seq<char>)
    ensures
        is_boundary(text, 0),
        is_boundary(text, byte_len(text) as int),
        prefix(text, 0) == Seq::<char>::empty(),
        suffix(text, 0) == text,
        prefix(text, byte_len(text) as int) == text,
        suffix(text, byte_len(text) as int) == Seq::<char>::empty(),
{
    broadcast use encode_utf8_valid_utf8, encode_utf8_decode_utf8;

    let bytes = encode_utf8(text);
    is_char_boundary_start_end_of_seq(bytes);
    assert(bytes.subrange(0, 0) =~= Seq::<u8>::empty());
    assert(bytes.subrange(0, bytes.len() as int) =~= bytes);
    assert(bytes.subrange(bytes.len() as int, bytes.len() as int) =~= Seq::<u8>::empty());
    assert(encode_utf8(Seq::<char>::empty()) =~= Seq::<u8>::empty());
}

/// The place where two texts were joined is a boundary of the whole, and
/// splitting there gives the two texts back.
pub proof fn lemma_concat_boundary(a: Seq<char>, b: Seq<char>)
    ensures
        is_boundary(a + b, byte_len(a) as int),
        prefix(a + b, byte_len(a) as int) == a,
        suffix(a + b, byte_len(a) as int) == b,
{
    broadcast use encode_utf8_decode_utf8;

    lemma_boundary_shift(a, b, 0);
    lemma_boundary_ends(b);
    lemma_encode_concat(a, b);
    let bytes = encode_utf8(a + b);
    let n = byte_len(a) as int;
    assert(bytes.subrange(0, n) =~= encode_utf8(a));
    assert(bytes.subrange(n, bytes.len() as int) =~= encode_utf8(b));
}

/// Splitting a text at a boundary loses nothing: the two parts, joined
/// again, are the text, and the first part has exactly `at` bytes.
pub proof fn lemma_split(text: Seq<char>, at: int)
    requires
        is_boundary(text, at),
    ensures
        0 <= at <= byte_len(text),
        prefix(text, at) + suffix(text, at) == text,
        byte_len(prefix(text, at)) == at,
        byte_len(suffix(text, at)) == byte_len(text) - at,
        encode_utf8(prefix(text, at)) == encode_utf8(text).subrange(0, at),
        encode_utf8(suffix(text, at)) == encode_utf8(text).subrange(at, byte_len(text) as int),
{
    broadcast use encode_utf8_valid_utf8, encode_utf8_decode_utf8;

    let bytes = encode_utf8(text);
    assert(0 <= at <= bytes.len());
    valid_utf8_split(bytes, at);
    decode_utf8_split(bytes, at);
    decode_utf8_encode_utf8(bytes.subrange(0, at));
    decode_utf8_encode_utf8(bytes.subrange(at, bytes.len() as int));
}

/// From a boundary before the end, the next boundary lies one character on.
pub proof fn lemma_boundary_step(text: Seq<char>, at: int)
    requires
        is_boundary(text, at),
        at < byte_len(text),
    ensures
        suffix(text, at).len() > 0,
        at + char_width(suffix(text, at)[0]) <= byte_len(text),
        is_boundary(text, at + char_width(suffix(text, at)[0])),
        prefix(text, at + char_width(suffix(text, at)[0])) == prefix(text, at).push(
            suffix(text, at)[0],
        ),
        suffix(text, at + char_width(suffix(text, at)[0])) == suffix(text, at).drop_first(),
{
    lemma_split(text, at);
    let p = prefix(text, at);
    let s = suffix(text, at);
    lemma_byte_len_zero(s);
    let c = s[0];
    let grown = p.push(c);
    let rest = s.drop_first();
    assert(grown + rest =~= text);
    lemma_encode_push(p, c);
    lemma_concat_boundary(grown, rest);
    lemma_encode_concat(grown, rest);
}

/// An offset inside the encoding of a character is no boundary.
pub proof fn lemma_inside_char_is_no_boundary(text: Seq<char>, at: int, d: int)
    requires
        is_boundary(text, at),
        at < byte_len(text),
        0 < d < char_width(suffix(text, at)[0]),
    ensures
        !is_boundary(text, at + d),
{
    broadcast use encode_utf8_valid_utf8;

    lemma_split(text, at);
    let p = prefix(text, at);
    let s = suffix(text, at);
    lemma_byte_len_zero(s);
    lemma_boundary_shift(p, s, d);
    let bytes = encode_utf8(s);
    encode_utf8_first_scalar(s);
    assert(!is_char_boundary(bytes, d)) by {
        if bytes.len() < d {
        } else {
            assert(is_char_boundary(bytes, d) == is_char_boundary(
                pop_first_scalar(bytes),
                d - length_of_first_scalar(bytes),
            ));
        }
    }
}

/// Text put in at a boundary adds exactly its own bytes.
pub proof fn lemma_insert_len(text: Seq<char>, at: int, added: Seq<char>)
    requires
        is_boundary(text, at),
    ensures
        byte_len(prefix(text, at) + added + suffix(text, at)) == byte_len(text) + byte_len(added),
{
    lemma_split(text, at);
    lemma_encode_concat(prefix(text, at), added);
    lemma_encode_concat(prefix(text, at) + added, suffix(text, at));
}

/// A boundary of a text that lies within a prefix of it is a boundary of
/// that prefix, and cuts the same characters off.
pub proof fn lemma_prefix_of_prefix(text: Seq<char>, a: int, b: int)
    requires
        is_boundary(text, a),
        is_boundary(text, b),
        a <= b,
    ensures
        is_boundary(prefix(text, b), a),
        prefix(prefix(text, b), a) == prefix(text, a),
{
    broadcast use encode_utf8_valid_utf8;

    lemma_split(text, a);
    lemma_split(text, b);
    let bytes = encode_utf8(text);
    let front = encode_utf8(prefix(text, b));
    assert(front.subrange(0, a) =~= bytes.subrange(0, a));
    if a == b {
        lemma_boundary_ends(prefix(text, b));
    } else {
        is_char_boundary_iff_not_is_continuation_byte(bytes, a);
        is_char_boundary_iff_not_is_continuation_byte(front, a);
    }
}

/// Two boundaries cut a text in three parts that, joined again, are the
/// text; the middle part has exactly the bytes between the two.
pub proof fn lemma_between(text: Seq<char>, start: int, end: int)
    requires
        is_boundary(text, start),
        is_boundary(text, end),
        start <= end,
    ensures
        prefix(text, start) + between(text, start, end) + suffix(text, end) == text,
        between(text, start, end) == suffix(prefix(text, end), start),
        byte_len(between(text, start, end)) == end - start,
        encode_utf8(between(text, start, end)) == encode_utf8(text).subrange(start, end),
{
    lemma_split(text, end);
    lemma_prefix_of_prefix(text, start, end);
    let front = prefix(text, end);
    lemma_split(front, start);
    assert(encode_utf8(front).subrange(start, end) =~= encode_utf8(text).subrange(start, end));
}

} // verus!
