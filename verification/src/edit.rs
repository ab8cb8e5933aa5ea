//! Three edits written over the smaller operations of the backend: `retain`
//! and `split_off`, which the backend lacks, and `insert_str`, which moves an
//! inline string to the heap in one step when the result will not fit.

use crate::backend;
use crate::backend::{inline_capacity, on_heap, text_of};
use crate::model::{
    byte_len, is_boundary, kept, lemma_boundary_ends, lemma_boundary_step, lemma_byte_len_zero,
    lemma_concat_boundary, lemma_encode_concat, lemma_encode_push, lemma_split, prefix, suffix,
};
use inlinable_string::InlinableString;
use vstd::pervasive::unreached;
use vstd::prelude::*;
use vstd::string::*;

verus! {

/// True when `f` may be asked about every character of `text`.
pub open spec fn askable<F: FnMut(char) -> bool>(f: F, text: Seq<char>) -> bool {
    forall|i: int| 0 <= i < text.len() ==> call_requires(f, (#[trigger] text[i],))
}

/// True when `keep` holds, for each character of `text` in turn, an answer
/// that `f` may give for it.
pub open spec fn answers<F: FnMut(char) -> bool>(f: F, text: Seq<char>, keep: Seq<bool>) -> bool {
    &&& keep.len() == text.len()
    &&& forall|i: int| 0 <= i < text.len() ==> call_ensures(f, (text[i],), #[trigger] keep[i])
}

/// The character that starts at byte offset `idx`.
fn char_at(this: &InlinableString, idx: usize) -> (ch: char)
    requires
        is_boundary(text_of(*this), idx as int),
        idx < byte_len(text_of(*this)),
    ensures
        suffix(text_of(*this), idx as int).len() > 0,
        ch == suffix(text_of(*this), idx as int)[0],
{
    broadcast use group_string_axioms;

    proof {
        lemma_boundary_step(text_of(*this), idx as int);
    }
    let tail = backend::slice_from(this, idx);
    let mut rest = tail.chars();
    match rest.next() {
        Some(ch) => ch,
        None => unreached(),
    }
}

/// Keeps the characters for which `f` answers `true` and removes the others.
///
/// `f` is asked once for each character, from the first to the last, and
/// what stays keeps its order. The storage mode does not change.
pub fn retain<F>(this: &mut InlinableString, mut f: F) where F: FnMut(char) -> bool
    requires
        askable(f, text_of(*old(this))),
    ensures
        exists|keep: Seq<bool>|
            answers(f, text_of(*old(this)), keep) && text_of(*final(this)) == kept(
                text_of(*old(this)),
                keep,
            ),
        on_heap(*final(this)) == on_heap(*old(this)),
{
    let ghost orig = text_of(*this);
    let ghost asked = f;
    let ghost mut keep: Seq<bool> = Seq::empty();
    // Position of the character to check.
    let mut idx: usize = 0;
    proof {
        lemma_boundary_ends(orig);
        assert(orig.take(0) =~= Seq::<char>::empty());
        assert(orig.skip(0) =~= orig);
    }
    loop
        invariant
            orig == text_of(*old(this)),
            f == asked,
            keep.len() <= orig.len(),
            answers(f, orig.take(keep.len() as int), keep),
            is_boundary(text_of(*this), idx as int),
            prefix(text_of(*this), idx as int) == kept(orig.take(keep.len() as int), keep),
            suffix(text_of(*this), idx as int) == orig.skip(keep.len() as int),
            askable(f, orig),
            on_heap(*this) == on_heap(*old(this)),
        ensures
            keep.len() == orig.len(),
            answers(asked, orig, keep),
            text_of(*this) == kept(orig, keep),
            on_heap(*this) == on_heap(*old(this)),
        decreases orig.len() - keep.len(),
    {
        let ghost cur = text_of(*this);
        let ghost j = keep.len() as int;
        let len = backend::len(this);
        proof {
            lemma_split(cur, idx as int);
        }
        if idx >= len {
            proof {
                lemma_boundary_ends(cur);
                assert(orig.skip(j).len() == 0);
                assert(orig.take(j) =~= orig);
            }
            break ;
        }
        let ch = char_at(this, idx);
        proof {
            lemma_boundary_step(cur, idx as int);
            assert(orig.skip(j)[0] == orig[j]);
            assert(orig.take(j + 1).drop_last() =~= orig.take(j));
            assert(orig.skip(j).drop_first() =~= orig.skip(j + 1));
        }
        if f(ch) {
            // Advance the cursor.
            idx = idx + ch.len_utf8();
            proof {
                let before = keep;
                keep = keep.push(true);
                assert(keep.drop_last() =~= before);
                assert(orig.take(j + 1).last() == orig[j]);
            }
        } else {
            // Remove the character.
            backend::remove(this, idx);
            proof {
                let before = keep;
                keep = keep.push(false);
                assert(keep.drop_last() =~= before);
                lemma_concat_boundary(prefix(cur, idx as int), suffix(cur, idx as int).drop_first());
            }
        }
    }
    assert(answers(asked, text_of(*old(this)), keep) && text_of(*this) == kept(
        text_of(*old(this)),
        keep,
    ));
}

/// Inserts `string` at byte offset `idx`.
///
/// A heap string takes the slice as it is. An inline string takes it
/// character by character while the result still fits inline; otherwise the
/// three pieces are copied, once, into a heap string of the final length.
pub fn insert_str(this: &mut InlinableString, idx: usize, string: &str)
    requires
        is_boundary(text_of(*old(this)), idx as int),
    ensures
        text_of(*final(this)) == prefix(text_of(*old(this)), idx as int) + string@ + suffix(
            text_of(*old(this)),
            idx as int,
        ),
        on_heap(*final(this)) == (on_heap(*old(this)) || byte_len(text_of(*old(this))) + byte_len(
            string@,
        ) > inline_capacity()),
{
    let ghost orig = text_of(*this);
    let ghost head = prefix(orig, idx as int);
    let ghost tail = suffix(orig, idx as int);
    if backend::is_heap(this) {
        backend::heap_insert_str(this, idx, string);
        return ;
    }
    let len = backend::len(this);
    let added = string.as_bytes().len();
    if added > backend::inline_limit() - len {
        let mut s = match len.checked_add(added) {
            Some(new_len) => String::with_capacity(new_len),
            // No buffer can have that length: let the string size itself.
            None => String::new(),
        };
        s.push_str(backend::slice_to(this, idx));
        s.push_str(string);
        s.push_str(backend::slice_from(this, idx));
        *this = backend::from_heap(s);
        return ;
    }
    proof {
        lemma_split(orig, idx as int);
        lemma_concat_boundary(head, tail);
        assert(string@.take(0) =~= Seq::<char>::empty());
        assert(head + string@.take(0) =~= head);
    }
    let mut next_idx = idx;
    for ch in it: string.chars()
        invariant
            it.seq() == string@,
            !on_heap(*this),
            byte_len(orig) + byte_len(string@) <= inline_capacity(),
            byte_len(head) == idx,
            orig == head + tail,
            next_idx == idx + byte_len(string@.take(it.index())),
            text_of(*this) == head + string@.take(it.index()) + tail,
            byte_len(text_of(*this)) == byte_len(orig) + byte_len(string@.take(it.index())),
            is_boundary(text_of(*this), next_idx as int),
            prefix(text_of(*this), next_idx as int) == head + string@.take(it.index()),
            suffix(text_of(*this), next_idx as int) == tail,
    {
        let ghost k = it.index();
        let ghost done_part = string@.take(k);
        let ghost next_part = string@.take(k + 1);
        proof {
            assert(next_part =~= done_part.push(ch));
            assert(string@ =~= next_part + string@.skip(k + 1));
            lemma_encode_push(done_part, ch);
            lemma_encode_concat(next_part, string@.skip(k + 1));
            assert((head + done_part).push(ch) =~= head + next_part);
            lemma_encode_concat(head, next_part);
            lemma_encode_concat(head + next_part, tail);
            lemma_encode_concat(head, tail);
            lemma_concat_boundary(head + next_part, tail);
        }
        let ch_len = ch.len_utf8();
        let done = backend::inline_insert(this, next_idx, ch);
        assert(done);
        next_idx = next_idx + ch_len;
    }
    proof {
        assert(string@.take(string@.len() as int) =~= string@);
    }
}

/// Splits the string in two at byte offset `at`: the bytes before `at` stay,
/// the bytes from `at` on are returned.
///
/// The part that stays keeps its storage mode; the part that is returned is
/// on the heap exactly when it does not fit inline.
pub fn split_off(this: &mut InlinableString, at: usize) -> (other: InlinableString)
    requires
        is_boundary(text_of(*old(this)), at as int),
    ensures
        text_of(*final(this)) == prefix(text_of(*old(this)), at as int),
        text_of(other) == suffix(text_of(*old(this)), at as int),
        text_of(*final(this)) + text_of(other) == text_of(*old(this)),
        byte_len(text_of(*final(this))) == at,
        byte_len(text_of(other)) == byte_len(text_of(*old(this))) - at,
        on_heap(*final(this)) == on_heap(*old(this)),
        on_heap(other) == (byte_len(text_of(*old(this))) - at > inline_capacity()),
{
    proof {
        lemma_split(text_of(*this), at as int);
    }
    let len = backend::len(this);
    let other_len = len - at;
    let mut other = backend::with_capacity(other_len);
    backend::push_str(&mut other, backend::slice_from(this, at));
    backend::truncate(this, at);
    proof {
        assert(Seq::<char>::empty() + suffix(text_of(*old(this)), at as int) =~= suffix(
            text_of(*old(this)),
            at as int,
        ));
        lemma_byte_len_zero(Seq::<char>::empty());
    }
    other
}

} // verus!
