//! What holds of every small string, proved from the contracts of its
//! methods and the model of its text.

use crate::edit::answers;
use crate::model::{
    all_allowed, apply_all, byte_len, char_width, is_boundary, kept, lemma_boundary_step,
    lemma_char_width, lemma_encode_concat, lemma_inside_char_is_no_boundary, lemma_split, prefix,
    suffix, Edit,
};
use crate::small_string::SmallString;
use vstd::prelude::*;
use vstd::utf8::*;

verus! {

/// True when `states` are the states that a string passes through while
/// `edits` are made on it: each edit is allowed where it is made, and leaves
/// the text that the `ensures` of its method gives. Nothing is asked of the
/// storage mode of any state.
pub open spec fn is_run(states: Seq<SmallString>, edits: Seq<Edit>) -> bool {
    &&& states.len() == edits.len() + 1
    &&& forall|i: int|
        0 <= i < edits.len() ==> (#[trigger] edits[i]).allowed(states[i]@) && states[i + 1]@
            == edits[i].apply(states[i]@)
}

/// After the first `k` edits of a run the text is what those edits make of
/// the first text.
pub proof fn lemma_run_text(states: Seq<SmallString>, edits: Seq<Edit>, k: int)
    requires
        is_run(states, edits),
        0 <= k <= edits.len(),
    ensures
        all_allowed(edits.take(k), states[0]@),
        states[k]@ == apply_all(edits.take(k), states[0]@),
    decreases k,
{
    if k == 0 {
        assert(edits.take(0) =~= Seq::<Edit>::empty());
    } else {
        lemma_run_text(states, edits, k - 1);
        let step = seq![edits[k - 1]];
        assert(edits.take(k) =~= edits.take(k - 1) + step);
        assert(step.drop_first() =~= Seq::<Edit>::empty());
        assert(apply_all(step.drop_first(), edits[k - 1].apply(states[k - 1]@)) == edits[k
            - 1].apply(states[k - 1]@));
        assert(all_allowed(step.drop_first(), edits[k - 1].apply(states[k - 1]@)));
        assert(step[0] == edits[k - 1]);
        lemma_apply_all_concat(edits.take(k - 1), step, states[0]@);
    }
}

/// The storage mode cannot be told from the text. Two strings that start
/// with the same text and go through the same edits hold the same text after
/// each of them, whether either string is inline or on the heap, and whenever
/// either moves to the heap on the way.
pub proof fn lemma_storage_mode_is_not_observable(
    a: Seq<SmallString>,
    b: Seq<SmallString>,
    edits: Seq<Edit>,
)
    requires
        is_run(a, edits),
        is_run(b, edits),
        a[0]@ == b[0]@,
    ensures
        forall|k: int| 0 <= k <= edits.len() ==> (#[trigger] a[k])@ == b[k]@,
        a.last()@ == b.last()@,
        a.last()@ == apply_all(edits, a[0]@),
{
    assert forall|k: int| 0 <= k <= edits.len() implies (#[trigger] a[k])@ == b[k]@ by {
        lemma_run_text(a, edits, k);
        lemma_run_text(b, edits, k);
    }
    lemma_run_text(a, edits, edits.len() as int);
    assert(edits.take(edits.len() as int) =~= edits);
}

/// Whatever edits are made, the bytes of the text stay valid UTF-8.
pub proof fn lemma_edits_keep_utf8(text: Seq<char>, edits: Seq<Edit>)
    ensures
        valid_utf8(encode_utf8(apply_all(edits, text))),
{
    encode_utf8_valid_utf8(apply_all(edits, text));
}

/// Edits made one after the other are the edits of the first run followed
/// by those of the second.
pub proof fn lemma_apply_all_concat(first: Seq<Edit>, second: Seq<Edit>, text: Seq<char>)
    ensures
        apply_all(first + second, text) == apply_all(second, apply_all(first, text)),
        all_allowed(first + second, text) == (all_allowed(first, text) && all_allowed(
            second,
            apply_all(first, text),
        )),
    decreases first.len(),
{
    if first.len() == 0 {
        assert(first + second =~= second);
    } else {
        assert((first + second).drop_first() =~= first.drop_first() + second);
        lemma_apply_all_concat(first.drop_first(), second, first[0].apply(text));
    }
}

/// A text is never longer in characters than in bytes, and takes at most four
/// bytes for each character.
pub proof fn lemma_byte_len_bounds(text: Seq<char>)
    ensures
        text.len() <= byte_len(text) <= 4 * text.len(),
    decreases text.len(),
{
    if text.len() > 0 {
        lemma_char_width(text[0]);
        lemma_byte_len_bounds(text.drop_first());
    }
}

/// Two texts with the same bytes are the same text.
pub proof fn lemma_encode_injective(a: Seq<char>, b: Seq<char>)
    requires
        encode_utf8(a) == encode_utf8(b),
    ensures
        a == b,
{
    encode_utf8_decode_utf8(a);
    encode_utf8_decode_utf8(b);
}

/// Splitting at a boundary and joining the two parts again gives the text
/// back, character for character and byte for byte.
pub proof fn lemma_split_then_join(text: Seq<char>, at: int)
    requires
        is_boundary(text, at),
    ensures
        prefix(text, at) + suffix(text, at) == text,
        encode_utf8(prefix(text, at)) + encode_utf8(suffix(text, at)) == encode_utf8(text),
        byte_len(prefix(text, at)) == at,
{
    lemma_split(text, at);
    lemma_encode_concat(prefix(text, at), suffix(text, at));
}

/// Where `f` decides by a predicate on the character, what `retain` keeps is
/// the text filtered by that predicate.
pub proof fn lemma_retain_filters<F: FnMut(char) -> bool>(
    f: F,
    text: Seq<char>,
    keep: Seq<bool>,
    pred: spec_fn(char) -> bool,
)
    requires
        answers(f, text, keep),
        forall|c: char, b: bool| call_ensures(f, (c,), b) ==> b == pred(c),
    ensures
        kept(text, keep) == text.filter(pred),
    decreases text.len(),
{
    reveal(Seq::filter);
    if text.len() > 0 {
        assert(call_ensures(f, (text[text.len() - 1],), keep[text.len() - 1]));
        assert forall|i: int| 0 <= i < text.drop_last().len() implies call_ensures(
            f,
            (text.drop_last()[i],),
            #[trigger] keep.drop_last()[i],
        ) by {
            assert(call_ensures(f, (text[i],), keep[i]));
        }
        lemma_retain_filters(f, text.drop_last(), keep.drop_last(), pred);
    }
}

/// What `retain` keeps is never longer than the text, and is the whole text
/// when every character is kept.
pub proof fn lemma_kept_len(text: Seq<char>, keep: Seq<bool>)
    requires
        keep.len() == text.len(),
    ensures
        kept(text, keep).len() <= text.len(),
        (forall|i: int| 0 <= i < keep.len() ==> keep[i]) ==> kept(text, keep) == text,
        (forall|i: int| 0 <= i < keep.len() ==> !keep[i]) ==> kept(text, keep).len() == 0,
    decreases text.len(),
{
    if text.len() > 0 {
        lemma_kept_len(text.drop_last(), keep.drop_last());
        if forall|i: int| 0 <= i < keep.len() ==> keep[i] {
            assert(keep[keep.len() - 1]);
            assert forall|i: int| 0 <= i < keep.drop_last().len() implies keep.drop_last()[i] by {
                assert(keep[i]);
            }
            assert(text.drop_last().push(text.last()) =~= text);
        }
        if forall|i: int| 0 <= i < keep.len() ==> !keep[i] {
            assert(!keep[keep.len() - 1]);
            assert forall|i: int| 0 <= i < keep.drop_last().len() implies !keep.drop_last()[i] by {
                assert(!keep[i]);
            }
        }
    }
}

/// No edit is allowed at an offset inside a character: every method that
/// takes a byte offset refuses, by its `requires`, an offset that would
/// split one.
pub proof fn lemma_no_edit_inside_a_character(text: Seq<char>, at: int, d: int, edit: Edit)
    requires
        is_boundary(text, at),
        at < byte_len(text),
        0 < d < char_width(suffix(text, at)[0]),
        edit.names(at + d),
    ensures
        !is_boundary(text, at + d),
        !edit.allowed(text),
{
    lemma_inside_char_is_no_boundary(text, at, d);
    lemma_boundary_step(text, at);
}

} // verus!
