//! What holds of the bounded containers whatever they are used for, stated
//! over the functions that their contracts are written in.

use vstd::prelude::*;
use vstd::utf8::encode_scalar;
use crate::ctools::cvec::{kept, pushed, pushed_all, without_range, CVec};
use crate::ctools::utf8_width;

verus! {

/// Offering at most `cap` elements, one after the other, to an empty vector
/// with room for `cap` keeps every one of them, in the order in which they
/// were offered; so the length is the number of pushes.
pub proof fn lemma_pushes_keep_order<T>(cap: nat, items: Seq<T>)
    requires
        items.len() <= cap,
    ensures
        pushed_all(Seq::<T>::empty(), cap, items) == items,
        pushed_all(Seq::<T>::empty(), cap, items).len() == items.len(),
    decreases items.len(),
{
    if items.len() > 0 {
        lemma_pushes_keep_order(cap, items.drop_last());
        assert(items.drop_last().push(items.last()) =~= items);
    }
}

/// Offering an element to a vector that is full leaves what it holds as it
/// was, whatever the element and however often it is tried.
pub proof fn lemma_push_past_capacity<T>(s: Seq<T>, cap: nat, x: T)
    requires
        s.len() >= cap,
    ensures
        pushed(s, cap, x) == s,
        pushed(pushed(s, cap, x), cap, x) == s,
{
}

/// Keeping by flags that agree with a predicate is filtering by that
/// predicate: exactly the elements that the predicate rejects are dropped, and
/// the others stay in the order they had.
pub proof fn lemma_kept_is_filter<T>(s: Seq<T>, keep: Seq<bool>, p: spec_fn(T) -> bool)
    requires
        keep.len() == s.len(),
        forall|i: int| 0 <= i < s.len() ==> keep[i] == p(s[i]),
    ensures
        kept(s, keep) == s.filter(p),
    decreases s.len(),
{
    reveal(Seq::filter);
    if s.len() > 0 {
        lemma_kept_is_filter(s.drop_last(), keep.drop_last(), p);
    }
}

/// Every kept element was there before, flagged to stay, and kept elements
/// stand in the order they had: the positions they came from rise.
pub proof fn lemma_kept_preserves_order<T>(s: Seq<T>, keep: Seq<bool>) -> (from: Seq<int>)
    requires
        keep.len() == s.len(),
    ensures
        from.len() == kept(s, keep).len(),
        forall|j: int|
            0 <= j < from.len() ==> 0 <= #[trigger] from[j] < s.len() && keep[from[j]] && kept(
                s,
                keep,
            )[j] == s[from[j]],
        forall|j: int, k: int| 0 <= j < k < from.len() ==> from[j] < from[k],
        forall|i: int|
            0 <= i < s.len() && keep[i] ==> exists|j: int|
                0 <= j < from.len() && from[j] == i,
    decreases s.len(),
{
    if s.len() == 0 {
        Seq::empty()
    } else {
        let before = lemma_kept_preserves_order(s.drop_last(), keep.drop_last());
        let last = s.len() - 1;
        if keep.last() {
            let from = before.push(last);
            assert forall|i: int| 0 <= i < s.len() && keep[i] implies exists|j: int|
                0 <= j < from.len() && from[j] == i by {
                if i < last {
                    assert(keep.drop_last()[i]);
                    let j = choose|j: int| 0 <= j < before.len() && before[j] == i;
                    assert(from[j] == i);
                } else {
                    assert(from[before.len() as int] == i);
                }
            }
            from
        } else {
            assert forall|i: int| 0 <= i < s.len() && keep[i] implies exists|j: int|
                0 <= j < before.len() && before[j] == i by {
                assert(keep.drop_last()[i]);
            }
            before
        }
    }
}

/// When every element is flagged to stay, nothing changes.
pub proof fn lemma_keep_all<T>(s: Seq<T>, keep: Seq<bool>)
    requires
        keep.len() == s.len(),
        forall|i: int| 0 <= i < keep.len() ==> keep[i],
    ensures
        kept(s, keep) == s,
    decreases s.len(),
{
    if s.len() > 0 {
        lemma_keep_all(s.drop_last(), keep.drop_last());
        assert(s.drop_last().push(s.last()) =~= s);
    }
}

/// When no element is flagged to stay, nothing is left.
pub proof fn lemma_keep_none<T>(s: Seq<T>, keep: Seq<bool>)
    requires
        keep.len() == s.len(),
        forall|i: int| 0 <= i < keep.len() ==> !keep[i],
    ensures
        kept(s, keep) == Seq::<T>::empty(),
    decreases s.len(),
{
    if s.len() > 0 {
        lemma_keep_none(s.drop_last(), keep.drop_last());
    }
}

/// Taking a range out shortens the sequence by the length of the range, leaves
/// what came before the range in place, and moves what came after it down to
/// where the range began.
pub proof fn lemma_without_range<T>(s: Seq<T>, start: int, end: int)
    requires
        0 <= start <= end <= s.len(),
    ensures
        without_range(s, start, end).len() == s.len() - (end - start),
        forall|i: int| 0 <= i < start ==> without_range(s, start, end)[i] == s[i],
        forall|i: int|
            start <= i < s.len() - (end - start) ==> without_range(s, start, end)[i] == s[i + (end
                - start)],
        s == s.subrange(0, start) + s.subrange(start, end) + s.subrange(end, s.len() as int),
{
    assert(s =~= s.subrange(0, start) + s.subrange(start, end) + s.subrange(end, s.len() as int));
}

/// A vector made from an array gives that same array back: with `v` as `from`
/// makes it and `r` as `into_inner` then returns it, `r` is `Ok` of the array.
pub proof fn lemma_from_into_inner<T, const LEN: usize>(
    array: [T; LEN],
    v: CVec<T, LEN>,
    r: Result<[T; LEN], CVec<T, LEN>>,
)
    requires
        v.holds_array(array),
        v.is_inner(r),
    ensures
        r == Ok::<[T; LEN], CVec<T, LEN>>(array),
{
    assert(r is Ok);
    assert(r->Ok_0@ == array@);
    assert(r->Ok_0 =~= array);
}

/// `into_inner` gives the array exactly when the vector is full, and otherwise
/// gives the vector back as it was.
pub proof fn lemma_into_inner_iff_full<T, const LEN: usize>(
    v: CVec<T, LEN>,
    r: Result<[T; LEN], CVec<T, LEN>>,
)
    requires
        v.wf(),
        v.is_inner(r),
    ensures
        r is Ok <==> v@.len() == LEN,
        r is Err ==> r == Err::<[T; LEN], CVec<T, LEN>>(v),
{
}

/// Appending a character to a string and then taking the last character off
/// gives that character back and leaves the text, the bytes and so the length
/// as they were before the two steps.
pub proof fn lemma_push_then_pop(text: Seq<char>, bytes: Seq<u8>, c: char)
    ensures
        text.push(c).last() == c,
        text.push(c).drop_last() == text,
        (bytes + encode_scalar(c as u32)).subrange(
            0,
            (bytes + encode_scalar(c as u32)).len() - utf8_width(c),
        ) == bytes,
{
    assert(text.push(c).drop_last() =~= text);
    assert((bytes + encode_scalar(c as u32)).subrange(
        0,
        (bytes + encode_scalar(c as u32)).len() - utf8_width(c),
    ) =~= bytes);
}

} // verus!
