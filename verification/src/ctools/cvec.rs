//! A vector of at most `LEN` elements whose storage is part of the value.
//!
//! The storage is a block of `LEN` slots. A slot either holds a live element or
//! is empty, and the live slots are exactly the first `len` ones. Everything
//! that moves the boundary between the two either fills the slots it takes in
//! or empties the slots it gives up. The vector reaches its slots and its
//! length through `ICVec` only, and so do the iterators made from it.

use vstd::prelude::*;
use vstd::std_specs::iter::IteratorSpec;
use crate::errors::CapacityError;
use crate::ctools::laws::lemma_kept_is_filter;
use crate::ctools::{bounded, items, ICVec};

verus! {

/// `core::array::from_fn`: the array whose element at each position is what
/// `f` gives for that position. Every position must be acceptable to `f`.
#[verifier::external_body]
fn array_from_fn<T, F: Fn(usize) -> T, const LEN: usize>(f: F) -> (array: [T; LEN])
    requires
        forall|i: usize| i < LEN ==> f.requires((i,)),
    ensures
        forall|i: usize| i < LEN ==> f.ensures((i,), #[trigger] array@[i as int]),
{
    core::array::from_fn(f)
}

/// `<[T; N]>::map`: the array of the results of `f` on each element, position
/// by position. Every element must be acceptable to `f`.
#[verifier::external_body]
fn map_array<T, U, F: Fn(T) -> U, const LEN: usize>(array: [T; LEN], f: F) -> (mapped: [U; LEN])
    requires
        forall|i: int| 0 <= i < LEN ==> f.requires((#[trigger] array@[i],)),
    ensures
        forall|i: int| 0 <= i < LEN ==> f.ensures((array@[i],), #[trigger] mapped@[i]),
{
    array.map(f)
}

/// Every slot in `[lo, hi)` holds a live element.
spec fn live<T>(slots: Seq<Option<T>>, lo: int, hi: int) -> bool {
    forall|i: int| lo <= i < hi ==> (#[trigger] slots[i]) is Some
}

/// Every slot in `[lo, hi)` is empty.
spec fn vacant<T>(slots: Seq<Option<T>>, lo: int, hi: int) -> bool {
    forall|i: int| lo <= i < hi ==> (#[trigger] slots[i]) is None
}

/// The elements held by the slots in `[lo, hi)`, in order.
spec fn held<T>(slots: Seq<Option<T>>, lo: int, hi: int) -> Seq<T> {
    Seq::new((hi - lo) as nat, |i: int| slots[lo + i]->Some_0)
}

/// What is left of `s` when only the elements flagged in `keep` stay, in the
/// order they had.
pub open spec fn kept<T>(s: Seq<T>, keep: Seq<bool>) -> Seq<T>
    decreases s.len(),
{
    if s.len() == 0 || keep.len() == 0 {
        Seq::empty()
    } else if keep.last() {
        kept(s.drop_last(), keep.drop_last()).push(s.last())
    } else {
        kept(s.drop_last(), keep.drop_last())
    }
}

/// The sequence `s` with the elements at `[start, end)` taken out.
pub open spec fn without_range<T>(s: Seq<T>, start: int, end: int) -> Seq<T> {
    s.subrange(0, start) + s.subrange(end, s.len() as int)
}

/// The outcome of offering `x` to a vector that holds `s` and has room for
/// `cap` elements: appended when there is room, otherwise `s` as it was.
pub open spec fn pushed<T>(s: Seq<T>, cap: nat, x: T) -> Seq<T> {
    if s.len() < cap {
        s.push(x)
    } else {
        s
    }
}

/// The outcome of offering the elements of `items` one after the other, in
/// order, to a vector that starts out holding `s`.
pub open spec fn pushed_all<T>(s: Seq<T>, cap: nat, items: Seq<T>) -> Seq<T>
    decreases items.len(),
{
    if items.len() == 0 {
        s
    } else {
        pushed(pushed_all(s, cap, items.drop_last()), cap, items.last())
    }
}

/// One end of a range of positions.
#[derive(Clone, Copy, Debug, PartialEq, Eq)]
pub enum Bound {
    /// The range reaches the position and takes it in.
    Included(usize),
    /// The range reaches the position and leaves it out.
    Excluded(usize),
    /// The range reaches as far as there is anything.
    Unbounded,
}

/// The position after `i`, or `i` itself when there is none.
pub open spec fn next_position(i: usize) -> int {
    if i == usize::MAX {
        i as int
    } else {
        i + 1
    }
}

/// The first position of a range that starts at `start`.
pub open spec fn first_position(start: Bound) -> int {
    match start {
        Bound::Unbounded => 0,
        Bound::Included(i) => i as int,
        Bound::Excluded(i) => next_position(i),
    }
}

/// The position just past a range that ends at `end`, in a sequence of `len`
/// elements.
pub open spec fn end_position(end: Bound, len: int) -> int {
    match end {
        Bound::Excluded(j) => j as int,
        Bound::Included(j) => next_position(j),
        Bound::Unbounded => len,
    }
}

/// The positions that a pair of bounds comes to in a sequence of `len`
/// elements: where the range starts and where it stops. A bound that takes in
/// or leaves out the largest position there is stays at that position.
pub fn resolve_bounds(start: Bound, end: Bound, len: usize) -> (range: (usize, usize))
    ensures
        range.0 == first_position(start),
        range.1 == end_position(end, len as int),
{
    let first = match start {
        Bound::Unbounded => 0,
        Bound::Included(i) => i,
        Bound::Excluded(i) => i.saturating_add(1),
    };
    let past = match end {
        Bound::Excluded(j) => j,
        Bound::Included(j) => j.saturating_add(1),
        Bound::Unbounded => len,
    };
    (first, past)
}

/// A block of `LEN` slots of which the first `len` hold a live element.
pub struct CVec<T, const LEN: usize> {
    dat: [Option<T>; LEN],
    len: usize,
}

impl<T, const LEN: usize> ICVec for CVec<T, LEN> {
    type Item = T;

    open spec fn spec_capacity() -> nat {
        LEN as nat
    }

    closed spec fn spec_slots(&self) -> Seq<Option<T>> {
        self.dat@
    }

    closed spec fn spec_len(&self) -> nat {
        self.len as nat
    }

    fn slot_count() -> (n: usize) {
        LEN
    }

    fn len(&self) -> (n: usize) {
        self.len
    }

    fn set_len(&mut self, new_len: usize) {
        self.len = new_len;
    }

    fn slot(&self, index: usize) -> (slot: &Option<T>) {
        &self.dat[index]
    }

    fn slot_mut(&mut self, index: usize) -> (slot: &mut Option<T>) {
        &mut self.dat[index]
    }
}

impl<T, const LEN: usize> View for CVec<T, LEN> {
    type V = Seq<T>;

    /// The live elements, in order.
    open spec fn view(&self) -> Seq<T> {
        items(self.spec_slots(), self.spec_len())
    }
}

impl<T, const LEN: usize> CVec<T, LEN> {
    /// The boundary between live and empty slots is where the length says:
    /// the first `len` slots are live, the others are empty, and `len <= LEN`.
    pub open spec fn wf(&self) -> bool {
        bounded(self.spec_slots(), self.spec_len(), LEN as nat)
    }

    /// A well-formed vector is what it holds: two of them with the same
    /// elements in the same order are the same value.
    pub proof fn lemma_view_determines(&self, other: &Self)
        requires
            self.wf(),
            other.wf(),
            self@ == other@,
        ensures
            *self == *other,
    {
        assert(self@.len() == self.len);
        assert(other@.len() == other.len);
        assert forall|i: int| 0 <= i < LEN implies self.dat@[i] == other.dat@[i] by {
            if i < self.len {
                assert(self@[i] == self.dat@[i]->Some_0);
                assert(other@[i] == other.dat@[i]->Some_0);
                assert(self.dat@[i] is Some && other.dat@[i] is Some);
            } else {
                assert(self.dat@[i] is None && other.dat@[i] is None);
            }
        }
        assert(self.dat =~= other.dat);
    }

    /// An empty vector.
    pub fn new() -> (v: Self)
        ensures
            v.wf(),
            v@ == Seq::<T>::empty(),
    {
        let vacate = |_index: usize| -> (slot: Option<T>)
            ensures
                slot is None,
            { None };
        let v = CVec { dat: array_from_fn(vacate), len: 0 };
        assert forall|i: int| 0 <= i < LEN implies (#[trigger] v.dat@[i]) is None by {
            let at = i as usize;
            assert(vacate.ensures((at,), v.dat@[at as int]));
        }
        assert(v@ =~= Seq::<T>::empty());
        v
    }

    /// An empty vector.
    pub fn new_const() -> (v: Self)
        ensures
            v.wf(),
            v@ == Seq::<T>::empty(),
    {
        Self::new()
    }

    /// The number of live elements.
    pub fn len(&self) -> (n: usize)
        ensures
            n == self@.len(),
    {
        self.len
    }

    pub fn is_empty(&self) -> (b: bool)
        ensures
            b == (self@.len() == 0),
    {
        self.len() == 0
    }

    /// The number of slots, which is `LEN` whatever the vector holds.
    pub fn capacity(&self) -> (n: usize)
        ensures
            n == LEN,
    {
        LEN
    }

    pub fn is_full(&self) -> (b: bool)
        ensures
            b == (self@.len() == LEN),
    {
        self.len() == self.capacity()
    }

    /// The number of elements that can still be pushed.
    pub fn remaining_capacity(&self) -> (n: usize)
        requires
            self.wf(),
        ensures
            n == LEN - self@.len(),
    {
        self.capacity() - self.len()
    }

    /// Appends `element`. The vector must not be full.
    pub fn push(&mut self, element: T)
        requires
            old(self).wf(),
            old(self)@.len() < LEN,
        ensures
            final(self).wf(),
            final(self)@ == old(self)@.push(element),
    {
        ICVec::push(self, element)
    }

    /// Appends `element` if there is room for it, and otherwise hands it back
    /// inside the error, leaving the vector as it was.
    pub fn try_push(&mut self, element: T) -> (r: Result<(), CapacityError<T>>)
        requires
            old(self).wf(),
        ensures
            final(self).wf(),
            final(self)@ == pushed(old(self)@, LEN as nat, element),
            r is Ok <==> old(self)@.len() < LEN,
            r is Err ==> r->Err_0@ == element && *final(self) == *old(self),
    {
        let r = ICVec::try_push(self, element);
        proof {
            if r is Err {
                assert(self.dat =~= old(self).dat);
            }
        }
        r
    }

    /// Writes `element` into the first empty slot and takes that slot in.
    pub fn push_unchecked(&mut self, element: T)
        requires
            old(self).wf(),
            old(self)@.len() < LEN,
        ensures
            final(self).wf(),
            final(self)@ == old(self)@.push(element),
    {
        ICVec::push_unchecked(self, element)
    }

    /// Takes the last element out, if there is one.
    pub fn pop(&mut self) -> (r: Option<T>)
        requires
            old(self).wf(),
        ensures
            final(self).wf(),
            old(self)@.len() == 0 ==> r is None && final(self)@ == old(self)@,
            old(self)@.len() > 0 ==> r == Some(old(self)@.last()) && final(self)@ == old(
                self,
            )@.drop_last(),
    {
        ICVec::pop(self)
    }

    /// Drops every element from position `new_len` on. A `new_len` at or past
    /// the length changes nothing.
    pub fn truncate(&mut self, new_len: usize)
        requires
            old(self).wf(),
        ensures
            final(self).wf(),
            new_len < old(self)@.len() ==> final(self)@ == old(self)@.subrange(0, new_len as int),
            new_len >= old(self)@.len() ==> final(self)@ == old(self)@,
    {
        ICVec::truncate(self, new_len)
    }

    /// Drops every element.
    pub fn clear(&mut self)
        requires
            old(self).wf(),
        ensures
            final(self).wf(),
            final(self)@ == Seq::<T>::empty(),
    {
        ICVec::clear(self);
        assert(self@ =~= Seq::<T>::empty());
    }

    /// The element at `index`.
    pub fn get(&self, index: usize) -> (element: &T)
        requires
            self.wf(),
            index < self@.len(),
        ensures
            *element == self@[index as int],
    {
        self.slot(index).as_ref().unwrap()
    }

    /// The element at `index`, to be changed in place.
    pub fn get_mut(&mut self, index: usize) -> (element: &mut T)
        requires
            old(self).wf(),
            index < old(self)@.len(),
        ensures
            *element == old(self)@[index as int],
            final(self).wf(),
            final(self)@ == old(self)@.update(index as int, *final(element)),
    {
        let slot = self.slot_mut(index);
        let element = slot.as_mut().unwrap();
        element
    }

    /// Exchanges the elements at `a` and `b`.
    pub fn swap(&mut self, a: usize, b: usize)
        requires
            old(self).wf(),
            a < old(self)@.len(),
            b < old(self)@.len(),
        ensures
            final(self).wf(),
            final(self)@ == old(self)@.update(a as int, old(self)@[b as int]).update(
                b as int,
                old(self)@[a as int],
            ),
    {
        let x = self.slot_mut(a).take();
        let y = self.slot_mut(b).take();
        *self.slot_mut(a) = y;
        *self.slot_mut(b) = x;
        assert(self@ =~= old(self)@.update(a as int, old(self)@[b as int]).update(
            b as int,
            old(self)@[a as int],
        ));
    }

    /// Puts `element` at `index` and moves what was at `index` and after one
    /// place up. The index must not lie past the length, and the vector must
    /// not be full.
    pub fn insert(&mut self, index: usize, element: T)
        requires
            old(self).wf(),
            index <= old(self)@.len(),
            old(self)@.len() < LEN,
        ensures
            final(self).wf(),
            final(self)@ == old(self)@.insert(index as int, element),
    {
        let _ = self.try_insert(index, element);
    }

    /// Puts `element` at `index` when there is room, moving what was at
    /// `index` and after one place up; a full vector is left as it was and the
    /// element comes back inside the error. The index must not lie past the
    /// length.
    pub fn try_insert(&mut self, index: usize, element: T) -> (r: Result<(), CapacityError<T>>)
        requires
            old(self).wf(),
            index <= old(self)@.len(),
        ensures
            final(self).wf(),
            r is Ok <==> old(self)@.len() < LEN,
            r is Ok ==> final(self)@ == old(self)@.insert(index as int, element),
            r is Err ==> *final(self) == *old(self) && r->Err_0@ == element,
    {
        if self.len == LEN {
            return Err(CapacityError::new(element));
        }
        let len = self.len;
        let mut i = len;
        while i > index
            invariant
                index <= i <= len < LEN,
                self.len == len,
                old(self).wf(),
                old(self).len == len,
                forall|j: int| 0 <= j < i ==> self.dat@[j] == old(self).dat@[j],
                self.dat@[i as int] is None,
                forall|j: int| i < j <= len ==> self.dat@[j] == old(self).dat@[j - 1],
                vacant(self.dat@, len + 1, LEN as int),
            decreases i,
        {
            let moved = self.slot_mut(i - 1).take();
            *self.slot_mut(i) = moved;
            i = i - 1;
        }
        *self.slot_mut(index) = Some(element);
        self.set_len(len + 1);
        assert(self@ =~= old(self)@.insert(index as int, element));
        Ok(())
    }

    /// Exchanges the element at `index` with the last one and takes it out.
    /// The order of the others is not kept. The index must name an element.
    pub fn swap_remove(&mut self, index: usize) -> (element: T)
        requires
            old(self).wf(),
            index < old(self)@.len(),
        ensures
            final(self).wf(),
            element == old(self)@[index as int],
            final(self)@ == old(self)@.update(index as int, old(self)@.last()).drop_last(),
    {
        self.swap_pop(index).unwrap()
    }

    /// As `swap_remove`, but an index that names no element gives `None` and
    /// changes nothing.
    pub fn swap_pop(&mut self, index: usize) -> (r: Option<T>)
        requires
            old(self).wf(),
        ensures
            final(self).wf(),
            index >= old(self)@.len() ==> r is None && final(self)@ == old(self)@,
            index < old(self)@.len() ==> r == Some(old(self)@[index as int]) && final(self)@
                == old(self)@.update(index as int, old(self)@.last()).drop_last(),
    {
        let len = self.len();
        if index >= len {
            return None;
        }
        self.swap(index, len - 1);
        let r = self.pop();
        assert(self@ =~= old(self)@.update(index as int, old(self)@.last()).drop_last());
        r
    }

    /// Takes the element at `index` out and moves what came after it one place
    /// down. The index must name an element.
    pub fn remove(&mut self, index: usize) -> (element: T)
        requires
            old(self).wf(),
            index < old(self)@.len(),
        ensures
            final(self).wf(),
            element == old(self)@[index as int],
            final(self)@ == old(self)@.remove(index as int),
    {
        self.pop_at(index).unwrap()
    }

    /// As `remove`, but an index that names no element gives `None` and
    /// changes nothing.
    pub fn pop_at(&mut self, index: usize) -> (r: Option<T>)
        requires
            old(self).wf(),
        ensures
            final(self).wf(),
            index >= old(self)@.len() ==> r is None && final(self)@ == old(self)@,
            index < old(self)@.len() ==> r == Some(old(self)@[index as int]) && final(self)@
                == old(self)@.remove(index as int),
    {
        if index >= self.len() {
            None
        } else {
            let mut drain = self.drain_range(index, index + 1);
            let r = drain.next();
            drain.finish();
            assert(self@ =~= old(self)@.remove(index as int));
            r
        }
    }

    /// Moves the `count` live elements that start at slot `src` down to start
    /// at slot `dst`. The slots between `dst` and `src` must be empty.
    fn backshift(&mut self, dst: usize, src: usize, count: usize)
        requires
            dst <= src,
            src + count <= LEN,
            vacant(old(self).dat@, dst as int, src as int),
            live(old(self).dat@, src as int, src + count),
        ensures
            final(self).len == old(self).len,
            forall|j: int| 0 <= j < dst ==> final(self).dat@[j] == old(self).dat@[j],
            forall|j: int|
                dst <= j < dst + count ==> final(self).dat@[j] == old(self).dat@[j + (src - dst)],
            vacant(final(self).dat@, dst + count, src + count),
            forall|j: int| src + count <= j < LEN ==> final(self).dat@[j] == old(self).dat@[j],
    {
        let mut k: usize = 0;
        while k < count
            invariant
                k <= count,
                dst <= src,
                src + count <= LEN,
                self.len == old(self).len,
                live(old(self).dat@, src as int, src + count),
                forall|j: int| 0 <= j < dst ==> self.dat@[j] == old(self).dat@[j],
                forall|j: int|
                    dst <= j < dst + k ==> self.dat@[j] == old(self).dat@[j + (src - dst)],
                vacant(self.dat@, dst + k, src + k),
                forall|j: int| src + k <= j < LEN ==> self.dat@[j] == old(self).dat@[j],
            decreases count - k,
        {
            let moved = self.slot_mut(src + k).take();
            *self.slot_mut(dst + k) = moved;
            k = k + 1;
        }
    }

    /// Keeps the elements that `f` accepts and drops the others, in one pass
    /// from the front. Each element is shown to `f` once, which may change
    /// it; the kept elements stay in the order they had.
    ///
    /// Elements are left where they are until the first one is dropped; from
    /// then on each kept element is moved down over the gap.
    pub fn retain<F: FnMut(&mut T) -> bool>(&mut self, f: F)
        requires
            old(self).wf(),
            forall|i: int, r: &mut T|
                #![trigger old(self)@[i], f.requires((r,))]
                0 <= i < old(self)@.len() && *r == old(self)@[i] ==> f.requires((r,)),
        ensures
            final(self).wf(),
            exists|keep: Seq<bool>, seen: Seq<T>|
                {
                    &&& keep.len() == old(self)@.len()
                    &&& seen.len() == old(self)@.len()
                    &&& forall|i: int|
                        0 <= i < keep.len() ==> if #[trigger] keep[i] {
                            exists|r: &mut T|
                                #![trigger f.ensures((r,), true)]
                                *r == old(self)@[i] && *final(r) == seen[i] && f.ensures((r,), true)
                        } else {
                            exists|r: &mut T|
                                #![trigger f.ensures((r,), false)]
                                *r == old(self)@[i] && *final(r) == seen[i] && f.ensures((r,), false)
                        }
                    &&& final(self)@ == kept(seen, keep)
                },
            forall|p: spec_fn(T) -> bool|
                (forall|i: int, r: &mut T, b: bool|
                    #![trigger old(self)@[i], f.ensures((r,), b)]
                    0 <= i < old(self)@.len() && *r == old(self)@[i] && f.ensures((r,), b)
                        ==> *final(r) == *r && b == p(*r)) ==> final(self)@ == old(self)@.filter(p),
    {
        let mut pred = f;
        let full_len = self.len;
        let ghost before = self@;
        self.set_len(0);
        let mut processed_len: usize = 0;
        let mut deleted_cnt: usize = 0;
        let ghost mut keep: Seq<bool> = Seq::empty();
        let ghost mut seen: Seq<T> = Seq::empty();
        proof {
            assert(held(self.dat@, 0, 0) =~= kept(seen, keep));
        }
        while processed_len != full_len && deleted_cnt == 0
            invariant
                pred == f,
                processed_len <= full_len <= LEN,
                deleted_cnt <= 1,
                deleted_cnt <= processed_len,
                old(self).wf(),
                old(self).len == full_len,
                before == old(self)@,
                keep.len() == processed_len,
                seen.len() == processed_len,
                forall|i: int, r: &mut T|
                    #![trigger before[i], f.requires((r,))]
                    0 <= i < before.len() && *r == before[i] ==> f.requires((r,)),
                forall|i: int|
                    0 <= i < keep.len() ==> if #[trigger] keep[i] {
                        exists|r: &mut T|
                            #![trigger f.ensures((r,), true)]
                            *r == before[i] && *final(r) == seen[i] && f.ensures((r,), true)
                    } else {
                        exists|r: &mut T|
                            #![trigger f.ensures((r,), false)]
                            *r == before[i] && *final(r) == seen[i] && f.ensures((r,), false)
                    },
                live(self.dat@, 0, processed_len - deleted_cnt),
                held(self.dat@, 0, processed_len - deleted_cnt) == kept(seen, keep),
                vacant(self.dat@, processed_len - deleted_cnt, processed_len as int),
                forall|j: int| processed_len <= j < LEN ==> self.dat@[j] == old(self).dat@[j],
            decreases full_len - processed_len,
        {
            let ghost slots = self.dat@;
            let ghost done = kept(seen, keep);
            let ghost was_seen = seen;
            let ghost was_kept = keep;
            assert(before[processed_len as int] == self.dat@[processed_len as int]->Some_0);
            let stays = pred(self.slot_mut(processed_len).as_mut().unwrap());
            proof {
                let now = self.dat@[processed_len as int]->Some_0;
                assert(forall|j: int| 0 <= j < LEN && j != processed_len ==> self.dat@[j] == slots[j]);
                assert(exists|r: &mut T|
                    #![trigger f.ensures((r,), stays)]
                    *r == before[processed_len as int] && *final(r) == now && f.ensures(
                        (r,),
                        stays,
                    ));
                seen = seen.push(now);
                keep = keep.push(stays);
                assert(seen.drop_last() =~= was_seen);
                assert(keep.drop_last() =~= was_kept);
                assert forall|i: int| 0 <= i < keep.len() implies if #[trigger] keep[i] {
                    exists|r: &mut T|
                        #![trigger f.ensures((r,), true)]
                        *r == before[i] && *final(r) == seen[i] && f.ensures((r,), true)
                } else {
                    exists|r: &mut T|
                        #![trigger f.ensures((r,), false)]
                        *r == before[i] && *final(r) == seen[i] && f.ensures((r,), false)
                } by {
                    if i < processed_len {
                        assert(seen[i] == was_seen[i]);
                        assert(keep[i] == was_kept[i]);
                    } else {
                        assert(seen[i] == now);
                        assert(keep[i] == stays);
                    }
                }
                assert forall|j: int| 0 <= j < done.len() implies self.dat@[j]->Some_0
                    == done[j] by {
                    assert(held(slots, 0, done.len() as int)[j] == slots[j]->Some_0);
                }
            }
            if !stays {
                *self.slot_mut(processed_len) = None;
                deleted_cnt = 1;
                assert(held(self.dat@, 0, processed_len as int) =~= done);
            } else {
                assert(held(self.dat@, 0, processed_len + 1) =~= done.push(seen.last()));
            }
            processed_len = processed_len + 1;
        }
        while processed_len != full_len
            invariant
                pred == f,
                processed_len <= full_len <= LEN,
                deleted_cnt <= processed_len,
                processed_len < full_len ==> deleted_cnt > 0,
                old(self).wf(),
                old(self).len == full_len,
                before == old(self)@,
                keep.len() == processed_len,
                seen.len() == processed_len,
                forall|i: int, r: &mut T|
                    #![trigger before[i], f.requires((r,))]
                    0 <= i < before.len() && *r == before[i] ==> f.requires((r,)),
                forall|i: int|
                    0 <= i < keep.len() ==> if #[trigger] keep[i] {
                        exists|r: &mut T|
                            #![trigger f.ensures((r,), true)]
                            *r == before[i] && *final(r) == seen[i] && f.ensures((r,), true)
                    } else {
                        exists|r: &mut T|
                            #![trigger f.ensures((r,), false)]
                            *r == before[i] && *final(r) == seen[i] && f.ensures((r,), false)
                    },
                live(self.dat@, 0, processed_len - deleted_cnt),
                held(self.dat@, 0, processed_len - deleted_cnt) == kept(seen, keep),
                vacant(self.dat@, processed_len - deleted_cnt, processed_len as int),
                forall|j: int| processed_len <= j < LEN ==> self.dat@[j] == old(self).dat@[j],
            decreases full_len - processed_len,
        {
            let ghost slots = self.dat@;
            let ghost done = kept(seen, keep);
            let ghost was_seen = seen;
            let ghost was_kept = keep;
            assert(before[processed_len as int] == self.dat@[processed_len as int]->Some_0);
            let stays = pred(self.slot_mut(processed_len).as_mut().unwrap());
            proof {
                let now = self.dat@[processed_len as int]->Some_0;
                assert(forall|j: int| 0 <= j < LEN && j != processed_len ==> self.dat@[j] == slots[j]);
                assert(exists|r: &mut T|
                    #![trigger f.ensures((r,), stays)]
                    *r == before[processed_len as int] && *final(r) == now && f.ensures(
                        (r,),
                        stays,
                    ));
                seen = seen.push(now);
                keep = keep.push(stays);
                assert(seen.drop_last() =~= was_seen);
                assert(keep.drop_last() =~= was_kept);
                assert forall|i: int| 0 <= i < keep.len() implies if #[trigger] keep[i] {
                    exists|r: &mut T|
                        #![trigger f.ensures((r,), true)]
                        *r == before[i] && *final(r) == seen[i] && f.ensures((r,), true)
                } else {
                    exists|r: &mut T|
                        #![trigger f.ensures((r,), false)]
                        *r == before[i] && *final(r) == seen[i] && f.ensures((r,), false)
                } by {
                    if i < processed_len {
                        assert(seen[i] == was_seen[i]);
                        assert(keep[i] == was_kept[i]);
                    } else {
                        assert(seen[i] == now);
                        assert(keep[i] == stays);
                    }
                }
                assert forall|j: int| 0 <= j < done.len() implies self.dat@[j]->Some_0
                    == done[j] by {
                    assert(held(slots, 0, done.len() as int)[j] == slots[j]->Some_0);
                }
            }
            let moved = self.slot_mut(processed_len).take();
            if stays {
                *self.slot_mut(processed_len - deleted_cnt) = moved;
                assert(held(self.dat@, 0, processed_len - deleted_cnt + 1) =~= done.push(
                    seen.last(),
                ));
            } else {
                deleted_cnt = deleted_cnt + 1;
                assert(held(self.dat@, 0, processed_len + 1 - deleted_cnt) =~= done);
            }
            processed_len = processed_len + 1;
        }
        self.set_len(full_len - deleted_cnt);
        proof {
            assert forall|p: spec_fn(T) -> bool|
                (forall|i: int, r: &mut T, b: bool|
                    #![trigger before[i], f.ensures((r,), b)]
                    0 <= i < before.len() && *r == before[i] && f.ensures((r,), b) ==> *final(r)
                        == *r && b == p(*r)) implies self@ == before.filter(p) by {
                assert forall|i: int| 0 <= i < before.len() implies (#[trigger] seen[i])
                    == before[i] by {
                    let flag = keep[i];
                    let r = choose|r: &mut T|
                        #![trigger f.ensures((r,), flag)]
                        *r == before[i] && *final(r) == seen[i] && f.ensures((r,), flag);
                    assert(f.ensures((r,), flag));
                }
                assert forall|i: int| 0 <= i < before.len() implies (#[trigger] keep[i]) == p(
                    before[i],
                ) by {
                    let flag = keep[i];
                    let r = choose|r: &mut T|
                        #![trigger f.ensures((r,), flag)]
                        *r == before[i] && *final(r) == seen[i] && f.ensures((r,), flag);
                    assert(f.ensures((r,), flag));
                }
                assert(seen.len() == before.len());
                assert(seen =~= before);
                lemma_kept_is_filter(before, keep, p);
            }
        }
    }

    /// Appends the elements of `other`, all of them or, when they do not all
    /// fit, none.
    pub fn try_extend_from_slice(&mut self, other: &[T]) -> (r: Result<(), CapacityError>) where
        T: Copy,

        requires
            old(self).wf(),
        ensures
            final(self).wf(),
            r is Ok <==> old(self)@.len() + other@.len() <= LEN,
            r is Ok ==> final(self)@ == old(self)@ + other@,
            r is Err ==> *final(self) == *old(self),
    {
        if self.remaining_capacity() < other.len() {
            return Err(CapacityError::new(()));
        }
        let self_len = self.len();
        let other_len = other.len();
        let mut k: usize = 0;
        while k < other_len
            invariant
                k <= other_len,
                other_len == other@.len(),
                self_len + other_len <= LEN,
                self.len == self_len,
                old(self).wf(),
                old(self).len == self_len,
                forall|j: int| 0 <= j < self_len ==> self.dat@[j] == old(self).dat@[j],
                forall|j: int|
                    self_len <= j < self_len + k ==> self.dat@[j] == Some(other@[j - self_len]),
                vacant(self.dat@, self_len + k, LEN as int),
            decreases other_len - k,
        {
            *self.slot_mut(self_len + k) = Some(other[k]);
            k = k + 1;
        }
        self.set_len(self_len + other_len);
        assert(self@ =~= old(self)@ + other@);
        Ok(())
    }

    /// Appends clones of the elements of `slice`, as many of them, from the
    /// front, as there is room for.
    pub fn extend_from_slice(&mut self, slice: &[T]) where T: Clone
        requires
            old(self).wf(),
        ensures
            final(self).wf(),
            final(self)@.len() == if old(self)@.len() + slice@.len() <= LEN {
                old(self)@.len() + slice@.len()
            } else {
                LEN as nat
            },
            final(self)@.subrange(0, old(self)@.len() as int) == old(self)@,
            forall|j: int|
                old(self)@.len() <= j < final(self)@.len() ==> cloned(
                    slice@[j - old(self)@.len()],
                    #[trigger] final(self)@[j],
                ),
    {
        let room = self.capacity() - self.len();
        let take = if room < slice.len() {
            room
        } else {
            slice.len()
        };
        let start = self.len;
        let mut k: usize = 0;
        while k < take
            invariant
                k <= take,
                take <= slice@.len(),
                start + take <= LEN,
                old(self).wf(),
                old(self).len == start,
                self@.len() == start + k,
                self.wf(),
                self@.subrange(0, start as int) == old(self)@,
                forall|j: int| start <= j < start + k ==> cloned(slice@[j - start], #[trigger] self@[j]),
            decreases take - k,
        {
            let ghost prev = self@;
            self.push_unchecked(slice[k].clone());
            k = k + 1;
            assert(self@.subrange(0, start as int) =~= prev.subrange(0, start as int));
        }
    }

    /// Appends what `iterable` yields, in order. It must not yield more than
    /// there is room for.
    pub fn extend<I: Iterator<Item = T>>(&mut self, iterable: I)
        requires
            old(self).wf(),
            iterable.obeys_prophetic_iter_laws(),
            iterable.decrease() is Some,
            old(self)@.len() + iterable.remaining().len() <= LEN,
        ensures
            final(self).wf(),
            final(self)@ == old(self)@ + iterable.remaining(),
    {
        self.extend_from_iter::<I, true>(iterable)
    }

    /// Appends what `iterable` yields, in order, writing each element into the
    /// next empty slot and taking the slot in as soon as it is written. The
    /// elements must all fit, whether or not the caller asks for the room to
    /// be watched with `CHECK`.
    pub fn extend_from_iter<I: Iterator<Item = T>, const CHECK: bool>(&mut self, iterable: I)
        requires
            old(self).wf(),
            iterable.obeys_prophetic_iter_laws(),
            iterable.decrease() is Some,
            old(self)@.len() + iterable.remaining().len() <= LEN,
        ensures
            final(self).wf(),
            final(self)@ == old(self)@ + iterable.remaining(),
    {
        let mut iter = iterable;
        loop
            invariant_except_break
                self@ + iter.remaining() == old(self)@ + iterable.remaining(),
            invariant
                self.wf(),
                iter.obeys_prophetic_iter_laws(),
                iter.decrease() is Some,
                old(self)@.len() + iterable.remaining().len() <= LEN,
            ensures
                self@ == old(self)@ + iterable.remaining(),
            decreases iter.decrease()->0,
        {
            let ghost before = self@;
            let ghost rest = iter.remaining();
            match iter.next() {
                Some(elt) => {
                    assert((before + rest).len() == before.len() + rest.len());
                    assert((old(self)@ + iterable.remaining()).len() == old(self)@.len()
                        + iterable.remaining().len());
                    self.push_unchecked(elt);
                    assert(self@ + iter.remaining() =~= before + rest);
                },
                None => {
                    assert(before + rest =~= before);
                    break ;
                },
            }
        }
    }

    /// The vector that holds what `iterable` yields, in order. It must not
    /// yield more than `LEN` elements.
    pub fn from_iter<I: Iterator<Item = T>>(iterable: I) -> (v: Self)
        requires
            iterable.obeys_prophetic_iter_laws(),
            iterable.decrease() is Some,
            iterable.remaining().len() <= LEN,
        ensures
            v.wf(),
            v@ == iterable.remaining(),
    {
        let mut v = Self::new();
        v.extend(iterable);
        assert(v@ =~= iterable.remaining());
        v
    }

    /// The vector that holds clones of the elements of `slice`, or the
    /// overflow error when there are more than `LEN` of them.
    pub fn try_from(slice: &[T]) -> (r: Result<Self, CapacityError>) where T: Clone
        ensures
            r is Ok <==> slice@.len() <= LEN,
            r is Ok ==> r->Ok_0.wf() && r->Ok_0@.len() == slice@.len() && forall|j: int|
                0 <= j < slice@.len() ==> cloned(slice@[j], #[trigger] r->Ok_0@[j]),
    {
        if LEN < slice.len() {
            Err(CapacityError::new(()))
        } else {
            let mut array = Self::new();
            array.extend_from_slice(slice);
            Ok(array)
        }
    }

    /// Makes the vector hold clones of the elements of `rhs`, in order:
    /// the elements both have are overwritten in place, and then the vector
    /// is cut down or filled up to the length of `rhs`.
    pub fn clone_from(&mut self, rhs: &Self) where T: Clone
        requires
            old(self).wf(),
            rhs.wf(),
        ensures
            final(self).wf(),
            final(self)@.len() == rhs@.len(),
            forall|j: int| 0 <= j < rhs@.len() ==> cloned(rhs@[j], #[trigger] final(self)@[j]),
    {
        let prefix = if self.len() < rhs.len() {
            self.len()
        } else {
            rhs.len()
        };
        let mut i: usize = 0;
        while i < prefix
            invariant
                i <= prefix,
                prefix <= self.len,
                prefix <= rhs.len,
                self.len == old(self).len,
                self.wf(),
                rhs.wf(),
                forall|j: int| 0 <= j < i ==> cloned(rhs@[j], #[trigger] self@[j]),
            decreases prefix - i,
        {
            let ghost before = self@;
            let element = rhs.get(i).clone();
            assert(cloned(rhs@[i as int], element));
            *self.slot_mut(i) = Some(element);
            assert forall|j: int| 0 <= j <= i implies cloned(rhs@[j], #[trigger] self@[j]) by {
                if j < i {
                    assert(self@[j] == before[j]);
                } else {
                    assert(self@[j] == element);
                }
            }
            i = i + 1;
        }
        if prefix < self.len() {
            let ghost before = self@;
            self.truncate(prefix);
            assert(forall|j: int| 0 <= j < prefix ==> self@[j] == before[j]);
        } else {
            let mut k = prefix;
            while k < rhs.len
                invariant
                    prefix <= k <= rhs.len,
                    rhs.len <= LEN,
                    self@.len() == k,
                    self.wf(),
                    rhs.wf(),
                    forall|j: int| 0 <= j < k ==> cloned(rhs@[j], #[trigger] self@[j]),
                decreases rhs.len - k,
            {
                let ghost before = self@;
                self.push_unchecked(rhs.get(k).clone());
                assert(forall|j: int| 0 <= j < k ==> self@[j] == before[j]);
                k = k + 1;
            }
        }
    }

    /// A vector that holds clones of the elements, in order.
    pub fn clone(&self) -> (copy: Self) where T: Clone
        requires
            self.wf(),
        ensures
            copy.wf(),
            copy@.len() == self@.len(),
            forall|j: int| 0 <= j < self@.len() ==> cloned(self@[j], #[trigger] copy@[j]),
    {
        let mut copy = Self::new();
        let mut i: usize = 0;
        while i < self.len
            invariant
                i <= self.len,
                self.wf(),
                copy.wf(),
                copy@.len() == i,
                forall|j: int| 0 <= j < i ==> cloned(self@[j], #[trigger] copy@[j]),
            decreases self.len - i,
        {
            copy.push_unchecked(self.get(i).clone());
            i = i + 1;
        }
        copy
    }

    /// Hands out the elements at `[range.start, range.end)` one by one and
    /// closes the gap when the drain is finished. The range must lie within
    /// the vector.
    pub fn drain(&mut self, range: core::ops::Range<usize>) -> (d: Drain<'_, T, LEN>)
        requires
            old(self).wf(),
            range.start <= range.end <= old(self)@.len(),
        ensures
            d.wf(),
            d.remaining() == old(self)@.subrange(range.start as int, range.end as int),
            d.restored() == without_range(old(self)@, range.start as int, range.end as int),
            *final(d.vec) == *final(self),
    {
        self.drain_range(range.start, range.end)
    }

    /// Hands out the elements from `start` to `end`, as `drain` does for the
    /// positions that the two bounds come to. Those positions must be a range
    /// within the vector.
    pub fn drain_bounds(&mut self, start: Bound, end: Bound) -> (d: Drain<'_, T, LEN>)
        requires
            old(self).wf(),
            first_position(start) <= end_position(end, old(self)@.len() as int) <= old(self)@.len(),
        ensures
            d.wf(),
            d.remaining() == old(self)@.subrange(
                first_position(start),
                end_position(end, old(self)@.len() as int),
            ),
            d.restored() == without_range(
                old(self)@,
                first_position(start),
                end_position(end, old(self)@.len() as int),
            ),
            *final(d.vec) == *final(self),
    {
        let (first, past) = resolve_bounds(start, end, self.len());
        self.drain_range(first, past)
    }

    /// As `drain`, with the two ends of the range given apart.
    ///
    /// While the drain lasts the vector's own length is `start`; the elements
    /// after `end` wait in their slots until the drain closes the gap.
    pub fn drain_range(&mut self, start: usize, end: usize) -> (d: Drain<'_, T, LEN>)
        requires
            old(self).wf(),
            start <= end <= old(self)@.len(),
        ensures
            d.wf(),
            d.remaining() == old(self)@.subrange(start as int, end as int),
            d.restored() == without_range(old(self)@, start as int, end as int),
            *final(d.vec) == *final(self),
    {
        let len = self.len();
        self.set_len(start);
        let d = Drain { tail_start: end, tail_len: len - end, front: start, back: end, vec: self };
        assert(d.remaining() =~= old(self)@.subrange(start as int, end as int));
        assert(d.restored() =~= without_range(old(self)@, start as int, end as int));
        d
    }

    /// What `from` promises of the vector it makes out of `array`.
    pub open spec fn holds_array(&self, array: [T; LEN]) -> bool {
        self.wf() && self@ == array@
    }

    /// What `into_inner` promises of its result: the array of the elements
    /// when the vector is full, otherwise the vector itself.
    pub open spec fn is_inner(&self, r: Result<[T; LEN], Self>) -> bool {
        &&& r is Ok <==> self@.len() == LEN
        &&& r is Ok ==> r->Ok_0@ == self@
        &&& r is Err ==> r->Err_0 == *self
    }

    /// The full vector that holds the elements of `array`, in order.
    pub fn from(array: [T; LEN]) -> (v: Self)
        ensures
            v.holds_array(array),
    {
        let fill = |x: T| -> (slot: Option<T>)
            ensures
                slot == Some(x),
            { Some(x) };
        let v = CVec { dat: map_array(array, fill), len: LEN };
        assert(v@ =~= array@);
        v
    }

    /// The elements as an array, when the vector is full; otherwise the vector
    /// comes back unchanged as the error.
    pub fn into_inner(self) -> (r: Result<[T; LEN], Self>)
        requires
            self.wf(),
        ensures
            self.is_inner(r),
    {
        if self.len() < self.capacity() {
            Err(self)
        } else {
            Ok(self.into_inner_unchecked())
        }
    }

    /// The elements as an array. The vector must be full.
    pub fn into_inner_unchecked(self) -> (array: [T; LEN])
        requires
            self.wf(),
            self@.len() == LEN,
        ensures
            array@ == self@,
    {
        let open = |slot: Option<T>| -> (x: T)
            requires
                slot is Some,
            ensures
                slot == Some(x),
            { slot.unwrap() };
        let array = map_array(self.dat, open);
        assert(array@ =~= self@);
        array
    }

    /// Hands the vector over and leaves an empty one in its place.
    pub fn take(&mut self) -> (taken: Self)
        ensures
            taken == *old(self),
            final(self).wf(),
            final(self)@ == Seq::<T>::empty(),
    {
        let mut taken = Self::new();
        core::mem::swap(self, &mut taken);
        taken
    }

    /// References to the live elements, in order.
    pub fn as_slice(&self) -> (elements: Vec<&T>)
        requires
            self.wf(),
        ensures
            elements@.len() == self@.len(),
            forall|i: int| 0 <= i < self@.len() ==> *(#[trigger] elements@[i]) == self@[i],
    {
        let mut elements: Vec<&T> = Vec::new();
        let mut i: usize = 0;
        while i < self.len
            invariant
                i <= self.len,
                self.wf(),
                elements@.len() == i,
                forall|j: int| 0 <= j < i ==> *(#[trigger] elements@[j]) == self@[j],
            decreases self.len - i,
        {
            elements.push(self.get(i));
            i = i + 1;
        }
        elements
    }

    /// Consumes the vector and hands its elements out from either end.
    pub fn into_iter(self) -> (it: IntoIter<T, LEN>)
        requires
            self.wf(),
        ensures
            it.wf(),
            it.remaining() == self@,
    {
        let it = IntoIter { index: 0, v: self };
        assert(it.remaining() =~= self@);
        it
    }
}

impl<T, const LEN: usize> Default for CVec<T, LEN> {
    /// An empty vector.
    fn default() -> (v: Self)
        ensures
            v.wf(),
            v@ == Seq::<T>::empty(),
    {
        CVec::new()
    }
}

impl<const LEN: usize> CVec<u8, LEN> {
    /// Appends as many bytes of `data`, from the front, as there is room for,
    /// and says how many that was.
    pub fn write(&mut self, data: &[u8]) -> (written: usize)
        requires
            old(self).wf(),
        ensures
            final(self).wf(),
            written == if data@.len() <= LEN - old(self)@.len() {
                data@.len() as int
            } else {
                LEN - old(self)@.len()
            },
            final(self)@ == old(self)@ + data@.subrange(0, written as int),
    {
        let room = self.remaining_capacity();
        let len = if room < data.len() {
            room
        } else {
            data.len()
        };
        let part = vstd::slice::slice_subrange(data, 0, len);
        let _ = self.try_extend_from_slice(part);
        len
    }

    /// Nothing is held back by `write`, so there is nothing to do.
    pub fn flush(&mut self)
        ensures
            *final(self) == *old(self),
    {
    }
}

/// The elements of a vector that was given up, handed out from either end.
pub struct IntoIter<T, const LEN: usize> {
    index: usize,
    v: CVec<T, LEN>,
}

impl<T, const LEN: usize> IntoIter<T, LEN> {
    /// The elements not yet handed out sit in the slots `[index, len)`, and
    /// every other slot is empty.
    pub closed spec fn wf(&self) -> bool {
        &&& self.index <= self.v.len <= LEN
        &&& vacant(self.v.dat@, 0, self.index as int)
        &&& live(self.v.dat@, self.index as int, self.v.len as int)
        &&& vacant(self.v.dat@, self.v.len as int, LEN as int)
    }

    /// The elements not yet handed out, in order.
    pub closed spec fn remaining(&self) -> Seq<T> {
        held(self.v.dat@, self.index as int, self.v.len as int)
    }

    /// Hands out the first remaining element.
    pub fn next(&mut self) -> (r: Option<T>)
        requires
            old(self).wf(),
        ensures
            final(self).wf(),
            old(self).remaining().len() == 0 ==> r is None && final(self).remaining() == old(
                self,
            ).remaining(),
            old(self).remaining().len() > 0 ==> r == Some(old(self).remaining().first())
                && final(self).remaining() == old(self).remaining().drop_first(),
    {
        if self.index == self.v.len {
            None
        } else {
            let index = self.index;
            self.index = index + 1;
            let r = self.v.slot_mut(index).take();
            assert(self.remaining() =~= old(self).remaining().drop_first());
            r
        }
    }

    /// Hands out the last remaining element.
    pub fn next_back(&mut self) -> (r: Option<T>)
        requires
            old(self).wf(),
        ensures
            final(self).wf(),
            old(self).remaining().len() == 0 ==> r is None && final(self).remaining() == old(
                self,
            ).remaining(),
            old(self).remaining().len() > 0 ==> r == Some(old(self).remaining().last())
                && final(self).remaining() == old(self).remaining().drop_last(),
    {
        if self.index == self.v.len {
            None
        } else {
            let new_len = self.v.len - 1;
            self.v.set_len(new_len);
            let r = self.v.slot_mut(new_len).take();
            assert(self.remaining() =~= old(self).remaining().drop_last());
            r
        }
    }

    /// An iterator that will hand out clones of the elements that this one
    /// has not handed out yet.
    pub fn clone(&self) -> (it: Self) where T: Clone
        requires
            self.wf(),
        ensures
            it.wf(),
            it.remaining().len() == self.remaining().len(),
            forall|j: int|
                0 <= j < self.remaining().len() ==> cloned(
                    self.remaining()[j],
                    #[trigger] it.remaining()[j],
                ),
    {
        let mut v: CVec<T, LEN> = CVec::new();
        let mut i = self.index;
        while i < self.v.len
            invariant
                self.index <= i <= self.v.len,
                self.wf(),
                v.wf(),
                v@.len() == i - self.index,
                forall|j: int|
                    0 <= j < i - self.index ==> cloned(self.remaining()[j], #[trigger] v@[j]),
            decreases self.v.len - i,
        {
            let ghost before = v@;
            assert(self.remaining()[i - self.index] == self.v.dat@[i as int]->Some_0);
            v.push_unchecked(self.v.slot(i).as_ref().unwrap().clone());
            assert(forall|j: int| 0 <= j < i - self.index ==> v@[j] == before[j]);
            i = i + 1;
        }
        v.into_iter()
    }

    /// The number of elements not yet handed out, as both bounds.
    pub fn size_hint(&self) -> (hint: (usize, Option<usize>))
        requires
            self.wf(),
        ensures
            hint.0 == self.remaining().len(),
            hint.1 == Some(hint.0),
    {
        let len = self.v.len - self.index;
        (len, Some(len))
    }
}

/// A drain in progress over the slots `[front, back)` of the vector it
/// borrows.
///
/// The fields are public so that contracts can speak of the vector that the
/// borrow hands back; a drain is made by `CVec::drain` and nowhere else.
pub struct Drain<'a, T, const LEN: usize> {
    /// The slot of the first element after the drained range.
    pub tail_start: usize,
    /// The number of elements after the drained range.
    pub tail_len: usize,
    /// The slot of the next element to hand out from the front.
    pub front: usize,
    /// One past the slot of the next element to hand out from the back.
    pub back: usize,
    /// The vector drained from. Its own length is the start of the range.
    pub vec: &'a mut CVec<T, LEN>,
}

impl<'a, T, const LEN: usize> Drain<'a, T, LEN> {
    /// The borrowed vector's slots are live up to its length, from `front` to
    /// `back`, and over the tail; every other slot is empty.
    pub closed spec fn wf(&self) -> bool {
        &&& self.vec.len <= self.front <= self.back <= self.tail_start
        &&& self.tail_start + self.tail_len <= LEN
        &&& live(self.vec.dat@, 0, self.vec.len as int)
        &&& vacant(self.vec.dat@, self.vec.len as int, self.front as int)
        &&& live(self.vec.dat@, self.front as int, self.back as int)
        &&& vacant(self.vec.dat@, self.back as int, self.tail_start as int)
        &&& live(self.vec.dat@, self.tail_start as int, self.tail_start + self.tail_len)
        &&& vacant(self.vec.dat@, self.tail_start + self.tail_len, LEN as int)
    }

    /// The elements of the range not yet handed out, in order.
    pub closed spec fn remaining(&self) -> Seq<T> {
        held(self.vec.dat@, self.front as int, self.back as int)
    }

    /// What the vector holds once the drain has finished: the elements before
    /// the range followed by those after it.
    pub closed spec fn restored(&self) -> Seq<T> {
        held(self.vec.dat@, 0, self.vec.len as int) + held(
            self.vec.dat@,
            self.tail_start as int,
            self.tail_start + self.tail_len,
        )
    }

    /// Hands out the first remaining element of the range.
    pub fn next(&mut self) -> (r: Option<T>)
        requires
            old(self).wf(),
        ensures
            final(self).wf(),
            final(self).restored() == old(self).restored(),
            *final(final(self).vec) == *final(old(self).vec),
            old(self).remaining().len() == 0 ==> r is None && final(self).remaining() == old(
                self,
            ).remaining(),
            old(self).remaining().len() > 0 ==> r == Some(old(self).remaining().first())
                && final(self).remaining() == old(self).remaining().drop_first(),
    {
        if self.front == self.back {
            None
        } else {
            let i = self.front;
            self.front = i + 1;
            let r = self.vec.slot_mut(i).take();
            assert(self.restored() =~= old(self).restored());
            assert(self.remaining() =~= old(self).remaining().drop_first());
            r
        }
    }

    /// Hands out the last remaining element of the range.
    pub fn next_back(&mut self) -> (r: Option<T>)
        requires
            old(self).wf(),
        ensures
            final(self).wf(),
            final(self).restored() == old(self).restored(),
            *final(final(self).vec) == *final(old(self).vec),
            old(self).remaining().len() == 0 ==> r is None && final(self).remaining() == old(
                self,
            ).remaining(),
            old(self).remaining().len() > 0 ==> r == Some(old(self).remaining().last())
                && final(self).remaining() == old(self).remaining().drop_last(),
    {
        if self.front == self.back {
            None
        } else {
            let i = self.back - 1;
            self.back = i;
            let r = self.vec.slot_mut(i).take();
            assert(self.restored() =~= old(self).restored());
            assert(self.remaining() =~= old(self).remaining().drop_last());
            r
        }
    }

    /// The number of elements of the range not yet handed out, as both bounds.
    pub fn size_hint(&self) -> (hint: (usize, Option<usize>))
        requires
            self.wf(),
        ensures
            hint.0 == self.remaining().len(),
            hint.1 == Some(hint.0),
    {
        let len = self.back - self.front;
        (len, Some(len))
    }

    /// Ends the drain: drops what was not handed out and moves the elements
    /// after the range down to close the gap. However much of the range was
    /// consumed, the vector is left well formed and holds what came before the
    /// range followed by what came after it.
    pub fn finish(self)
        requires
            self.wf(),
        ensures
            final(self.vec).wf(),
            final(self.vec)@ == self.restored(),
    {
        let mut drain = self;
        while drain.front != drain.back
            invariant
                drain.wf(),
                drain.restored() == self.restored(),
                *final(drain.vec) == *final(self.vec),
            decreases drain.remaining().len(),
        {
            let _ = drain.next();
        }
        if drain.tail_len > 0 {
            let start = drain.vec.len();
            let tail = drain.tail_start;
            drain.vec.backshift(start, tail, drain.tail_len);
            drain.vec.set_len(start + drain.tail_len);
        }
        assert(drain.vec@ =~= self.restored());
    }
}

} // verus!
