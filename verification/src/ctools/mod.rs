//! Bounded containers whose storage is part of the value itself.

use vstd::prelude::*;
use vstd::utf8::*;
use crate::errors::CapacityError;
use crate::nulls::Undefined;

pub mod cvec;
pub mod cstring;
pub mod laws;
pub mod compare;

verus! {

/// The boundary between live and empty slots is where the length says: there
/// are `capacity` slots, the first `length` of them hold a live element, and
/// the others are empty.
pub open spec fn bounded<T>(slots: Seq<Option<T>>, length: nat, capacity: nat) -> bool {
    &&& slots.len() == capacity
    &&& length <= capacity
    &&& forall|i: int| 0 <= i < length ==> (#[trigger] slots[i]) is Some
    &&& forall|i: int| length <= i < capacity ==> (#[trigger] slots[i]) is None
}

/// The elements held by the first `length` slots, in order.
pub open spec fn items<T>(slots: Seq<Option<T>>, length: nat) -> Seq<T> {
    Seq::new(length, |i: int| slots[i]->Some_0)
}

/// A block of slots with a tracked length, and what can be done with it
/// through the slots alone. Whoever provides the slots and the length gets
/// the operations on the boundary between live and empty slots from here.
pub trait ICVec: Sized {
    type Item;

    /// The number of slots.
    spec fn spec_capacity() -> nat;

    /// The slots, live ones and empty ones alike.
    spec fn spec_slots(&self) -> Seq<Option<Self::Item>>;

    /// The tracked length.
    spec fn spec_len(&self) -> nat;

    /// The number of slots.
    fn slot_count() -> (n: usize)
        ensures
            n == Self::spec_capacity(),
    ;

    /// The tracked length.
    fn len(&self) -> (n: usize)
        ensures
            n == self.spec_len(),
    ;

    /// Moves the boundary and touches no slot. It is for the caller to have
    /// filled the slots taken in, or to empty the slots given up.
    fn set_len(&mut self, new_len: usize)
        ensures
            final(self).spec_len() == new_len,
            final(self).spec_slots() == old(self).spec_slots(),
    ;

    /// The slot at `index`, to be read.
    fn slot(&self, index: usize) -> (slot: &Option<Self::Item>)
        requires
            index < self.spec_slots().len(),
        ensures
            *slot == self.spec_slots()[index as int],
    ;

    /// The slot at `index`, to be filled, emptied or changed. No other slot
    /// and not the length is touched.
    fn slot_mut(&mut self, index: usize) -> (slot: &mut Option<Self::Item>)
        requires
            index < old(self).spec_slots().len(),
        ensures
            *slot == old(self).spec_slots()[index as int],
            final(self).spec_len() == old(self).spec_len(),
            final(self).spec_slots() == old(self).spec_slots().update(index as int, *final(slot)),
    ;

    /// Appends `element`. There must be an empty slot left.
    fn push(&mut self, element: Self::Item)
        requires
            bounded(old(self).spec_slots(), old(self).spec_len(), Self::spec_capacity()),
            old(self).spec_len() < Self::spec_capacity(),
        ensures
            bounded(final(self).spec_slots(), final(self).spec_len(), Self::spec_capacity()),
            items(final(self).spec_slots(), final(self).spec_len()) == items(
                old(self).spec_slots(),
                old(self).spec_len(),
            ).push(element),
    {
        let _ = self.try_push(element);
    }

    /// Appends `element` if there is an empty slot left, and otherwise hands
    /// it back inside the error without touching anything.
    fn try_push(&mut self, element: Self::Item) -> (r: Result<(), CapacityError<Self::Item>>)
        requires
            bounded(old(self).spec_slots(), old(self).spec_len(), Self::spec_capacity()),
        ensures
            bounded(final(self).spec_slots(), final(self).spec_len(), Self::spec_capacity()),
            r is Ok <==> old(self).spec_len() < Self::spec_capacity(),
            r is Ok ==> items(final(self).spec_slots(), final(self).spec_len()) == items(
                old(self).spec_slots(),
                old(self).spec_len(),
            ).push(element),
            r is Err ==> r->Err_0@ == element && final(self).spec_slots() == old(self).spec_slots()
                && final(self).spec_len() == old(self).spec_len(),
    {
        if self.len() < Self::slot_count() {
            self.push_unchecked(element);
            Ok(())
        } else {
            Err(CapacityError::new(element))
        }
    }

    /// Writes `element` into the first empty slot and takes that slot in.
    fn push_unchecked(&mut self, element: Self::Item)
        requires
            bounded(old(self).spec_slots(), old(self).spec_len(), Self::spec_capacity()),
            old(self).spec_len() < Self::spec_capacity(),
        ensures
            bounded(final(self).spec_slots(), final(self).spec_len(), Self::spec_capacity()),
            items(final(self).spec_slots(), final(self).spec_len()) == items(
                old(self).spec_slots(),
                old(self).spec_len(),
            ).push(element),
    {
        let len = self.len();
        let count = Self::slot_count();
        *self.slot_mut(len) = Some(element);
        self.set_len(len + 1);
        assert(items(self.spec_slots(), self.spec_len()) =~= items(
            old(self).spec_slots(),
            old(self).spec_len(),
        ).push(element));
    }

    /// Gives the last slot up and hands out what it held, if any slot is live.
    fn pop(&mut self) -> (r: Option<Self::Item>)
        requires
            bounded(old(self).spec_slots(), old(self).spec_len(), Self::spec_capacity()),
        ensures
            bounded(final(self).spec_slots(), final(self).spec_len(), Self::spec_capacity()),
            old(self).spec_len() == 0 ==> r is None && final(self).spec_slots() == old(
                self,
            ).spec_slots() && final(self).spec_len() == old(self).spec_len(),
            old(self).spec_len() > 0 ==> r == Some(
                items(old(self).spec_slots(), old(self).spec_len()).last(),
            ) && items(final(self).spec_slots(), final(self).spec_len()) == items(
                old(self).spec_slots(),
                old(self).spec_len(),
            ).drop_last(),
    {
        if self.len() == 0 {
            return None;
        }
        let new_len = self.len() - 1;
        self.set_len(new_len);
        let r = self.slot_mut(new_len).take();
        assert(items(self.spec_slots(), self.spec_len()) =~= items(
            old(self).spec_slots(),
            old(self).spec_len(),
        ).drop_last());
        r
    }

    /// Empties every live slot.
    fn clear(&mut self)
        requires
            bounded(old(self).spec_slots(), old(self).spec_len(), Self::spec_capacity()),
        ensures
            bounded(final(self).spec_slots(), final(self).spec_len(), Self::spec_capacity()),
            final(self).spec_len() == 0,
    {
        self.truncate(0)
    }

    /// Gives up the slots from `new_len` on and empties them. A `new_len` at
    /// or past the length touches nothing.
    fn truncate(&mut self, new_len: usize)
        requires
            bounded(old(self).spec_slots(), old(self).spec_len(), Self::spec_capacity()),
        ensures
            bounded(final(self).spec_slots(), final(self).spec_len(), Self::spec_capacity()),
            new_len < old(self).spec_len() ==> final(self).spec_len() == new_len && items(
                final(self).spec_slots(),
                final(self).spec_len(),
            ) == items(old(self).spec_slots(), old(self).spec_len()).subrange(0, new_len as int),
            new_len >= old(self).spec_len() ==> final(self).spec_slots() == old(self).spec_slots()
                && final(self).spec_len() == old(self).spec_len(),
    {
        let len = self.len();
        if new_len < len {
            self.set_len(new_len);
            let mut i = new_len;
            while i < len
                invariant
                    new_len <= i <= len <= Self::spec_capacity(),
                    self.spec_len() == new_len,
                    self.spec_slots().len() == Self::spec_capacity(),
                    bounded(old(self).spec_slots(), len as nat, Self::spec_capacity()),
                    forall|j: int|
                        0 <= j < new_len ==> self.spec_slots()[j] == old(self).spec_slots()[j],
                    forall|j: int| new_len <= j < i ==> (#[trigger] self.spec_slots()[j]) is None,
                    forall|j: int|
                        len <= j < Self::spec_capacity() ==> (#[trigger] self.spec_slots()[j]) is None,
                decreases len - i,
            {
                *self.slot_mut(i) = None;
                i = i + 1;
            }
            assert(items(self.spec_slots(), self.spec_len()) =~= items(
                old(self).spec_slots(),
                old(self).spec_len(),
            ).subrange(0, new_len as int));
        }
    }
}

/// The number of bytes that the UTF-8 encoding of `ch` takes.
pub open spec fn utf8_width(ch: char) -> nat {
    encode_scalar(ch as u32).len()
}

/// Writes the UTF-8 encoding of `ch` into `dat` from position `at` on, and
/// says how many bytes that took: one to four, by the size of the scalar
/// value. When the encoding does not fit between `at` and the end of `dat`,
/// nothing is written.
pub fn encode_utf8<const LEN: usize>(ch: char, dat: &mut [u8; LEN], at: usize) -> (r: Result<
    usize,
    Undefined,
>)
    requires
        at <= LEN,
    ensures
        r is Ok <==> at + utf8_width(ch) <= LEN,
        r is Ok ==> r->Ok_0 == utf8_width(ch) && final(dat)@ == old(dat)@.subrange(0, at as int)
            + encode_scalar(ch as u32) + old(dat)@.subrange(at + utf8_width(ch), LEN as int),
        r is Err ==> final(dat)@ == old(dat)@,
{
    let code = ch as u32;
    let len = LEN - at;
    proof {
        char_is_scalar(ch);
    }
    if code < 0x80 && len >= 1 {
        assert(code & 0x7F == code) by (bit_vector)
            requires
                code < 0x80,
        ;
        dat[at] = code as u8;
        assert(dat@ =~= old(dat)@.subrange(0, at as int) + encode_scalar(code) + old(dat)@.subrange(
            at + 1,
            LEN as int,
        ));
        return Ok(1);
    } else if code < 0x800 && len >= 2 {
        assert((code >> 6 & 0x1F) < 0x100 && (code & 0x3F) < 0x100) by (bit_vector);
        let b0 = (code >> 6 & 0x1F) as u8 | 0b1100_0000;
        let b1 = (code & 0x3F) as u8 | 0b1000_0000;
        assert(b0 == 0xC0u8 | ((code >> 6) & 0x1F) as u8 && b1 == 0x80u8 | (code & 0x3F) as u8)
            by (bit_vector)
            requires
                b0 == (code >> 6 & 0x1F) as u8 | 0b1100_0000,
                b1 == (code & 0x3F) as u8 | 0b1000_0000,
        ;
        dat[at] = b0;
        dat[at + 1] = b1;
        assert(dat@ =~= old(dat)@.subrange(0, at as int) + encode_scalar(code) + old(dat)@.subrange(
            at + 2,
            LEN as int,
        ));
        return Ok(2);
    } else if code < 0x10000 && len >= 3 {
        assert((code >> 12 & 0x0F) < 0x100 && (code >> 6 & 0x3F) < 0x100 && (code & 0x3F) < 0x100)
            by (bit_vector);
        let b0 = (code >> 12 & 0x0F) as u8 | 0b1110_0000;
        let b1 = (code >> 6 & 0x3F) as u8 | 0b1000_0000;
        let b2 = (code & 0x3F) as u8 | 0b1000_0000;
        assert(b0 == 0xE0u8 | ((code >> 12) & 0x0F) as u8 && b1 == 0x80u8 | ((code >> 6)
            & 0x3F) as u8 && b2 == 0x80u8 | (code & 0x3F) as u8) by (bit_vector)
            requires
                b0 == (code >> 12 & 0x0F) as u8 | 0b1110_0000,
                b1 == (code >> 6 & 0x3F) as u8 | 0b1000_0000,
                b2 == (code & 0x3F) as u8 | 0b1000_0000,
        ;
        dat[at] = b0;
        dat[at + 1] = b1;
        dat[at + 2] = b2;
        assert(dat@ =~= old(dat)@.subrange(0, at as int) + encode_scalar(code) + old(dat)@.subrange(
            at + 3,
            LEN as int,
        ));
        return Ok(3);
    } else if len >= 4 {
        assert((code >> 18 & 0x07) < 0x100 && (code >> 12 & 0x3F) < 0x100 && (code >> 6 & 0x3F)
            < 0x100 && (code & 0x3F) < 0x100) by (bit_vector);
        let b0 = (code >> 18 & 0x07) as u8 | 0b1111_0000;
        let b1 = (code >> 12 & 0x3F) as u8 | 0b1000_0000;
        let b2 = (code >> 6 & 0x3F) as u8 | 0b1000_0000;
        let b3 = (code & 0x3F) as u8 | 0b1000_0000;
        assert(b0 == 0xF0u8 | ((code >> 18) & 0x7) as u8 && b1 == 0x80u8 | ((code >> 12)
            & 0x3F) as u8 && b2 == 0x80u8 | ((code >> 6) & 0x3F) as u8 && b3 == 0x80u8 | (code
            & 0x3F) as u8) by (bit_vector)
            requires
                b0 == (code >> 18 & 0x07) as u8 | 0b1111_0000,
                b1 == (code >> 12 & 0x3F) as u8 | 0b1000_0000,
                b2 == (code >> 6 & 0x3F) as u8 | 0b1000_0000,
                b3 == (code & 0x3F) as u8 | 0b1000_0000,
        ;
        dat[at] = b0;
        dat[at + 1] = b1;
        dat[at + 2] = b2;
        dat[at + 3] = b3;
        assert(dat@ =~= old(dat)@.subrange(0, at as int) + encode_scalar(code) + old(dat)@.subrange(
            at + 4,
            LEN as int,
        ));
        return Ok(4);
    }
    Err(Undefined)
}

} // verus!
