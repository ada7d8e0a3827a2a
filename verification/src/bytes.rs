//! A value seen as the bytes that make it up.

use vstd::prelude::*;

verus! {

/// The bytes of an object, together with their number.
#[derive(Debug, Clone, Copy, PartialEq, Eq, Hash)]
pub struct ByteObject<'a> {
    length: usize,
    bytes: &'a [u8],
}

impl<'a> View for ByteObject<'a> {
    type V = Seq<u8>;

    /// The bytes of the object.
    closed spec fn view(&self) -> Seq<u8> {
        self.bytes@
    }
}

impl<'a> ByteObject<'a> {
    /// The recorded length is the number of bytes.
    pub closed spec fn wf(&self) -> bool {
        self.length == self.bytes@.len()
    }

    /// The object made of `bytes`. `length` must be their number.
    #[must_use]
    pub fn from_raw_parts(length: usize, bytes: &'a [u8]) -> (o: Self)
        requires
            length == bytes@.len(),
        ensures
            o.wf(),
            o@ == bytes@,
    {
        Self { length, bytes }
    }

    /// The number of bytes.
    #[must_use]
    pub fn len(&self) -> (n: usize)
        requires
            self.wf(),
        ensures
            n == self@.len(),
    {
        self.length
    }

    /// The number of bytes.
    #[must_use]
    pub fn length(&self) -> (n: usize)
        requires
            self.wf(),
        ensures
            n == self@.len(),
    {
        self.len()
    }

    /// The number of bytes as a signed number: the same number wherever it
    /// fits, and otherwise what its bits mean when read as signed.
    #[must_use]
    pub fn ilength(&self) -> (n: isize)
        requires
            self.wf(),
        ensures
            n == self@.len() as usize as isize,
            self@.len() <= isize::MAX ==> n == self@.len(),
    {
        #[verifier::truncate]
        (self.length() as isize)
    }

    /// The number of bytes as a signed number, as `ilength` gives it.
    #[must_use]
    pub fn ilen(&self) -> (n: isize)
        requires
            self.wf(),
        ensures
            n == self@.len() as usize as isize,
            self@.len() <= isize::MAX ==> n == self@.len(),
    {
        self.ilength()
    }

    #[must_use]
    pub fn is_empty(&self) -> (b: bool)
        requires
            self.wf(),
        ensures
            b == (self@.len() == 0),
    {
        self.length() == 0
    }

    #[must_use]
    pub fn is_not_empty(&self) -> (b: bool)
        requires
            self.wf(),
        ensures
            b == (self@.len() != 0),
    {
        !self.is_empty()
    }

    /// The bytes themselves.
    #[must_use]
    pub fn bytes(&self) -> (b: &'a [u8])
        ensures
            b@ == self@,
    {
        self.bytes
    }
}

} // verus!
