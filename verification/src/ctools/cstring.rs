//! A UTF-8 string of at most `LEN` bytes whose storage is part of the value.
//!
//! The bytes before the tracked length are valid UTF-8 at all times: every
//! operation that moves the length puts it on a character boundary.

use vstd::prelude::*;
use vstd::utf8::*;
use crate::errors::CapacityError;
use vstd::string::StringSliceAdditionalSpecFns;
use crate::ctools::utf8_width;

verus! {

/// `core::str::Utf8Error`, which says why and where bytes failed to be UTF-8.
#[verifier::external_type_specification]
#[verifier::external_body]
pub struct ExUtf8Error(core::str::Utf8Error);

/// `core::str::from_utf8` succeeds exactly on bytes that are valid UTF-8, and
/// the string slice it then gives is made of those very bytes.
pub assume_specification[ core::str::from_utf8 ](v: &[u8]) -> (r: Result<
    &str,
    core::str::Utf8Error,
>)
    ensures
        r is Ok <==> valid_utf8(v@),
        r is Ok ==> r->Ok_0.spec_bytes() == v@,
;

/// `char::from_u32` gives the character with the scalar value `i`, and gives
/// nothing exactly when `i` is no Unicode scalar value.
pub assume_specification[ char::from_u32 ](i: u32) -> (r: Option<char>)
    ensures
        r is Some <==> is_scalar(i),
        r is Some ==> r->Some_0 as u32 == i,
;

/// The encoding of one character is valid UTF-8, takes one to four bytes, and
/// decodes to that character alone.
pub proof fn lemma_single_char(c: char)
    ensures
        valid_utf8(encode_scalar(c as u32)),
        decode_utf8(encode_scalar(c as u32)) == seq![c],
        1 <= utf8_width(c) <= 4,
{
    let one = seq![c];
    assert(one.drop_first() =~= Seq::<char>::empty());
    assert(encode_utf8(one.drop_first()) =~= Seq::<u8>::empty()) by {
        reveal_with_fuel(encode_utf8, 1);
    }
    assert(encode_utf8(one) =~= encode_scalar(c as u32)) by {
        reveal_with_fuel(encode_utf8, 2);
    }
    encode_utf8_valid_utf8(one);
    encode_utf8_decode_utf8(one);
}

/// Decoding goes through concatenation: two valid byte strings put together
/// are valid and decode to the characters of the first followed by those of
/// the second.
pub proof fn lemma_decode_concat(b1: Seq<u8>, b2: Seq<u8>)
    requires
        valid_utf8(b1),
        valid_utf8(b2),
    ensures
        valid_utf8(b1 + b2),
        decode_utf8(b1 + b2) == decode_utf8(b1) + decode_utf8(b2),
    decreases b1.len(),
{
    valid_utf8_concat(b1, b2);
    if b1.len() == 0 {
        assert(b1 + b2 =~= b2);
        assert(decode_utf8(b1) + decode_utf8(b2) =~= decode_utf8(b2));
    } else {
        let rest = pop_first_scalar(b1);
        assert(pop_first_scalar(b1 + b2) =~= rest + b2);
        assert(decode_first_scalar(b1 + b2) == decode_first_scalar(b1));
        lemma_decode_concat(rest, b2);
        assert(decode_utf8(b1 + b2) =~= decode_utf8(b1) + decode_utf8(b2));
    }
}

/// A valid byte string whose bytes after the first are all continuation bytes
/// holds exactly one character.
pub proof fn lemma_one_scalar(bytes: Seq<u8>)
    requires
        valid_utf8(bytes),
        bytes.len() > 0,
        forall|j: int| 0 < j < bytes.len() ==> is_continuation_byte(#[trigger] bytes[j]),
    ensures
        valid_first_scalar(bytes),
        length_of_first_scalar(bytes) == bytes.len(),
        decode_utf8(bytes) == seq![decode_first_scalar(bytes) as char],
{
    reveal_with_fuel(valid_utf8, 2);
    let width = length_of_first_scalar(bytes);
    let rest = pop_first_scalar(bytes);
    if width < bytes.len() {
        assert(valid_first_scalar(rest));
        assert(rest[0] == bytes[width]);
        assert(is_continuation_byte(bytes[width]));
    }
    assert(rest =~= Seq::<u8>::empty());
    assert(decode_utf8(rest) =~= Seq::<char>::empty());
    assert(decode_utf8(bytes) =~= seq![decode_first_scalar(bytes) as char]);
}

/// A run of NUL bytes, of any length, is valid UTF-8.
pub proof fn lemma_zeros_valid(n: nat)
    ensures
        valid_utf8(Seq::new(n, |i: int| 0u8)),
    decreases n,
{
    let zeros = Seq::new(n, |i: int| 0u8);
    if n > 0 {
        lemma_zeros_valid((n - 1) as nat);
        assert(pop_first_scalar(zeros) =~= Seq::new((n - 1) as nat, |i: int| 0u8));
        assert(0u8 & 0x7F == 0u8) by (bit_vector);
    }
}

/// The position, counted in characters, of the character that starts at byte
/// `index` of `bytes`.
pub open spec fn char_position(bytes: Seq<u8>, index: int) -> int {
    decode_utf8(bytes.subrange(0, index)).len() as int
}

/// Reads the character whose encoding starts at byte `at` of `dat`, and says
/// how many bytes it takes. A well-formed encoding must start there and end
/// by `end`.
fn decode_at<const LEN: usize>(dat: &[u8; LEN], at: usize, end: usize) -> (r: (char, usize))
    requires
        at < end <= LEN,
        valid_first_scalar(dat@.subrange(at as int, end as int)),
    ensures
        r.0 as u32 == decode_first_scalar(dat@.subrange(at as int, end as int)),
        r.1 == length_of_first_scalar(dat@.subrange(at as int, end as int)),
        1 <= r.1 <= end - at,
{
    let ghost bytes = dat@.subrange(at as int, end as int);
    let b0 = dat[at];
    assert(b0 == bytes[0]);
    let code: u32;
    let width: usize;
    if b0 < 0x80 {
        code = (b0 & 0x7F) as u32;
        width = 1;
        assert((b0 & 0x7F) as u32 <= 0x7F) by (bit_vector);
    } else if b0 < 0xE0 {
        let b1 = dat[at + 1];
        assert(b1 == bytes[1]);
        code = ((b0 & 0x1F) as u32) << 6 | (b1 & 0x3F) as u32;
        width = 2;
        assert((((b0 & 0x1F) as u32) << 6 | (b1 & 0x3F) as u32) <= 0x7FF) by (bit_vector);
    } else if b0 < 0xF0 {
        let b1 = dat[at + 1];
        let b2 = dat[at + 2];
        assert(b1 == bytes[1] && b2 == bytes[2]);
        code = ((b0 & 0x0F) as u32) << 12 | ((b1 & 0x3F) as u32) << 6 | (b2 & 0x3F) as u32;
        width = 3;
        assert((((b0 & 0x0F) as u32) << 12 | ((b1 & 0x3F) as u32) << 6 | (b2 & 0x3F) as u32)
            <= 0xFFFF) by (bit_vector);
    } else {
        let b1 = dat[at + 1];
        let b2 = dat[at + 2];
        let b3 = dat[at + 3];
        assert(b1 == bytes[1] && b2 == bytes[2] && b3 == bytes[3]);
        code = ((b0 & 0x07) as u32) << 18 | ((b1 & 0x3F) as u32) << 12 | ((b2 & 0x3F) as u32) << 6
            | (b3 & 0x3F) as u32;
        width = 4;
    }
    assert(code == decode_first_scalar(bytes));
    assert(is_scalar(code));
    match char::from_u32(code) {
        Some(c) => (c, width),
        None => vstd::pervasive::unreached(),
    }
}

/// Whether the two slices hold the same bytes.
fn same_bytes(a: &[u8], b: &[u8]) -> (same: bool)
    ensures
        same == (a@ == b@),
{
    if a.len() != b.len() {
        return false;
    }
    let mut i: usize = 0;
    while i < a.len()
        invariant
            i <= a@.len(),
            a@.len() == b@.len(),
            forall|j: int| 0 <= j < i ==> a@[j] == b@[j],
        decreases a@.len() - i,
    {
        if a[i] != b[i] {
            return false;
        }
        i = i + 1;
    }
    assert(a@ =~= b@);
    true
}

/// A block of `LEN` bytes of which the first `len` are the string.
#[derive(Clone, Copy, Debug)]
pub struct CString<const LEN: usize> {
    dat: [u8; LEN],
    len: usize,
}

impl<const LEN: usize> View for CString<LEN> {
    type V = Seq<char>;

    /// The characters of the string.
    open spec fn view(&self) -> Seq<char> {
        decode_utf8(self.spec_bytes())
    }
}

impl<const LEN: usize> CString<LEN> {
    /// The bytes of the string.
    pub closed spec fn spec_bytes(&self) -> Seq<u8> {
        self.dat@.subrange(0, self.len as int)
    }

    /// The string fits its block and its bytes are valid UTF-8.
    pub closed spec fn wf(&self) -> bool {
        &&& self.len <= LEN
        &&& valid_utf8(self.spec_bytes())
    }

    /// What well-formedness means to the outside: at most `LEN` bytes, which
    /// are the UTF-8 encoding of the string's characters.
    pub broadcast proof fn lemma_wf(&self)
        requires
            #[trigger] self.wf(),
        ensures
            self.spec_bytes().len() <= LEN,
            valid_utf8(self.spec_bytes()),
            self.spec_bytes() == encode_utf8(self@),
    {
        decode_utf8_encode_utf8(self.spec_bytes());
    }

    /// An empty string.
    pub fn new() -> (s: Self)
        ensures
            s.wf(),
            s.spec_bytes() == Seq::<u8>::empty(),
            s@ == Seq::<char>::empty(),
    {
        let s = CString { dat: [0u8;LEN], len: 0 };
        assert(s.spec_bytes() =~= Seq::<u8>::empty());
        assert(s@ =~= Seq::<char>::empty());
        s
    }

    /// An empty string.
    pub fn new_const() -> (s: Self)
        ensures
            s.wf(),
            s.spec_bytes() == Seq::<u8>::empty(),
            s@ == Seq::<char>::empty(),
    {
        Self::new()
    }

    /// The length of the string in bytes.
    pub fn len(&self) -> (n: usize)
        requires
            self.wf(),
        ensures
            n == self.spec_bytes().len(),
    {
        self.len
    }

    pub fn is_empty(&self) -> (b: bool)
        requires
            self.wf(),
        ensures
            b == (self.spec_bytes().len() == 0),
    {
        self.len() == 0
    }

    /// The string that holds `s`, or `s` back inside the error when it takes
    /// more than `LEN` bytes.
    pub fn from(s: &str) -> (r: Result<Self, CapacityError<&str>>)
        ensures
            r is Ok <==> s.spec_bytes().len() <= LEN,
            r is Ok ==> r->Ok_0.wf() && r->Ok_0.spec_bytes() == s.spec_bytes() && r->Ok_0@ == s@,
            r is Err ==> r->Err_0@ == s,
    {
        let mut arraystr = Self::new();
        match arraystr.try_push_str(s) {
            Ok(()) => {
                assert(arraystr.spec_bytes() =~= s.spec_bytes());
                assert(arraystr@ =~= s@);
                Ok(arraystr)
            },
            Err(e) => Err(e),
        }
    }

    /// The string made of all `LEN` bytes of `b`, which must be valid UTF-8;
    /// when they are not, the error of the validation.
    pub fn from_byte_string(b: &[u8; LEN]) -> (r: Result<Self, core::str::Utf8Error>)
        ensures
            r is Ok <==> valid_utf8(b@),
            r is Ok ==> r->Ok_0.wf() && r->Ok_0.spec_bytes() == b@,
    {
        match core::str::from_utf8(b.as_slice()) {
            Ok(_) => {
                let s = CString { dat: *b, len: LEN };
                assert(s.spec_bytes() =~= b@);
                Ok(s)
            },
            Err(e) => Err(e),
        }
    }

    /// The full string of `LEN` NUL characters.
    pub fn zero_filled() -> (s: Self)
        ensures
            s.wf(),
            s.spec_bytes() == Seq::new(LEN as nat, |i: int| 0u8),
    {
        let s = CString { dat: [0u8;LEN], len: LEN };
        proof {
            lemma_zeros_valid(LEN as nat);
            assert(s.spec_bytes() =~= Seq::new(LEN as nat, |i: int| 0u8));
        }
        s
    }

    /// The number of bytes the string can hold, which is `LEN`.
    pub fn capacity(&self) -> (n: usize)
        ensures
            n == LEN,
    {
        LEN
    }

    pub fn is_full(&self) -> (b: bool)
        requires
            self.wf(),
        ensures
            b == (self.spec_bytes().len() == LEN),
    {
        self.len() == self.capacity()
    }

    /// The number of bytes that can still be appended.
    pub fn remaining_capacity(&self) -> (n: usize)
        requires
            self.wf(),
        ensures
            n == LEN - self.spec_bytes().len(),
    {
        self.capacity() - self.len()
    }

    /// Appends `c`. Its encoding must fit in what is left of the block.
    pub fn push(&mut self, c: char)
        requires
            old(self).wf(),
            old(self).spec_bytes().len() + utf8_width(c) <= LEN,
        ensures
            final(self).wf(),
            final(self).spec_bytes() == old(self).spec_bytes() + encode_scalar(c as u32),
            final(self)@ == old(self)@.push(c),
    {
        let _ = self.try_push(c);
    }

    /// Appends `c` when its encoding fits in what is left of the block, and
    /// otherwise hands it back inside the error, leaving the string as it was.
    pub fn try_push(&mut self, c: char) -> (r: Result<(), CapacityError<char>>)
        requires
            old(self).wf(),
        ensures
            final(self).wf(),
            r is Ok <==> old(self).spec_bytes().len() + utf8_width(c) <= LEN,
            r is Ok ==> final(self).spec_bytes() == old(self).spec_bytes() + encode_scalar(c as u32)
                && final(self)@ == old(self)@.push(c),
            r is Err ==> r->Err_0@ == c && *final(self) == *old(self),
    {
        let len = self.len();
        match crate::ctools::encode_utf8(c, &mut self.dat, len) {
            Ok(n) => {
                self.len = len + n;
                proof {
                    lemma_single_char(c);
                    assert(self.spec_bytes() =~= old(self).spec_bytes() + encode_scalar(c as u32));
                    lemma_decode_concat(old(self).spec_bytes(), encode_scalar(c as u32));
                    assert(self@ =~= old(self)@.push(c));
                }
                Ok(())
            },
            Err(_) => {
                assert(self.dat =~= old(self).dat);
                Err(CapacityError::new(c))
            },
        }
    }

    /// Appends `s`. It must fit in what is left of the block.
    pub fn push_str(&mut self, s: &str)
        requires
            old(self).wf(),
            old(self).spec_bytes().len() + s.spec_bytes().len() <= LEN,
        ensures
            final(self).wf(),
            final(self).spec_bytes() == old(self).spec_bytes() + s.spec_bytes(),
            final(self)@ == old(self)@ + s@,
    {
        let _ = self.try_push_str(s);
    }

    /// Appends `s` when all of it fits in what is left of the block, and
    /// otherwise hands it back inside the error, leaving the string as it
    /// was: no part of `s` is ever appended alone.
    pub fn try_push_str<'a>(&mut self, s: &'a str) -> (r: Result<(), CapacityError<&'a str>>)
        requires
            old(self).wf(),
        ensures
            final(self).wf(),
            r is Ok <==> old(self).spec_bytes().len() + s.spec_bytes().len() <= LEN,
            r is Ok ==> final(self).spec_bytes() == old(self).spec_bytes() + s.spec_bytes()
                && final(self)@ == old(self)@ + s@,
            r is Err ==> r->Err_0@ == s && *final(self) == *old(self),
    {
        let src = s.as_bytes();
        let count = src.len();
        if count > self.capacity() - self.len() {
            return Err(CapacityError::new(s));
        }
        let len = self.len;
        let mut k: usize = 0;
        while k < count
            invariant
                k <= count,
                count == src@.len(),
                len + count <= LEN,
                self.len == len,
                forall|j: int| 0 <= j < len ==> self.dat@[j] == old(self).dat@[j],
                forall|j: int| len <= j < len + k ==> self.dat@[j] == src@[j - len],
            decreases count - k,
        {
            self.dat[len + k] = src[k];
            k = k + 1;
        }
        self.len = len + count;
        proof {
            assert(self.spec_bytes() =~= old(self).spec_bytes() + s.spec_bytes());
            encode_utf8_valid_utf8(s@);
            encode_utf8_decode_utf8(s@);
            lemma_decode_concat(old(self).spec_bytes(), s.spec_bytes());
        }
        Ok(())
    }

    /// Whether byte `index` is where a character starts, or is the end of the
    /// string.
    pub fn is_char_boundary(&self, index: usize) -> (b: bool)
        requires
            self.wf(),
        ensures
            b == is_char_boundary(self.spec_bytes(), index as int),
    {
        proof {
            is_char_boundary_start_end_of_seq(self.spec_bytes());
        }
        if index == 0 || index == self.len {
            true
        } else if index > self.len {
            false
        } else {
            let b = self.dat[index];
            proof {
                assert(b == self.spec_bytes()[index as int]);
                is_char_boundary_iff_not_is_continuation_byte(self.spec_bytes(), index as int);
            }
            b < 0x80 || b >= 0xC0
        }
    }

    /// Takes the last character off, if there is one.
    pub fn pop(&mut self) -> (r: Option<char>)
        requires
            old(self).wf(),
        ensures
            final(self).wf(),
            old(self).spec_bytes().len() == 0 ==> r is None && final(self).spec_bytes() == old(
                self,
            ).spec_bytes(),
            old(self).spec_bytes().len() > 0 ==> old(self)@.len() > 0 && r == Some(old(self)@.last())
                && final(self)@ == old(self)@.drop_last() && final(self).spec_bytes() == old(
                self,
            ).spec_bytes().subrange(0, old(self).spec_bytes().len() - utf8_width(old(self)@.last())),
    {
        let len = self.len;
        if len == 0 {
            return None;
        }
        let ghost bytes = self.spec_bytes();
        let mut start = len - 1;
        while start > 0 && self.dat[start] >= 0x80 && self.dat[start] < 0xC0
            invariant
                start < len <= LEN,
                self.len == len,
                bytes == self.spec_bytes(),
                forall|j: int| start < j < len ==> is_continuation_byte(#[trigger] bytes[j]),
            decreases start,
        {
            assert(bytes[start as int] == self.dat@[start as int]);
            start = start - 1;
        }
        let ghost head = bytes.subrange(0, start as int);
        let ghost last = bytes.subrange(start as int, len as int);
        proof {
            assert(bytes[start as int] == self.dat@[start as int]);
            if start > 0 {
                is_char_boundary_iff_not_is_continuation_byte(bytes, start as int);
            }
            valid_utf8_split(bytes, start as int);
            decode_utf8_split(bytes, start as int);
            assert forall|j: int| 0 < j < last.len() implies is_continuation_byte(
                #[trigger] last[j],
            ) by {
                assert(last[j] == bytes[start + j]);
            }
            lemma_one_scalar(last);
            assert(self.dat@.subrange(start as int, len as int) =~= last);
        }
        let (ch, width) = decode_at(&self.dat, start, len);
        self.len = start;
        proof {
            assert(self.spec_bytes() =~= head);
            char_u32_cast(ch, decode_first_scalar(last));
            assert(decode_utf8(last) == seq![ch]);
            assert(old(self)@ =~= decode_utf8(head).push(ch));
            assert(old(self)@.drop_last() =~= decode_utf8(head));
            decode_utf8_first_scalar(last);
            assert(take_first_scalar(last) =~= last);
        }
        Some(ch)
    }

    /// Cuts the string down to its first `new_len` bytes, which must end on a
    /// character boundary. A `new_len` past the length changes nothing.
    pub fn truncate(&mut self, new_len: usize)
        requires
            old(self).wf(),
            new_len <= old(self).spec_bytes().len() ==> is_char_boundary(
                old(self).spec_bytes(),
                new_len as int,
            ),
        ensures
            final(self).wf(),
            new_len <= old(self).spec_bytes().len() ==> final(self).spec_bytes() == old(
                self,
            ).spec_bytes().subrange(0, new_len as int),
            new_len > old(self).spec_bytes().len() ==> final(self).spec_bytes() == old(
                self,
            ).spec_bytes(),
    {
        if new_len <= self.len() {
            proof {
                valid_utf8_split(self.spec_bytes(), new_len as int);
            }
            self.len = new_len;
            assert(self.spec_bytes() =~= old(self).spec_bytes().subrange(0, new_len as int));
        }
    }

    /// Takes out the character that starts at byte `idx` and moves the bytes
    /// after it down. A character must start there.
    pub fn remove(&mut self, idx: usize) -> (ch: char)
        requires
            old(self).wf(),
            idx < old(self).spec_bytes().len(),
            is_char_boundary(old(self).spec_bytes(), idx as int),
        ensures
            final(self).wf(),
            0 <= char_position(old(self).spec_bytes(), idx as int) < old(self)@.len(),
            ch == old(self)@[char_position(old(self).spec_bytes(), idx as int)],
            final(self)@ == old(self)@.remove(char_position(old(self).spec_bytes(), idx as int)),
            final(self).spec_bytes() == old(self).spec_bytes().subrange(0, idx as int) + old(
                self,
            ).spec_bytes().subrange(idx + utf8_width(ch), old(self).spec_bytes().len() as int),
    {
        let len = self.len;
        let ghost bytes = self.spec_bytes();
        let ghost head = bytes.subrange(0, idx as int);
        let ghost tail = bytes.subrange(idx as int, len as int);
        proof {
            valid_utf8_split(bytes, idx as int);
            decode_utf8_split(bytes, idx as int);
            assert(self.dat@.subrange(idx as int, len as int) =~= tail);
        }
        let (ch, width) = decode_at(&self.dat, idx, len);
        let next = idx + width;
        let ghost rest = pop_first_scalar(tail);
        proof {
            assert(rest =~= bytes.subrange(next as int, len as int));
            char_u32_cast(ch, decode_first_scalar(tail));
            assert(decode_utf8(tail) =~= seq![ch] + decode_utf8(rest));
            decode_utf8_first_scalar(tail);
            lemma_decode_concat(head, rest);
        }
        let mut k = next;
        while k < len
            invariant
                idx < next <= k <= len <= LEN,
                width == next - idx,
                self.len == len,
                forall|j: int| 0 <= j < idx ==> self.dat@[j] == old(self).dat@[j],
                forall|j: int| idx <= j < k - width ==> self.dat@[j] == old(self).dat@[j + width],
                forall|j: int| k <= j < LEN ==> self.dat@[j] == old(self).dat@[j],
            decreases len - k,
        {
            self.dat[k - width] = self.dat[k];
            k = k + 1;
        }
        self.len = len - (next - idx);
        proof {
            assert(self.spec_bytes() =~= head + rest);
            assert(old(self)@ =~= decode_utf8(head) + (seq![ch] + decode_utf8(rest)));
            assert(self@ =~= old(self)@.remove(char_position(bytes, idx as int)));
        }
        ch
    }

    /// Empties the string.
    pub fn clear(&mut self)
        ensures
            final(self).wf(),
            final(self).spec_bytes() == Seq::<u8>::empty(),
    {
        self.len = 0;
        assert(self.spec_bytes() =~= Seq::<u8>::empty());
    }

    /// The string as a string slice.
    pub fn as_str(&self) -> (s: &str)
        requires
            self.wf(),
        ensures
            s.spec_bytes() == self.spec_bytes(),
            s@ == self@,
    {
        let bytes = vstd::slice::slice_subrange(self.dat.as_slice(), 0, self.len);
        assert(bytes@ =~= self.spec_bytes());
        match core::str::from_utf8(bytes) {
            Ok(s) => {
                proof {
                    encode_utf8_decode_utf8(s@);
                }
                s
            },
            Err(_) => vstd::pervasive::unreached(),
        }
    }

    /// Makes the string hold the text of `rhs`.
    pub fn clone_from(&mut self, rhs: &Self)
        requires
            rhs.wf(),
        ensures
            final(self).wf(),
            final(self).spec_bytes() == rhs.spec_bytes(),
            final(self)@ == rhs@,
    {
        self.clear();
        proof {
            rhs.lemma_wf();
        }
        let _ = self.try_push_str(rhs.as_str());
        assert(self.spec_bytes() =~= rhs.spec_bytes());
    }

    /// The bytes of the string.
    pub fn as_bytes(&self) -> (bytes: &[u8])
        requires
            self.wf(),
        ensures
            bytes@ == self.spec_bytes(),
    {
        let bytes = vstd::slice::slice_subrange(self.dat.as_slice(), 0, self.len);
        assert(bytes@ =~= self.spec_bytes());
        bytes
    }

    /// Whether the two strings are the same text, whatever their capacities.
    pub fn eq<const M: usize>(&self, rhs: &CString<M>) -> (b: bool)
        requires
            self.wf(),
            rhs.wf(),
        ensures
            b == (self@ == rhs@),
            b == (self.spec_bytes() == rhs.spec_bytes()),
    {
        proof {
            decode_utf8_encode_utf8(self.spec_bytes());
            decode_utf8_encode_utf8(rhs.spec_bytes());
        }
        same_bytes(self.as_bytes(), rhs.as_bytes())
    }

    /// Whether the string is the text `rhs`.
    pub fn eq_str(&self, rhs: &str) -> (b: bool)
        requires
            self.wf(),
        ensures
            b == (self@ == rhs@),
    {
        proof {
            decode_utf8_encode_utf8(self.spec_bytes());
            encode_utf8_decode_utf8(rhs@);
        }
        same_bytes(self.as_bytes(), rhs.as_bytes())
    }

    /// The string that holds `s`, or the plain overflow error when `s` takes
    /// more than `LEN` bytes.
    pub fn from_str(s: &str) -> (r: Result<Self, CapacityError>)
        ensures
            r is Ok <==> s.spec_bytes().len() <= LEN,
            r is Ok ==> r->Ok_0.wf() && r->Ok_0.spec_bytes() == s.spec_bytes() && r->Ok_0@ == s@,
    {
        match Self::from(s) {
            Ok(v) => Ok(v),
            Err(e) => Err(e.simplify()),
        }
    }
}

impl<const LEN: usize> Default for CString<LEN> {
    /// An empty string.
    fn default() -> (s: Self)
        ensures
            s.wf(),
            s.spec_bytes() == Seq::<u8>::empty(),
    {
        CString::new()
    }
}

} // verus!
