//! Comparing bounded vectors and strings by what they hold.

use vstd::prelude::*;
use vstd::std_specs::cmp::PartialEqSpec;
use vstd::std_specs::cmp::PartialOrdSpec;
use core::cmp::Ordering;
use crate::ctools::cvec::CVec;
use crate::ctools::cstring::CString;

verus! {

/// The two sequences have the same length and equal elements, position by
/// position, by the elements' own `==`.
pub open spec fn same_elements<T: PartialEq>(a: Seq<T>, b: Seq<T>) -> bool {
    &&& a.len() == b.len()
    &&& forall|i: int| 0 <= i < a.len() ==> (#[trigger] a[i]).eq_spec(&b[i])
}

/// How `a` stands to `b` in dictionary order, by the elements' own order: the
/// first pair of elements that is not equal decides, and when there is none
/// the shorter sequence comes first.
pub open spec fn dictionary_order<T: PartialOrd>(a: Seq<T>, b: Seq<T>) -> Option<Ordering>
    decreases a.len(),
{
    if a.len() == 0 && b.len() == 0 {
        Some(Ordering::Equal)
    } else if a.len() == 0 {
        Some(Ordering::Less)
    } else if b.len() == 0 {
        Some(Ordering::Greater)
    } else if a[0].partial_cmp_spec(&b[0]) == Some(Ordering::Equal) {
        dictionary_order(a.drop_first(), b.drop_first())
    } else {
        a[0].partial_cmp_spec(&b[0])
    }
}

impl<T: PartialOrd, const LEN: usize> CVec<T, LEN> {
    /// How the vector stands to `other` in dictionary order. Their capacities
    /// play no part.
    pub fn partial_cmp<const M: usize>(&self, other: &CVec<T, M>) -> (r: Option<Ordering>)
        requires
            self.wf(),
            other.wf(),
        ensures
            T::obeys_partial_cmp_spec() ==> r == dictionary_order(self@, other@),
    {
        let n = self.len();
        let m = other.len();
        let mut i: usize = 0;
        let ghost mut at: int = 0;
        proof {
            assert(self@.skip(0) =~= self@);
            assert(other@.skip(0) =~= other@);
        }
        while i < n && i < m
            invariant
                at == i,
                i <= n,
                i <= m,
                n == self@.len(),
                m == other@.len(),
                self.wf(),
                other.wf(),
                T::obeys_partial_cmp_spec() ==> dictionary_order(self@, other@)
                    == dictionary_order(self@.skip(at), other@.skip(at)),
            decreases n - i,
        {
            proof {
                assert(self@.skip(at)[0] == self@[at]);
                assert(other@.skip(at)[0] == other@[at]);
                assert(self@.skip(at).drop_first() =~= self@.skip(at + 1));
                assert(other@.skip(at).drop_first() =~= other@.skip(at + 1));
            }
            let step = self.get(i).partial_cmp(other.get(i));
            match step {
                Some(Ordering::Equal) => {},
                _ => {
                    return step;
                },
            }
            i = i + 1;
            proof {
                at = at + 1;
            }
        }
        if n < m {
            Some(Ordering::Less)
        } else if n == m {
            Some(Ordering::Equal)
        } else {
            Some(Ordering::Greater)
        }
    }
}

/// How `a` stands to `b` in dictionary order, byte by byte: the first byte in
/// which they differ decides, and when there is none the shorter comes first.
pub open spec fn byte_order(a: Seq<u8>, b: Seq<u8>) -> Ordering
    decreases a.len(),
{
    if a.len() == 0 && b.len() == 0 {
        Ordering::Equal
    } else if a.len() == 0 {
        Ordering::Less
    } else if b.len() == 0 {
        Ordering::Greater
    } else if a[0] < b[0] {
        Ordering::Less
    } else if a[0] > b[0] {
        Ordering::Greater
    } else {
        byte_order(a.drop_first(), b.drop_first())
    }
}

/// Two byte strings stand equal in dictionary order exactly when they are the
/// same bytes.
pub proof fn lemma_byte_order_equal(a: Seq<u8>, b: Seq<u8>)
    ensures
        byte_order(a, b) == Ordering::Equal <==> a == b,
    decreases a.len(),
{
    if a.len() > 0 && b.len() > 0 {
        lemma_byte_order_equal(a.drop_first(), b.drop_first());
        if a[0] == b[0] && a.drop_first() == b.drop_first() {
            assert(a =~= seq![a[0]] + a.drop_first());
            assert(b =~= seq![b[0]] + b.drop_first());
        }
    } else if a.len() == 0 && b.len() == 0 {
        assert(a =~= b);
    }
}

impl<const LEN: usize> CString<LEN> {
    /// How the string stands to `rhs` in the order of strings, which is the
    /// dictionary order of their bytes. Their capacities play no part.
    pub fn cmp<const M: usize>(&self, rhs: &CString<M>) -> (r: Ordering)
        requires
            self.wf(),
            rhs.wf(),
        ensures
            r == byte_order(self.spec_bytes(), rhs.spec_bytes()),
    {
        let a = self.as_bytes();
        let b = rhs.as_bytes();
        let n = a.len();
        let m = b.len();
        let mut i: usize = 0;
        let ghost mut at: int = 0;
        proof {
            assert(a@.skip(0) =~= a@);
            assert(b@.skip(0) =~= b@);
        }
        while i < n && i < m
            invariant
                at == i,
                i <= n,
                i <= m,
                n == a@.len(),
                m == b@.len(),
                a@ == self.spec_bytes(),
                b@ == rhs.spec_bytes(),
                byte_order(a@, b@) == byte_order(a@.skip(at), b@.skip(at)),
            decreases n - i,
        {
            proof {
                assert(a@.skip(at)[0] == a@[at]);
                assert(b@.skip(at)[0] == b@[at]);
                assert(a@.skip(at).drop_first() =~= a@.skip(at + 1));
                assert(b@.skip(at).drop_first() =~= b@.skip(at + 1));
            }
            if a[i] < b[i] {
                return Ordering::Less;
            }
            if a[i] > b[i] {
                return Ordering::Greater;
            }
            i = i + 1;
            proof {
                at = at + 1;
            }
        }
        if n < m {
            Ordering::Less
        } else if n == m {
            Ordering::Equal
        } else {
            Ordering::Greater
        }
    }
}

impl<T: PartialEq, const LEN: usize> CVec<T, LEN> {
    /// Whether the two vectors hold equal elements in the same order. Their
    /// capacities play no part.
    pub fn eq<const M: usize>(&self, other: &CVec<T, M>) -> (b: bool)
        requires
            self.wf(),
            other.wf(),
        ensures
            T::obeys_eq_spec() ==> b == same_elements(self@, other@),
    {
        let n = self.len();
        if n != other.len() {
            return false;
        }
        let mut i: usize = 0;
        while i < n
            invariant
                i <= n,
                n == self@.len(),
                n == other@.len(),
                self.wf(),
                other.wf(),
                T::obeys_eq_spec() ==> forall|j: int|
                    0 <= j < i ==> (#[trigger] self@[j]).eq_spec(&other@[j]),
            decreases n - i,
        {
            if !(self.get(i) == other.get(i)) {
                return false;
            }
            i = i + 1;
        }
        true
    }

    /// Whether the vector holds elements equal to those of `other`, in the
    /// same order.
    pub fn eq_slice(&self, other: &[T]) -> (b: bool)
        requires
            self.wf(),
        ensures
            T::obeys_eq_spec() ==> b == same_elements(self@, other@),
    {
        let n = self.len();
        if n != other.len() {
            return false;
        }
        let mut i: usize = 0;
        while i < n
            invariant
                i <= n,
                n == self@.len(),
                n == other@.len(),
                self.wf(),
                T::obeys_eq_spec() ==> forall|j: int|
                    0 <= j < i ==> (#[trigger] self@[j]).eq_spec(&other@[j]),
            decreases n - i,
        {
            if !(self.get(i) == &other[i]) {
                return false;
            }
            i = i + 1;
        }
        true
    }
}

} // verus!
