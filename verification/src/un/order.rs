//! Equality and ordering of `U<N>` by magnitude.

use vstd::prelude::*;
use core::cmp::Ordering;
use vstd::std_specs::cmp::{PartialEqSpecImpl, PartialOrdSpecImpl};
use crate::bits::{lemma_bits_value_bound, lemma_bits_value_high_eq, lemma_bits_value_step};
use crate::un::U;

verus! {

impl<const N: usize> U<N> {
    /// Whether `self` stands for a smaller number than `other`. The bits are
    /// compared from the most significant down; the first that differs decides.
    pub fn is_less(&self, other: &Self) -> (r: bool)
        ensures
            r == (self@ < other@),
    {
        let a = self.value();
        let b = other.value();
        let mut i: usize = N;
        proof {
            self.lemma_range();
            other.lemma_range();
        }
        while i > 0
            invariant
                i <= N,
                a@ == self.bits(),
                b@ == other.bits(),
                a@.len() == N,
                b@.len() == N,
                forall|j: int| i <= j < N ==> a@[j] == b@[j],
            decreases i,
        {
            i -= 1;
            let n1 = a.get(i);
            let n2 = b.get(i);
            if n1 != n2 {
                proof {
                    lemma_bits_value_high_eq(a@, b@, i + 1);
                    lemma_bits_value_step(a@, i as int);
                    lemma_bits_value_step(b@, i as int);
                    lemma_bits_value_bound(a@.take(i as int));
                    lemma_bits_value_bound(b@.take(i as int));
                }
                return n2;
            }
        }
        proof {
            assert(a@ =~= b@);
        }
        false
    }
}

impl<const N: usize> PartialEq for U<N> {
    /// Two values are equal when they stand for the same number.
    fn eq(&self, other: &Self) -> (r: bool)
        ensures
            r == (self@ == other@),
            r == (*self == *other),
    {
        let r = self.value() == other.value();
        proof {
            if self@ == other@ {
                U::<N>::lemma_view_injective(*self, *other);
            }
            if self.bits() == other.bits() {
                U::<N>::lemma_bits_injective(*self, *other);
            }
        }
        r
    }
}

impl<const N: usize> PartialEqSpecImpl for U<N> {
    open spec fn obeys_eq_spec() -> bool {
        true
    }

    open spec fn eq_spec(&self, other: &Self) -> bool {
        self@ == other@
    }
}

impl<const N: usize> Eq for U<N> {

}

impl<const N: usize> PartialOrd for U<N> {
    /// Orders two values as the numbers they stand for.
    fn partial_cmp(&self, other: &Self) -> (r: Option<Ordering>) {
        if self.is_less(other) {
            Some(Ordering::Less)
        } else if other.is_less(self) {
            Some(Ordering::Greater)
        } else {
            Some(Ordering::Equal)
        }
    }
}

impl<const N: usize> PartialOrdSpecImpl for U<N> {
    open spec fn obeys_partial_cmp_spec() -> bool {
        true
    }

    open spec fn partial_cmp_spec(&self, other: &Self) -> Option<Ordering> {
        if self@ < other@ {
            Some(Ordering::Less)
        } else if self@ > other@ {
            Some(Ordering::Greater)
        } else {
            Some(Ordering::Equal)
        }
    }
}

} // verus!
