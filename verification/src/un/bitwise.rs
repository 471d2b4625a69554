//! Bitwise and, or, and logical shifts of `U<N>`.

use vstd::prelude::*;
use core::ops::{BitAnd, BitOr, Shl, Shr};
use vstd::std_specs::ops::{BitAndSpecImpl, BitOrSpecImpl, ShlSpecImpl, ShrSpecImpl};
use vstd::arithmetic::power2::{pow2, lemma_pow2_pos};
use vstd::arithmetic::div_mod::{lemma_div_nonincreasing, lemma_small_mod};
use crate::bits::{bit_of, bits_of, lemma_bit_of_bits_value, lemma_bit_of_shl, lemma_bit_of_shr};
use crate::un::U;

verus! {

impl<const N: usize> BitAndSpecImpl for U<N> {
    open spec fn obeys_bitand_spec() -> bool {
        true
    }

    open spec fn bitand_req(self, rhs: Self) -> bool {
        true
    }

    open spec fn bitand_spec(self, rhs: Self) -> U<N> {
        U::of_bits(Seq::new(N as nat, |i: int| self.bits()[i] && rhs.bits()[i]))
    }
}

impl<const N: usize> BitAnd for U<N> {
    type Output = U<N>;

    /// Bitwise and.
    fn bitand(self, rhs: Self) -> (r: U<N>)
        ensures
            forall|i: int| 0 <= i < N ==> r.bits()[i] == (self.bits()[i] && rhs.bits()[i]),
    {
        let mut out = self.value();
        let other = rhs.value();
        let mut i: usize = 0;
        proof {
            self.lemma_range();
            rhs.lemma_range();
        }
        while i < N
            invariant
                i <= N,
                out@.len() == N,
                self.bits().len() == N,
                other@ == rhs.bits(),
                other@.len() == N,
                forall|j: int| 0 <= j < i ==> out@[j] == (self.bits()[j] && rhs.bits()[j]),
                forall|j: int| i <= j < N ==> out@[j] == self.bits()[j],
            decreases N - i,
        {
            let n1 = out.get(i);
            let n2 = other.get(i);
            out.set(i, n1 && n2);
            i += 1;
        }
        let r = U::with_value(out);
        proof {
            let s = Seq::new(N as nat, |i: int| self.bits()[i] && rhs.bits()[i]);
            assert(r.bits() =~= s);
            U::<N>::lemma_of_bits(s);
            U::<N>::lemma_bits_injective(r, U::of_bits(s));
        }
        r
    }
}

impl<const N: usize> BitOrSpecImpl for U<N> {
    open spec fn obeys_bitor_spec() -> bool {
        true
    }

    open spec fn bitor_req(self, rhs: Self) -> bool {
        true
    }

    open spec fn bitor_spec(self, rhs: Self) -> U<N> {
        U::of_bits(Seq::new(N as nat, |i: int| self.bits()[i] || rhs.bits()[i]))
    }
}

impl<const N: usize> BitOr for U<N> {
    type Output = U<N>;

    /// Bitwise or.
    fn bitor(self, rhs: Self) -> (r: U<N>)
        ensures
            forall|i: int| 0 <= i < N ==> r.bits()[i] == (self.bits()[i] || rhs.bits()[i]),
    {
        let mut out = self.value();
        let other = rhs.value();
        let mut i: usize = 0;
        proof {
            self.lemma_range();
            rhs.lemma_range();
        }
        while i < N
            invariant
                i <= N,
                out@.len() == N,
                self.bits().len() == N,
                other@ == rhs.bits(),
                other@.len() == N,
                forall|j: int| 0 <= j < i ==> out@[j] == (self.bits()[j] || rhs.bits()[j]),
                forall|j: int| i <= j < N ==> out@[j] == self.bits()[j],
            decreases N - i,
        {
            let n1 = out.get(i);
            let n2 = other.get(i);
            out.set(i, n1 || n2);
            i += 1;
        }
        let r = U::with_value(out);
        proof {
            let s = Seq::new(N as nat, |i: int| self.bits()[i] || rhs.bits()[i]);
            assert(r.bits() =~= s);
            U::<N>::lemma_of_bits(s);
            U::<N>::lemma_bits_injective(r, U::of_bits(s));
        }
        r
    }
}

impl<const N: usize> ShrSpecImpl<usize> for U<N> {
    open spec fn obeys_shr_spec() -> bool {
        true
    }

    open spec fn shr_req(self, rhs: usize) -> bool {
        true
    }

    open spec fn shr_spec(self, rhs: usize) -> U<N> {
        U::of_nat(self@ / pow2(rhs as nat))
    }
}

impl<const N: usize> Shr<usize> for U<N> {
    type Output = U<N>;

    /// Logical shift right: bit `i` of the result is bit `i + rhs` of `self`,
    /// and the vacated high bits are zero.
    fn shr(self, rhs: usize) -> (r: U<N>)
        ensures
            r@ == self@ / pow2(rhs as nat),
            forall|i: int|
                0 <= i < N ==> r.bits()[i] == (i + rhs < N && self.bits()[i + rhs]),
    {
        let mut out = self.value();
        let mut i: usize = 0;
        proof {
            self.lemma_range();
        }
        while i < N
            invariant
                i <= N,
                out@.len() == N,
                self.bits().len() == N,
                forall|j: int|
                    0 <= j < i ==> out@[j] == (j + rhs < N && self.bits()[j + rhs]),
                forall|j: int| i <= j < N ==> out@[j] == self.bits()[j],
            decreases N - i,
        {
            let new = if rhs < N && i < N - rhs {
                out.get(i + rhs)
            } else {
                false
            };
            out.set(i, new);
            i += 1;
        }
        let r = U::with_value(out);
        proof {
            let shifted: nat = self@ / pow2(rhs as nat);
            assert forall|j: int| 0 <= j < N implies r.bits()[j] == bit_of(shifted, j as nat) by {
                lemma_bit_of_shr(self@, rhs as nat, j as nat);
                lemma_bit_of_bits_value(self.bits(), (j + rhs) as nat);
            }
            assert(r.bits() =~= bits_of(shifted, N as nat));
            lemma_pow2_pos(rhs as nat);
            lemma_div_nonincreasing(self@ as int, pow2(rhs as nat) as int);
            lemma_small_mod(shifted, pow2(N as nat));
            U::<N>::lemma_of_nat(shifted);
            U::<N>::lemma_bits_injective(r, U::of_nat(shifted));
        }
        r
    }
}

impl<const N: usize> ShlSpecImpl<usize> for U<N> {
    open spec fn obeys_shl_spec() -> bool {
        true
    }

    open spec fn shl_req(self, rhs: usize) -> bool {
        true
    }

    open spec fn shl_spec(self, rhs: usize) -> U<N> {
        U::of_nat(self@ * pow2(rhs as nat))
    }
}

impl<const N: usize> Shl<usize> for U<N> {
    type Output = U<N>;

    /// Logical shift left: bit `i` of the result is bit `i - rhs` of `self`,
    /// the vacated low bits are zero, and bits shifted past `N` are lost.
    fn shl(self, rhs: usize) -> (r: U<N>)
        ensures
            r@ == (self@ * pow2(rhs as nat)) % pow2(N as nat),
            forall|i: int| 0 <= i < N ==> r.bits()[i] == (i >= rhs && self.bits()[i - rhs]),
    {
        let mut out = self.value();
        let mut i: usize = N;
        proof {
            self.lemma_range();
        }
        while i > 0
            invariant
                i <= N,
                out@.len() == N,
                self.bits().len() == N,
                forall|j: int| i <= j < N ==> out@[j] == (j >= rhs && self.bits()[j - rhs]),
                forall|j: int| 0 <= j < i ==> out@[j] == self.bits()[j],
            decreases i,
        {
            i -= 1;
            let new = if i < rhs {
                false
            } else {
                out.get(i - rhs)
            };
            out.set(i, new);
        }
        let r = U::with_value(out);
        proof {
            let shifted: nat = self@ * pow2(rhs as nat);
            assert forall|j: int| 0 <= j < N implies r.bits()[j] == bit_of(shifted, j as nat) by {
                lemma_bit_of_shl(self@, rhs as nat, j as nat);
                if j >= rhs {
                    lemma_bit_of_bits_value(self.bits(), (j - rhs) as nat);
                }
            }
            assert(r.bits() =~= bits_of(shifted, N as nat));
            U::<N>::lemma_of_nat(shifted);
            U::<N>::lemma_bits_injective(r, U::of_nat(shifted));
        }
        r
    }
}

impl<const N: usize> U<N> {
    /// Where `a` is a multiple of `2^k` and `b` is below `2^k`, the bitwise
    /// or of the two is their sum.
    pub proof fn lemma_or_disjoint(a: Self, b: Self, k: nat)
        requires
            a@ % pow2(k) == 0,
            b@ < pow2(k),
        ensures
            vstd::std_specs::ops::BitOrSpec::bitor_spec(a, b)@ == a@ + b@,
            vstd::std_specs::ops::BitOrSpec::bitor_spec(b, a) == vstd::std_specs::ops::BitOrSpec::bitor_spec(
                a,
                b,
            ),
            forall|i: int|
                0 <= i < N ==> vstd::std_specs::ops::BitOrSpec::bitor_spec(a, b).bits()[i] == (
                a.bits()[i] || b.bits()[i]),
    {
        let s = Seq::new(N as nat, |i: int| a.bits()[i] || b.bits()[i]);
        assert(Seq::new(N as nat, |i: int| b.bits()[i] || a.bits()[i]) =~= s);
        a.lemma_range();
        b.lemma_range();
        U::<N>::lemma_of_bits(s);
        assert forall|i: int| 0 <= i < N && i < k implies !a.bits()[i] by {
            crate::bits::lemma_bit_of_multiple(a@, k, i as nat);
        }
        assert forall|i: int| 0 <= i < N && i >= k implies !b.bits()[i] by {
            crate::bits::lemma_bit_of_small(b@, k, i as nat);
        }
        crate::bits::lemma_bits_value_or_disjoint(a.bits(), b.bits(), s, k as int);
    }
}

} // verus!
