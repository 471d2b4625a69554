//! A register: one cell of `N` bits.

use vstd::prelude::*;
use vstd::arithmetic::power2::{pow2, lemma_pow2_pos};
use vstd::arithmetic::div_mod::{lemma_add_mod_noop_right, lemma_small_mod, lemma_sub_mod_noop_right};
use crate::un::U;

verus! {

/// A register of `N` bits. Its view is the value it holds.
#[derive(Debug, Clone, Copy)]
pub struct Register<const N: usize> {
    value: U<N>,
}

impl<const N: usize> View for Register<N> {
    type V = U<N>;

    closed spec fn view(&self) -> U<N> {
        self.value
    }
}

impl<const N: usize> Register<N> {
    /// A register that holds zero.
    pub fn new() -> (r: Self)
        ensures
            r@@ == 0,
    {
        proof {
            lemma_pow2_pos(N as nat);
            vstd::arithmetic::div_mod::lemma_small_mod(0, pow2(N as nat));
        }
        Register { value: 0u8.into() }
    }

    /// Replaces the value held.
    pub fn store(&mut self, value: U<N>)
        ensures
            final(self)@ == value,
    {
        self.value = value
    }

    /// The value held.
    pub fn load(&self) -> (r: U<N>)
        ensures
            r == self@,
    {
        self.value
    }

    /// Adds one, wrapping to zero after the largest value.
    pub fn increment(&mut self)
        ensures
            final(self)@@ == (old(self)@@ + 1) % pow2(N as nat),
            final(self)@ == U::<N>::of_nat(old(self)@@ + 1),
    {
        let next = self.value + 1u8.into();
        proof {
            lemma_pow2_pos(N as nat);
            lemma_add_mod_noop_right(self.value@ as int, 1, pow2(N as nat) as int);
            U::<N>::lemma_of_nat(self.value@ + 1);
            U::<N>::lemma_view_injective(next, U::of_nat(self.value@ + 1));
        }
        self.value = next
    }

    /// Subtracts one, wrapping to the largest value below zero.
    pub fn decrement(&mut self)
        ensures
            final(self)@@ == (old(self)@@ - 1) % (pow2(N as nat) as int),
            final(self)@ == U::<N>::of_nat(((old(self)@@ - 1) % (pow2(N as nat) as int)) as nat),
    {
        let next = self.value - 1u8.into();
        proof {
            lemma_pow2_pos(N as nat);
            lemma_sub_mod_noop_right(self.value@ as int, 1, pow2(N as nat) as int);
            let v: nat = ((self.value@ - 1) % (pow2(N as nat) as int)) as nat;
            lemma_small_mod(v, pow2(N as nat));
            U::<N>::lemma_of_nat(v);
            U::<N>::lemma_view_injective(next, U::of_nat(v));
        }
        self.value = next
    }
}

} // verus!
