//! Conversions between `U<N>` and the machine's unsigned integers.

use vstd::prelude::*;
use vstd::std_specs::convert::FromSpecImpl;
use vstd::arithmetic::power2::pow2;
use crate::un::{lemma_pow2_128, U};

verus! {

impl<const N: usize> FromSpecImpl<u8> for U<N> {
    open spec fn obeys_from_spec() -> bool {
        true
    }

    open spec fn from_spec(v: u8) -> Self {
        U::of_nat(v as nat)
    }
}

impl<const N: usize> From<u8> for U<N> {
    /// The `N` low bits of `v`.
    fn from(v: u8) -> (r: Self)
        ensures
            r@ == v as nat % pow2(N as nat),
    {
        U::from_u128(v as u128)
    }
}

impl<const N: usize> FromSpecImpl<u16> for U<N> {
    open spec fn obeys_from_spec() -> bool {
        true
    }

    open spec fn from_spec(v: u16) -> Self {
        U::of_nat(v as nat)
    }
}

impl<const N: usize> From<u16> for U<N> {
    /// The `N` low bits of `v`.
    fn from(v: u16) -> (r: Self)
        ensures
            r@ == v as nat % pow2(N as nat),
    {
        U::from_u128(v as u128)
    }
}

impl<const N: usize> FromSpecImpl<u32> for U<N> {
    open spec fn obeys_from_spec() -> bool {
        true
    }

    open spec fn from_spec(v: u32) -> Self {
        U::of_nat(v as nat)
    }
}

impl<const N: usize> From<u32> for U<N> {
    /// The `N` low bits of `v`.
    fn from(v: u32) -> (r: Self)
        ensures
            r@ == v as nat % pow2(N as nat),
    {
        U::from_u128(v as u128)
    }
}

impl<const N: usize> FromSpecImpl<u64> for U<N> {
    open spec fn obeys_from_spec() -> bool {
        true
    }

    open spec fn from_spec(v: u64) -> Self {
        U::of_nat(v as nat)
    }
}

impl<const N: usize> From<u64> for U<N> {
    /// The `N` low bits of `v`.
    fn from(v: u64) -> (r: Self)
        ensures
            r@ == v as nat % pow2(N as nat),
    {
        U::from_u128(v as u128)
    }
}

impl<const N: usize> FromSpecImpl<u128> for U<N> {
    open spec fn obeys_from_spec() -> bool {
        true
    }

    open spec fn from_spec(v: u128) -> Self {
        U::of_nat(v as nat)
    }
}

impl<const N: usize> From<u128> for U<N> {
    /// The `N` low bits of `v`.
    fn from(v: u128) -> (r: Self)
        ensures
            r@ == v as nat % pow2(N as nat),
    {
        U::from_u128(v)
    }
}

impl<const N: usize> FromSpecImpl<U<N>> for u8 {
    open spec fn obeys_from_spec() -> bool {
        true
    }

    open spec fn from_spec(v: U<N>) -> Self {
        (v@ % pow2(8)) as u8
    }
}

impl<const N: usize> From<U<N>> for u8 {
    /// The 8 low bits of `v`, zero-extended when `v` has fewer.
    fn from(v: U<N>) -> (r: Self)
        ensures
            r == v@ % pow2(8),
    {
        proof {
            lemma_pow2_128();
        }
        v.low_bits(8) as u8
    }
}

impl<const N: usize> FromSpecImpl<U<N>> for u16 {
    open spec fn obeys_from_spec() -> bool {
        true
    }

    open spec fn from_spec(v: U<N>) -> Self {
        (v@ % pow2(16)) as u16
    }
}

impl<const N: usize> From<U<N>> for u16 {
    /// The 16 low bits of `v`, zero-extended when `v` has fewer.
    fn from(v: U<N>) -> (r: Self)
        ensures
            r == v@ % pow2(16),
    {
        proof {
            lemma_pow2_128();
        }
        v.low_bits(16) as u16
    }
}

impl<const N: usize> FromSpecImpl<U<N>> for u32 {
    open spec fn obeys_from_spec() -> bool {
        true
    }

    open spec fn from_spec(v: U<N>) -> Self {
        (v@ % pow2(32)) as u32
    }
}

impl<const N: usize> From<U<N>> for u32 {
    /// The 32 low bits of `v`, zero-extended when `v` has fewer.
    fn from(v: U<N>) -> (r: Self)
        ensures
            r == v@ % pow2(32),
    {
        proof {
            lemma_pow2_128();
        }
        v.low_bits(32) as u32
    }
}

impl<const N: usize> FromSpecImpl<U<N>> for u64 {
    open spec fn obeys_from_spec() -> bool {
        true
    }

    open spec fn from_spec(v: U<N>) -> Self {
        (v@ % pow2(64)) as u64
    }
}

impl<const N: usize> From<U<N>> for u64 {
    /// The 64 low bits of `v`, zero-extended when `v` has fewer.
    fn from(v: U<N>) -> (r: Self)
        ensures
            r == v@ % pow2(64),
    {
        proof {
            lemma_pow2_128();
        }
        v.low_bits(64) as u64
    }
}

impl<const N: usize> FromSpecImpl<U<N>> for u128 {
    open spec fn obeys_from_spec() -> bool {
        true
    }

    open spec fn from_spec(v: U<N>) -> Self {
        (v@ % pow2(128)) as u128
    }
}

impl<const N: usize> From<U<N>> for u128 {
    /// The 128 low bits of `v`, zero-extended when `v` has fewer.
    fn from(v: U<N>) -> (r: Self)
        ensures
            r == v@ % pow2(128),
    {
        v.low_bits(128)
    }
}

/// A `U<N>` read as a `u128` is below `2^N`.
pub proof fn lemma_host_value_in_range<const N: usize>(v: U<N>)
    ensures
        <u128 as vstd::std_specs::convert::FromSpec<U<N>>>::from_spec(v) < pow2(N as nat),
        N <= 128 ==> <u128 as vstd::std_specs::convert::FromSpec<U<N>>>::from_spec(v) == v@,
{
    v.lemma_range();
    lemma_pow2_128();
    vstd::arithmetic::div_mod::lemma_mod_decreases(v@, pow2(128));
    if N <= 128 {
        crate::un::lemma_pow2_monotonic(N as nat, 128);
        vstd::arithmetic::div_mod::lemma_small_mod(v@, pow2(128));
    }
}

} // verus!
