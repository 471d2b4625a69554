//! Unsigned integers of any bit width, with wrapping arithmetic.

use vstd::prelude::*;
use vstd::arithmetic::power2::{pow2, lemma_pow2_pos, lemma_pow2_unfold, lemma_pow2_adds, lemma_pow2_strictly_increases, lemma2_to64};
use vstd::arithmetic::div_mod::{lemma_small_mod, lemma_div_denominator, lemma_fundamental_div_mod};
use crate::bit_array::BitArray;
use crate::bits::{
    bit_of, bits_of, bits_value, lemma_bit_of_bits_value, lemma_bits_of_bits_value,
    lemma_bits_of_value, lemma_bits_value_bound, lemma_bits_value_injective,
};

mod arith;
mod bitwise;
mod convert;
mod order;

verus! {

/// An unsigned integer of exactly `N` bits. Arithmetic wraps modulo `2^N`.
///
/// The view of a `U<N>` is the number it stands for; `bits` gives the same
/// number bit by bit, least significant first.
#[derive(Debug, Copy, Clone)]
pub struct U<const N: usize> {
    value: BitArray<N>,
}

impl<const N: usize> View for U<N> {
    type V = nat;

    open spec fn view(&self) -> nat {
        bits_value(self.bits())
    }
}

/// `2^a <= 2^b` whenever `a <= b`.
pub proof fn lemma_pow2_monotonic(a: nat, b: nat)
    requires
        a <= b,
    ensures
        pow2(a) <= pow2(b),
{
    if a < b {
        lemma_pow2_strictly_increases(a, b);
    }
}

/// `2^128` is one more than the largest `u128`.
pub proof fn lemma_pow2_128()
    ensures
        pow2(128) == u128::MAX + 1,
        pow2(64) == u64::MAX + 1,
        pow2(32) == u32::MAX + 1,
        pow2(16) == u16::MAX + 1,
        pow2(8) == u8::MAX + 1,
{
    lemma2_to64();
    lemma_pow2_adds(64, 64);
    assert(0x10000000000000000int * 0x10000000000000000int
        == 0x100000000000000000000000000000000int) by (nonlinear_arith);
}

impl<const N: usize> U<N> {
    /// The bits of the number, least significant first.
    pub closed spec fn bits(&self) -> Seq<bool> {
        self.value@
    }

    /// The `U<N>` that holds the given `N` bits.
    pub closed spec fn of_bits(s: Seq<bool>) -> U<N> {
        U { value: BitArray::of_seq(s) }
    }

    /// The `U<N>` that stands for `v mod 2^N`.
    pub open spec fn of_nat(v: nat) -> U<N> {
        Self::of_bits(bits_of(v, N as nat))
    }

    /// A `U<N>` has `N` bits and stands for a number below `2^N`.
    pub proof fn lemma_range(self)
        ensures
            self.bits().len() == N,
            self@ < pow2(N as nat),
            self.bits() == bits_of(self@, N as nat),
    {
        self.value.lemma_len();
        lemma_bits_value_bound(self.bits());
        lemma_bits_of_bits_value(self.bits());
    }

    /// `of_bits` holds the bits it was given.
    pub proof fn lemma_of_bits(s: Seq<bool>)
        requires
            s.len() == N,
        ensures
            Self::of_bits(s).bits() == s,
    {
        BitArray::<N>::lemma_of_seq(s);
    }

    /// `of_nat(v)` stands for `v mod 2^N`.
    pub proof fn lemma_of_nat(v: nat)
        ensures
            Self::of_nat(v)@ == v % pow2(N as nat),
            Self::of_nat(v).bits() == bits_of(v, N as nat),
    {
        Self::lemma_of_bits(bits_of(v, N as nat));
        lemma_bits_of_value(v, N as nat);
    }

    /// Two `U<N>` with the same bits are the same value.
    pub proof fn lemma_bits_injective(a: Self, b: Self)
        requires
            a.bits() == b.bits(),
        ensures
            a == b,
    {
        BitArray::<N>::lemma_view_injective(a.value, b.value);
    }

    /// Two `U<N>` that stand for the same number are the same value.
    pub proof fn lemma_view_injective(a: Self, b: Self)
        requires
            a@ == b@,
        ensures
            a == b,
    {
        a.lemma_range();
        b.lemma_range();
        lemma_bits_value_injective(a.bits(), b.bits());
        Self::lemma_bits_injective(a, b);
    }

    /// A `U<N>` is the `of_nat` of the number it stands for.
    pub proof fn lemma_of_nat_view(self)
        ensures
            Self::of_nat(self@) == self,
    {
        self.lemma_range();
        Self::lemma_of_nat(self@);
        Self::lemma_bits_injective(Self::of_nat(self@), self);
    }

    /// The value zero.
    pub fn new() -> (r: Self)
        ensures
            r@ == 0,
            r == Self::of_nat(0),
    {
        let r = U { value: BitArray::zeroes() };
        proof {
            crate::bits::lemma_bits_value_zero(r.bits());
            r.lemma_of_nat_view();
        }
        r
    }

    /// The value whose bits are those of `value`.
    pub fn with_value(value: BitArray<N>) -> (r: Self)
        ensures
            r.bits() == value@,
    {
        U { value }
    }

    /// The bits of this value as a bit array.
    pub fn value(&self) -> (r: BitArray<N>)
        ensures
            r@ == self.bits(),
    {
        self.value
    }

    /// The value zero, the smallest `U<N>`.
    pub fn min() -> (r: Self)
        ensures
            r@ == 0,
            r == Self::of_nat(0),
    {
        Self::new()
    }

    /// The largest `U<N>`, `2^N - 1`.
    pub fn max() -> (r: Self)
        ensures
            r@ == pow2(N as nat) - 1,
            forall|i: int| 0 <= i < N ==> r.bits()[i],
    {
        let r = U { value: BitArray::ones() };
        proof {
            crate::bits::lemma_bits_value_ones(r.bits());
        }
        r
    }

    /// This value with its `n` low bits cleared.
    pub fn clear_low(self, n: usize) -> (r: Self)
        ensures
            r@ == (self@ / pow2(n as nat)) * pow2(n as nat),
            r@ % pow2(n as nat) == 0,
            r@ <= self@,
    {
        let mask = Self::max() << n;
        let r = self & mask;
        proof {
            self.lemma_range();
            r.lemma_range();
            lemma_pow2_pos(n as nat);
            let q: nat = self@ / pow2(n as nat);
            let v: nat = q * pow2(n as nat);
            lemma_fundamental_div_mod(self@ as int, pow2(n as nat) as int);
            vstd::arithmetic::div_mod::lemma_mod_pos_bound(self@ as int, pow2(n as nat) as int);
            assert(v <= self@) by (nonlinear_arith)
                requires
                    self@ == pow2(n as nat) * q + self@ % pow2(n as nat),
                    v == q * pow2(n as nat),
                    self@ % pow2(n as nat) >= 0,
            ;
            assert forall|i: int| 0 <= i < N implies r.bits()[i] == bit_of(v, i as nat) by {
                crate::bits::lemma_bit_of_shl(q, n as nat, i as nat);
                if i >= n {
                    crate::bits::lemma_bit_of_shr(self@, n as nat, (i - n) as nat);
                }
                lemma_bit_of_bits_value(self.bits(), i as nat);
            }
            assert(r.bits() =~= bits_of(v, N as nat));
            lemma_bits_of_value(v, N as nat);
            lemma_small_mod(v, pow2(N as nat));
            vstd::arithmetic::div_mod::lemma_mod_multiples_basic(q as int, pow2(n as nat) as int);
        }
        r
    }

    /// This value as a `U<M>`: zero-extended when `M > N`, truncated to its
    /// `M` low bits when `M < N`.
    pub fn change_bits<const M: usize>(self) -> (r: U<M>)
        ensures
            r@ == self@ % pow2(M as nat),
            M >= N ==> r@ == self@,
            r == U::<M>::of_nat(self@),
    {
        let r = U { value: self.value.change_bits::<M>() };
        proof {
            self.lemma_range();
            assert forall|i: int| 0 <= i < M implies r.bits()[i] == bit_of(self@, i as nat) by {
                lemma_bit_of_bits_value(self.bits(), i as nat);
            }
            assert(r.bits() =~= bits_of(self@, M as nat));
            U::<M>::lemma_of_nat(self@);
            U::<M>::lemma_bits_injective(r, U::<M>::of_nat(self@));
            if M >= N {
                lemma_pow2_monotonic(N as nat, M as nat);
                lemma_small_mod(self@, pow2(M as nat));
            }
        }
        r
    }

    /// This value with every bit from position `width` on cleared.
    pub fn truncate(self, width: usize) -> (r: Self)
        ensures
            r@ == self@ % pow2(width as nat),
            width >= N ==> r == self,
    {
        let mut out = self.value;
        let mut i: usize = if width < N {
            width
        } else {
            N
        };
        proof {
            self.lemma_range();
        }
        while i < N
            invariant
                (if width < N {
                    width
                } else {
                    N
                }) <= i <= N,
                out@.len() == N,
                self.bits().len() == N,
                forall|j: int| 0 <= j < width && j < N ==> out@[j] == self.bits()[j],
                forall|j: int| width <= j < i && j < N ==> !out@[j],
                forall|j: int| i <= j < N ==> out@[j] == self.bits()[j],
            decreases N - i,
        {
            out.set(i, false);
            i += 1;
        }
        let r = U { value: out };
        proof {
            let v: nat = self@ % pow2(width as nat);
            assert forall|j: int| 0 <= j < N implies r.bits()[j] == bit_of(v, j as nat) by {
                crate::bits::lemma_bit_of_mod(self@, width as nat, j as nat);
                lemma_bit_of_bits_value(self.bits(), j as nat);
            }
            assert(r.bits() =~= bits_of(v, N as nat));
            lemma_pow2_pos(width as nat);
            vstd::arithmetic::div_mod::lemma_mod_decreases(self@, pow2(width as nat));
            lemma_small_mod(v, pow2(N as nat));
            Self::lemma_of_nat(v);
            lemma_bits_value_injective(r.bits(), Self::of_nat(v).bits());
            if width >= N {
                lemma_pow2_monotonic(N as nat, width as nat);
                lemma_small_mod(self@, pow2(width as nat));
                Self::lemma_view_injective(r, self);
            }
        }
        r
    }

    /// The value of the `N` low bits of `v`.
    pub fn from_u128(v: u128) -> (r: Self)
        ensures
            r@ == v as nat % pow2(N as nat),
            r == Self::of_nat(v as nat),
    {
        let mut out = BitArray::<N>::zeroes();
        let mut rest: u128 = v;
        let mut i: usize = 0;
        proof {
            lemma2_to64();
        }
        while i < N
            invariant
                i <= N,
                out@.len() == N,
                rest as nat == v as nat / pow2(i as nat),
                forall|j: int| 0 <= j < i ==> out@[j] == bit_of(v as nat, j as nat),
            decreases N - i,
        {
            out.set(i, rest % 2 == 1);
            proof {
                lemma_pow2_pos(i as nat);
                lemma_pow2_unfold((i + 1) as nat);
                lemma_div_denominator(v as int, pow2(i as nat) as int, 2);
            }
            rest = rest / 2;
            i += 1;
        }
        let r = U { value: out };
        proof {
            assert(r.bits() =~= bits_of(v as nat, N as nat));
            Self::lemma_of_nat(v as nat);
            Self::lemma_bits_injective(r, Self::of_nat(v as nat));
        }
        r
    }

    /// The value of the `width` low bits, for a `width` of at most 128.
    pub fn low_bits(&self, width: usize) -> (r: u128)
        requires
            width <= 128,
        ensures
            r == self@ % pow2(width as nat),
    {
        let m: usize = if N < width {
            N
        } else {
            width
        };
        let ghost low: nat = bits_value(self.bits().take(m as int));
        let mut acc: u128 = 0;
        let mut i: usize = m;
        proof {
            self.lemma_range();
            lemma_bits_value_bound(self.bits().take(m as int));
            lemma_pow2_monotonic(m as nat, 128);
            lemma_pow2_128();
            lemma_basic_div_zero(low, m as nat);
        }
        while i > 0
            invariant
                i <= m,
                m <= N,
                m <= 128,
                self.bits().len() == N,
                low == bits_value(self.bits().take(m as int)),
                low < pow2(m as nat),
                pow2(m as nat) <= u128::MAX + 1,
                acc as nat == low / pow2(i as nat),
            decreases i,
        {
            let bit: bool = self.value.get(i - 1);
            proof {
                let k: nat = (i - 1) as nat;
                lemma_pow2_pos(k);
                lemma_pow2_unfold(i as nat);
                lemma_div_denominator(low as int, pow2(k) as int, 2);
                lemma_bit_of_bits_value(self.bits().take(m as int), k);
                lemma_fundamental_div_mod(low as int / pow2(k) as int, 2);
                vstd::arithmetic::div_mod::lemma_div_nonincreasing(low as int, pow2(k) as int);
            }
            acc = acc * 2 + if bit {
                1
            } else {
                0
            };
            i -= 1;
        }
        proof {
            lemma2_to64();
            self.lemma_range();
            assert(low as int / 1 == low as int) by (nonlinear_arith);
            if m == N {
                assert(self.bits().take(m as int) =~= self.bits());
                lemma_pow2_monotonic(N as nat, width as nat);
                lemma_small_mod(self@, pow2(width as nat));
            } else {
                assert(self.bits().take(m as int) =~= bits_of(self@, width as nat));
                lemma_bits_of_value(self@, width as nat);
            }
        }
        acc
    }
}

/// A number below `2^m` divided by `2^m` is zero.
pub proof fn lemma_basic_div_zero(v: nat, m: nat)
    requires
        v < pow2(m),
    ensures
        v / pow2(m) == 0,
{
    vstd::arithmetic::div_mod::lemma_basic_div(v as int, pow2(m) as int);
}

} // verus!
