//! Wrapping addition, subtraction and bitwise complement of `U<N>`.

use vstd::prelude::*;
use core::ops::{Add, Not, Sub};
use vstd::std_specs::ops::{AddSpecImpl, NotSpecImpl, SubSpecImpl};
use vstd::arithmetic::power2::{pow2, lemma_pow2_pos, lemma_pow2_unfold};
use vstd::arithmetic::div_mod::{
    lemma_add_mod_noop_right, lemma_fundamental_div_mod_converse, lemma_mod_add_multiples_vanish,
    lemma_small_mod,
};
use crate::bits::{bit_weight, bits_value, lemma_bits_value_not, lemma_bits_value_step};
use crate::un::U;

verus! {

/// What one step of a ripple-carry adder keeps true: the sum bits written so
/// far, together with the carry, stand for the sum of the two low parts.
proof fn lemma_adder_step(
    a: Seq<bool>,
    b: Seq<bool>,
    before: Seq<bool>,
    after: Seq<bool>,
    i: int,
    carry: bool,
)
    requires
        0 <= i < a.len(),
        a.len() == b.len(),
        a.len() == before.len(),
        before[i] == a[i],
        after == before.update(i, (a[i] != b[i]) != carry),
        bits_value(before.take(i)) + bit_weight(carry, i as nat) == bits_value(a.take(i))
            + bits_value(b.take(i)),
    ensures
        bits_value(after.take(i + 1)) + bit_weight(
            (a[i] && b[i]) || (a[i] && carry) || (b[i] && carry),
            (i + 1) as nat,
        ) == bits_value(a.take(i + 1)) + bits_value(b.take(i + 1)),
{
    lemma_bits_value_step(a, i);
    lemma_bits_value_step(b, i);
    lemma_bits_value_step(after, i);
    assert(after.take(i) =~= before.take(i));
    lemma_pow2_unfold((i + 1) as nat);
}

impl<const N: usize> AddSpecImpl for U<N> {
    open spec fn obeys_add_spec() -> bool {
        true
    }

    open spec fn add_req(self, rhs: Self) -> bool {
        true
    }

    open spec fn add_spec(self, rhs: Self) -> U<N> {
        U::of_nat(self@ + rhs@)
    }
}

impl<const N: usize> Add for U<N> {
    type Output = U<N>;

    /// Addition modulo `2^N`.
    fn add(self, rhs: Self) -> (r: U<N>)
        ensures
            r@ == (self@ + rhs@) % pow2(N as nat),
    {
        let mut out = self.value();
        let other = rhs.value();
        let mut carry = false;
        let mut i: usize = 0;
        proof {
            self.lemma_range();
            rhs.lemma_range();
        }
        while i < N
            invariant
                i <= N,
                out@.len() == N,
                self.bits().len() == N,
                other@ == rhs.bits(),
                other@.len() == N,
                forall|j: int| i <= j < N ==> out@[j] == self.bits()[j],
                bits_value(out@.take(i as int)) + bit_weight(carry, i as nat) == bits_value(
                    self.bits().take(i as int),
                ) + bits_value(rhs.bits().take(i as int)),
            decreases N - i,
        {
            let n1 = out.get(i);
            let n2 = other.get(i);
            let sum = (n1 != n2) != carry;
            let ghost before = out@;
            out.set(i, sum);
            proof {
                lemma_adder_step(self.bits(), rhs.bits(), before, out@, i as int, carry);
            }
            carry = (n1 && n2) || (n1 && carry) || (n2 && carry);
            i += 1;
        }
        let r = U::with_value(out);
        proof {
            assert(out@.take(N as int) =~= out@);
            assert(self.bits().take(N as int) =~= self.bits());
            assert(rhs.bits().take(N as int) =~= rhs.bits());
            r.lemma_range();
            lemma_pow2_pos(N as nat);
            let q: int = if carry {
                1
            } else {
                0
            };
            assert(q * pow2(N as nat) == bit_weight(carry, N as nat)) by (nonlinear_arith)
                requires
                    q == if carry { 1int } else { 0int },
                    bit_weight(carry, N as nat) == if carry { pow2(N as nat) } else { 0 },
            ;
            lemma_fundamental_div_mod_converse(
                (self@ + rhs@) as int,
                pow2(N as nat) as int,
                q,
                r@ as int,
            );
            U::<N>::lemma_of_nat(self@ + rhs@);
            U::<N>::lemma_view_injective(r, U::of_nat(self@ + rhs@));
        }
        r
    }
}

/// The other value of a bit.
fn flip(b: bool) -> (f: bool)
    ensures
        f == !b,
{
    !b
}

impl<const N: usize> NotSpecImpl for U<N> {
    open spec fn obeys_not_spec() -> bool {
        true
    }

    open spec fn not_req(self) -> bool {
        true
    }

    open spec fn not_spec(self) -> U<N> {
        U::of_nat((pow2(N as nat) - 1 - self@) as nat)
    }
}

impl<const N: usize> Not for U<N> {
    type Output = U<N>;

    /// Bitwise complement within `N` bits.
    fn not(self) -> (r: U<N>)
        ensures
            r@ == pow2(N as nat) - 1 - self@,
            forall|i: int| 0 <= i < N ==> r.bits()[i] == !self.bits()[i],
    {
        let flipped = self.value().map(flip);
        let r = U::with_value(flipped);
        proof {
            self.lemma_range();
            r.lemma_range();
            lemma_bits_value_not(self.bits(), r.bits());
            let v: nat = (pow2(N as nat) - 1 - self@) as nat;
            lemma_small_mod(v, pow2(N as nat));
            U::<N>::lemma_of_nat(v);
            U::<N>::lemma_view_injective(r, U::of_nat(v));
        }
        r
    }
}

/// Adding the complement of `b` plus one is subtracting `b`, modulo `m`.
pub proof fn lemma_sub_by_complement(a: nat, b: nat, m: nat)
    requires
        m > 0,
        b < m,
    ensures
        (a + ((m - 1 - b) + 1int % (m as int)) % (m as int)) % (m as int) == (a - b) % (m as int),
{
    let nb: int = m - 1 - b;
    lemma_add_mod_noop_right(nb, 1, m as int);
    lemma_add_mod_noop_right(a as int, nb + 1, m as int);
    lemma_mod_add_multiples_vanish(a - b, m as int);
}

impl<const N: usize> SubSpecImpl for U<N> {
    open spec fn obeys_sub_spec() -> bool {
        true
    }

    open spec fn sub_req(self, rhs: Self) -> bool {
        true
    }

    open spec fn sub_spec(self, rhs: Self) -> U<N> {
        U::of_nat(((self@ - rhs@) % (pow2(N as nat) as int)) as nat)
    }
}

impl<const N: usize> Sub for U<N> {
    type Output = U<N>;

    /// Subtraction modulo `2^N`, computed as `self + (!rhs + 1)`.
    fn sub(self, rhs: Self) -> (r: U<N>)
        ensures
            r@ == (self@ - rhs@) % (pow2(N as nat) as int),
    {
        let one = U::<N>::from_u128(1);
        let negated = rhs.not() + one;
        let r = self + negated;
        proof {
            rhs.lemma_range();
            lemma_pow2_pos(N as nat);
            lemma_sub_by_complement(self@, rhs@, pow2(N as nat));
            let v: nat = ((self@ - rhs@) % (pow2(N as nat) as int)) as nat;
            lemma_small_mod(v, pow2(N as nat));
            U::<N>::lemma_of_nat(v);
            U::<N>::lemma_view_injective(r, U::of_nat(v));
        }
        r
    }
}

impl<const N: usize> core::ops::AddAssign for U<N> {
    /// Adds `rhs` to this value, wrapping.
    fn add_assign(&mut self, rhs: Self)
        ensures
            final(self)@ == (old(self)@ + rhs@) % pow2(N as nat),
    {
        *self = *self + rhs
    }
}

impl<const N: usize> core::ops::SubAssign for U<N> {
    /// Subtracts `rhs` from this value, wrapping.
    fn sub_assign(&mut self, rhs: Self)
        ensures
            final(self)@ == (old(self)@ - rhs@) % (pow2(N as nat) as int),
    {
        *self = *self - rhs
    }
}

/// Addition of the `U<N>` of two numbers is the `U<N>` of their sum: it
/// stands for the sum modulo `2^N`.
pub proof fn lemma_add_wraps<const N: usize>(a: nat, b: nat)
    ensures
        vstd::std_specs::ops::AddSpec::add_spec(U::<N>::of_nat(a), U::<N>::of_nat(b)) == U::<
            N,
        >::of_nat(a + b),
        vstd::std_specs::ops::AddSpec::add_spec(U::<N>::of_nat(a), U::<N>::of_nat(b))@ == (a + b)
            % pow2(N as nat),
{
    let m: nat = pow2(N as nat);
    lemma_pow2_pos(N as nat);
    U::<N>::lemma_of_nat(a);
    U::<N>::lemma_of_nat(b);
    U::<N>::lemma_of_nat(a + b);
    U::<N>::lemma_of_nat(a % m + b % m);
    vstd::arithmetic::div_mod::lemma_add_mod_noop(a as int, b as int, m as int);
    U::<N>::lemma_view_injective(U::<N>::of_nat(a % m + b % m), U::<N>::of_nat(a + b));
}

/// Subtraction of the `U<N>` of two numbers stands for their difference
/// modulo `2^N`.
pub proof fn lemma_sub_wraps<const N: usize>(a: nat, b: nat)
    ensures
        vstd::std_specs::ops::SubSpec::sub_spec(U::<N>::of_nat(a), U::<N>::of_nat(b))@ == (a - b)
            % (pow2(N as nat) as int),
{
    let m: nat = pow2(N as nat);
    lemma_pow2_pos(N as nat);
    U::<N>::lemma_of_nat(a);
    U::<N>::lemma_of_nat(b);
    let v: nat = ((a % m - b % m) % (m as int)) as nat;
    U::<N>::lemma_of_nat(v);
    lemma_small_mod(v, m);
    vstd::arithmetic::div_mod::lemma_sub_mod_noop(a as int, b as int, m as int);
}

} // verus!
