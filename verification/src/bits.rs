//! The arithmetic behind bit sequences: what number a little-endian sequence of
//! bits stands for, which bit of a number sits at a position, and the lemmas
//! that tie the two together.

use vstd::prelude::*;
use vstd::arithmetic::power2::{
    lemma_pow2_adds, lemma_pow2_pos, lemma_pow2_strictly_increases, lemma_pow2_unfold, pow2,
};
use vstd::arithmetic::div_mod::{
    lemma_basic_div, lemma_div_denominator, lemma_div_multiples_vanish_fancy,
    lemma_fundamental_div_mod, lemma_fundamental_div_mod_converse, lemma_mod_breakdown,
    lemma_small_mod,
};
use vstd::arithmetic::mul::lemma_mul_is_commutative;

verus! {

/// Bit `i` of the natural number `v`, counting from the least significant bit.
pub open spec fn bit_of(v: nat, i: nat) -> bool {
    (v / pow2(i)) % 2 == 1
}

/// The weight that a bit contributes at position `i`.
pub open spec fn bit_weight(b: bool, i: nat) -> nat {
    if b {
        pow2(i)
    } else {
        0
    }
}

/// The number that a little-endian bit sequence stands for: bit `i` weighs `2^i`.
pub open spec fn bits_value(s: Seq<bool>) -> nat
    decreases s.len(),
{
    if s.len() == 0 {
        0
    } else {
        bits_value(s.drop_last()) + bit_weight(s.last(), (s.len() - 1) as nat)
    }
}

/// The `n` low bits of `v`, least significant first.
pub open spec fn bits_of(v: nat, n: nat) -> Seq<bool> {
    Seq::new(n, |i: int| bit_of(v, i as nat))
}

/// A prefix that grows by one bit grows in value by that bit's weight.
pub proof fn lemma_bits_value_step(s: Seq<bool>, i: int)
    requires
        0 <= i < s.len(),
    ensures
        bits_value(s.take(i + 1)) == bits_value(s.take(i)) + bit_weight(s[i], i as nat),
{
    assert(s.take(i + 1).drop_last() =~= s.take(i));
}

/// A sequence of `n` bits stands for a number below `2^n`.
pub proof fn lemma_bits_value_bound(s: Seq<bool>)
    ensures
        bits_value(s) < pow2(s.len()),
    decreases s.len(),
{
    if s.len() == 0 {
        lemma_pow2_pos(0);
    } else {
        lemma_bits_value_bound(s.drop_last());
        lemma_pow2_unfold(s.len());
    }
}

/// A sequence of zero bits stands for zero.
pub proof fn lemma_bits_value_zero(s: Seq<bool>)
    requires
        forall|j: int| 0 <= j < s.len() ==> !s[j],
    ensures
        bits_value(s) == 0,
    decreases s.len(),
{
    if s.len() > 0 {
        lemma_bits_value_zero(s.drop_last());
    }
}

/// Zero bits above position `k` add nothing to the value.
pub proof fn lemma_bits_value_high_zero(s: Seq<bool>, k: int)
    requires
        0 <= k <= s.len(),
        forall|j: int| k <= j < s.len() ==> !s[j],
    ensures
        bits_value(s) == bits_value(s.take(k)),
    decreases s.len() - k,
{
    if k == s.len() {
        assert(s.take(k) =~= s);
    } else {
        lemma_bits_value_step(s, k);
        lemma_bits_value_high_zero(s, k + 1);
    }
}

/// The low `n` bits of `v` stand for `v mod 2^n`.
pub proof fn lemma_bits_of_value(v: nat, n: nat)
    ensures
        bits_value(bits_of(v, n)) == v % pow2(n),
    decreases n,
{
    lemma_pow2_pos(n);
    if n == 0 {
        lemma_pow2_unfold(1);
        assert(pow2(0) == 1) by {
            lemma_pow2_pos(0);
            lemma_pow2_unfold(1);
            vstd::arithmetic::power2::lemma2_to64();
        }
    } else {
        let m: nat = (n - 1) as nat;
        lemma_bits_of_value(v, m);
        assert(bits_of(v, n).drop_last() =~= bits_of(v, m));
        lemma_pow2_pos(m);
        lemma_pow2_unfold(n);
        lemma_mod_breakdown(v as int, pow2(m) as int, 2);
        assert(pow2(n) == pow2(m) * 2) by {
            lemma_mul_is_commutative(pow2(m) as int, 2);
        }
        let q: int = (v as int / pow2(m) as int) % 2;
        assert(q == 0 || q == 1);
        assert(pow2(m) * q == bit_weight(bit_of(v, m), m)) by (nonlinear_arith)
            requires
                q == 0 || q == 1,
                bit_of(v, m) == (q == 1),
                bit_weight(bit_of(v, m), m) == if bit_of(v, m) { pow2(m) } else { 0 },
        ;
    }
}

/// Over a base of `2^k`, adding a multiple of `2^k` leaves the low part and
/// adds to the quotient.
pub proof fn lemma_split_at(lo: nat, hi: nat, k: nat)
    requires
        lo < pow2(k),
    ensures
        (lo + hi * pow2(k)) % pow2(k) == lo,
        (lo + hi * pow2(k)) / pow2(k) == hi,
{
    lemma_pow2_pos(k);
    lemma_fundamental_div_mod_converse(
        (lo + hi * pow2(k)) as int,
        pow2(k) as int,
        hi as int,
        lo as int,
    );
}

/// Bit `i` of the number that a sequence stands for is the sequence's bit `i`;
/// above the sequence's length every bit is zero.
pub proof fn lemma_bit_of_bits_value(s: Seq<bool>, i: nat)
    ensures
        i < s.len() ==> bit_of(bits_value(s), i) == s[i as int],
        i >= s.len() ==> !bit_of(bits_value(s), i),
    decreases s.len(),
{
    let v: nat = bits_value(s);
    lemma_pow2_pos(i);
    if s.len() == 0 {
        lemma_basic_div(0, pow2(i) as int);
        assert(0int / (pow2(i) as int) == 0) by (nonlinear_arith)
            requires
                pow2(i) > 0,
        ;
    } else {
        let m: nat = (s.len() - 1) as nat;
        let init: Seq<bool> = s.drop_last();
        let lo: nat = bits_value(init);
        let hi: nat = if s.last() { 1 } else { 0 };
        lemma_bits_value_bound(init);
        lemma_bits_value_bound(s);
        lemma_pow2_pos(m);
        assert(v == lo + hi * pow2(m)) by (nonlinear_arith)
            requires
                v == lo + bit_weight(s.last(), m),
                bit_weight(s.last(), m) == if s.last() { pow2(m) } else { 0 },
                hi == if s.last() { 1nat } else { 0nat },
        ;
        if i > m {
            if s.len() < i {
                lemma_pow2_strictly_increases(s.len(), i);
            }
            lemma_basic_div(v as int, pow2(i) as int);
        } else if i == m {
            lemma_split_at(lo, hi, m);
        } else {
            lemma_bit_of_bits_value(init, i);
            // 2^m == 2^i * 2^(m - i), and 2^(m - i) is even
            let d: nat = (m - i) as nat;
            lemma_pow2_adds(i, d);
            lemma_pow2_unfold(d);
            lemma_pow2_pos((d - 1) as nat);
            let half: nat = pow2((d - 1) as nat);
            assert(hi * pow2(m) == pow2(i) * (2 * (hi * half))) by (nonlinear_arith)
                requires
                    pow2(m) == pow2(i) * pow2(d),
                    pow2(d) == 2 * half,
            ;
            lemma_div_multiples_vanish_fancy((2 * (hi * half)) as int, (lo % pow2(i)) as int, pow2(i) as int);
            lemma_fundamental_div_mod(lo as int, pow2(i) as int);
            let ql: int = lo as int / pow2(i) as int;
            let rl: int = lo as int % pow2(i) as int;
            let k: int = 2 * (hi * half) as int;
            assert(v == pow2(i) * (ql + k) + rl) by (nonlinear_arith)
                requires
                    v == lo + hi * pow2(m),
                    hi * pow2(m) == pow2(i) * k,
                    lo == pow2(i) * ql + rl,
            ;
            assert(0 <= rl < pow2(i)) by {
                vstd::arithmetic::div_mod::lemma_mod_pos_bound(lo as int, pow2(i) as int);
            }
            assert(v == (ql + k) * pow2(i) + rl) by (nonlinear_arith)
                requires
                    v == pow2(i) * (ql + k) + rl,
            ;
            lemma_fundamental_div_mod_converse(v as int, pow2(i) as int, ql + k, rl);
            assert(v as int / pow2(i) as int == ql + k);
            assert((ql + k) % 2 == ql % 2);
        }
    }
}

/// A sequence is the low bits of the number it stands for.
pub proof fn lemma_bits_of_bits_value(s: Seq<bool>)
    ensures
        bits_of(bits_value(s), s.len()) == s,
{
    assert forall|i: int| 0 <= i < s.len() implies bits_of(bits_value(s), s.len())[i] == s[i] by {
        lemma_bit_of_bits_value(s, i as nat);
    }
    assert(bits_of(bits_value(s), s.len()) =~= s);
}

/// Two sequences of one length that stand for the same number are equal.
pub proof fn lemma_bits_value_injective(a: Seq<bool>, b: Seq<bool>)
    requires
        a.len() == b.len(),
        bits_value(a) == bits_value(b),
    ensures
        a == b,
{
    lemma_bits_of_bits_value(a);
    lemma_bits_of_bits_value(b);
}

/// A number below `2^n` is what its `n` low bits stand for.
pub proof fn lemma_bits_of_small(v: nat, n: nat)
    requires
        v < pow2(n),
    ensures
        bits_value(bits_of(v, n)) == v,
{
    lemma_bits_of_value(v, n);
    lemma_small_mod(v, pow2(n));
}

/// Bit `i` of a number below `2^n` is zero for every `i >= n`.
pub proof fn lemma_bit_of_small(v: nat, n: nat, i: nat)
    requires
        v < pow2(n),
        i >= n,
    ensures
        !bit_of(v, i),
{
    lemma_bits_of_small(v, n);
    lemma_bit_of_bits_value(bits_of(v, n), i);
}

/// Bit `i` of `v mod 2^n` is bit `i` of `v` below `n`, and zero from `n` on.
pub proof fn lemma_bit_of_mod(v: nat, n: nat, i: nat)
    ensures
        bit_of(v % pow2(n), i) == (i < n && bit_of(v, i)),
{
    lemma_bits_of_value(v, n);
    lemma_bit_of_bits_value(bits_of(v, n), i);
}

/// A sequence of one bits of length `n` stands for `2^n - 1`.
pub proof fn lemma_bits_value_ones(s: Seq<bool>)
    requires
        forall|j: int| 0 <= j < s.len() ==> s[j],
    ensures
        bits_value(s) == pow2(s.len()) - 1,
    decreases s.len(),
{
    if s.len() == 0 {
        vstd::arithmetic::power2::lemma2_to64();
    } else {
        lemma_bits_value_ones(s.drop_last());
        lemma_pow2_unfold(s.len());
    }
}

/// A sequence and its bitwise complement add up to `2^n - 1`.
pub proof fn lemma_bits_value_not(a: Seq<bool>, b: Seq<bool>)
    requires
        a.len() == b.len(),
        forall|j: int| 0 <= j < a.len() ==> b[j] == !a[j],
    ensures
        bits_value(a) + bits_value(b) == pow2(a.len()) - 1,
    decreases a.len(),
{
    if a.len() == 0 {
        vstd::arithmetic::power2::lemma2_to64();
    } else {
        lemma_bits_value_not(a.drop_last(), b.drop_last());
        lemma_pow2_unfold(a.len());
    }
}

/// Two sequences that agree from position `k` on differ in value by what
/// their first `k` bits differ.
pub proof fn lemma_bits_value_high_eq(a: Seq<bool>, b: Seq<bool>, k: int)
    requires
        a.len() == b.len(),
        0 <= k <= a.len(),
        forall|j: int| k <= j < a.len() ==> a[j] == b[j],
    ensures
        bits_value(a) - bits_value(a.take(k)) == bits_value(b) - bits_value(b.take(k)),
    decreases a.len() - k,
{
    if k == a.len() {
        assert(a.take(k) =~= a);
        assert(b.take(k) =~= b);
    } else {
        lemma_bits_value_step(a, k);
        lemma_bits_value_step(b, k);
        lemma_bits_value_high_eq(a, b, k + 1);
    }
}

/// Bit `i` of `v / 2^k` is bit `i + k` of `v`.
pub proof fn lemma_bit_of_shr(v: nat, k: nat, i: nat)
    ensures
        bit_of(v / pow2(k), i) == bit_of(v, i + k),
{
    lemma_pow2_pos(k);
    lemma_pow2_pos(i);
    lemma_pow2_adds(k, i);
    lemma_div_denominator(v as int, pow2(k) as int, pow2(i) as int);
}

/// Bit `i` of `v * 2^k` is bit `i - k` of `v`, and zero below `k`.
pub proof fn lemma_bit_of_shl(v: nat, k: nat, i: nat)
    ensures
        bit_of(v * pow2(k), i) == (i >= k && bit_of(v, (i - k) as nat)),
{
    lemma_pow2_pos(k);
    lemma_pow2_pos(i);
    if i >= k {
        let d: nat = (i - k) as nat;
        lemma_pow2_pos(d);
        lemma_pow2_adds(k, d);
        lemma_div_denominator((v * pow2(k)) as int, pow2(k) as int, pow2(d) as int);
        vstd::arithmetic::div_mod::lemma_div_multiples_vanish(v as int, pow2(k) as int);
        assert((v * pow2(k)) as int / pow2(k) as int == v) by {
            lemma_mul_is_commutative(v as int, pow2(k) as int);
        }
    } else {
        let d: nat = (k - i) as nat;
        lemma_pow2_adds(i, d);
        lemma_pow2_unfold(d);
        let half: nat = pow2((d - 1) as nat);
        assert(v * pow2(k) == pow2(i) * (v * half * 2)) by (nonlinear_arith)
            requires
                pow2(k) == pow2(i) * pow2(d),
                pow2(d) == 2 * half,
        ;
        vstd::arithmetic::div_mod::lemma_div_multiples_vanish((v * half * 2) as int, pow2(i) as int);
    }
}

/// Where one sequence is zero below position `k` and another is zero from
/// `k` on, their bitwise or stands for the sum of the two numbers.
pub proof fn lemma_bits_value_or_disjoint(a: Seq<bool>, b: Seq<bool>, c: Seq<bool>, k: int)
    requires
        a.len() == b.len(),
        a.len() == c.len(),
        forall|i: int| 0 <= i < c.len() ==> c[i] == (a[i] || b[i]),
        forall|i: int| 0 <= i < a.len() && i < k ==> !a[i],
        forall|i: int| 0 <= i < b.len() && i >= k ==> !b[i],
    ensures
        bits_value(c) == bits_value(a) + bits_value(b),
    decreases c.len(),
{
    if c.len() > 0 {
        lemma_bits_value_or_disjoint(a.drop_last(), b.drop_last(), c.drop_last(), k);
    }
}

/// Every bit below position `k` of a multiple of `2^k` is zero.
pub proof fn lemma_bit_of_multiple(v: nat, k: nat, i: nat)
    requires
        v % pow2(k) == 0,
        i < k,
    ensures
        !bit_of(v, i),
{
    lemma_pow2_pos(k);
    lemma_fundamental_div_mod(v as int, pow2(k) as int);
    let q: nat = v / pow2(k);
    assert(v == q * pow2(k)) by (nonlinear_arith)
        requires
            v == pow2(k) * q + 0,
    ;
    lemma_bit_of_shl(q, k, i);
}

} // verus!
