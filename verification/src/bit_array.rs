//! Arrays of bits with a length fixed by the type.

use vstd::prelude::*;
use vstd::array::{spec_array_fill_for_copy_type, spec_array_update};
use vstd::arithmetic::power2::{pow2, lemma_pow2_pos};
use vstd::bits::lemma_u8_shr_is_div;
use crate::bits::bit_of;

verus! {

/// Bit `p` of a little-endian byte sequence: bit `p % 8` of byte `p / 8`, and
/// `false` beyond the last byte.
pub open spec fn byte_seq_bit(bytes: Seq<u8>, p: int) -> bool {
    0 <= p / 8 < bytes.len() && bit_of(bytes[p / 8] as nat, (p % 8) as nat)
}

/// In a byte, the bit at a position is what shifting and masking reads there.
pub proof fn lemma_byte_bit(value: u8, bit: u8)
    requires
        bit < 8,
    ensures
        bit_of(value as nat, bit as nat) == ((value >> bit) & 1 == 1),
{
    lemma_u8_shr_is_div(value, bit);
    let shifted: u8 = value >> bit;
    assert(shifted & 1 == shifted % 2) by (bit_vector);
}

/// Returns whether the 0-indexed bit `bit` is set in `value`.
pub fn get_bit(value: u8, bit: u8) -> (r: bool)
    requires
        bit < 8,
    ensures
        r == bit_of(value as nat, bit as nat),
{
    let mask: u8 = 1u8 << bit;
    let masked: u8 = value & mask;
    let shifted: u8 = masked >> bit;
    proof {
        lemma_byte_bit(value, bit);
        assert(((value & (1u8 << bit)) >> bit == 1) == ((value >> bit) & 1 == 1)) by (bit_vector)
            requires
                bit < 8,
        ;
    }
    shifted == 1
}

/// Sets the 0-indexed bit `bit` of `value` high or low and returns the new value.
pub fn set_bit(value: u8, bit: u8, high: bool) -> (r: u8)
    requires
        bit < 8,
    ensures
        forall|j: nat|
            j < 8 ==> #[trigger] bit_of(r as nat, j) == (if j == bit {
                high
            } else {
                bit_of(value as nat, j)
            }),
{
    let set: u8 = 1u8 << bit;
    let r: u8 = if high {
        value | set
    } else {
        value & !set
    };
    proof {
        assert forall|j: nat| j < 8 implies #[trigger] bit_of(r as nat, j) == (if j == bit {
            high
        } else {
            bit_of(value as nat, j)
        }) by {
            let k: u8 = j as u8;
            lemma_byte_bit(r, k);
            lemma_byte_bit(value, k);
            if high {
                assert((((value | (1u8 << bit)) >> k) & 1 == 1) == (k == bit || ((value >> k) & 1
                    == 1))) by (bit_vector)
                    requires
                        bit < 8,
                        k < 8,
                ;
            } else {
                assert((((value & !(1u8 << bit)) >> k) & 1 == 1) == (k != bit && ((value >> k) & 1
                    == 1))) by (bit_vector)
                    requires
                        bit < 8,
                        k < 8,
                ;
            }
        }
    }
    r
}

/// Truncates or extends an array that stores `FROM` bits into an array that
/// stores `TO` bits: the result holds the bits of `array` below position
/// `FROM` and below position `TO`, and zero bits everywhere else.
pub fn change_bits_true<const FROM: usize, const TO: usize, const A: usize, const B: usize>(
    array: [u8; A],
) -> (out: [u8; B])
    ensures
        forall|p: int|
            0 <= p < 8 * B ==> #[trigger] byte_seq_bit(out@, p) == (p < FROM && p < TO
                && byte_seq_bit(array@, p)),
{
    let mut out: [u8; B] = [0u8;B];
    let mut i: usize = 0;
    proof {
        assert forall|p: int| 0 <= p < 8 * B implies !#[trigger] byte_seq_bit(out@, p) by {
            lemma_zero_has_no_bits((p % 8) as nat);
        }
    }
    while i < FROM && i < TO && i / 8 < A && i / 8 < B
        invariant
            forall|p: int|
                0 <= p < 8 * B ==> #[trigger] byte_seq_bit(out@, p) == (p < i && p < FROM && p < TO
                    && byte_seq_bit(array@, p)),
        decreases FROM - i,
    {
        let byte_index: usize = i / 8;
        let bit_index: u8 = (i % 8) as u8;
        let ghost before = out@;
        out[byte_index] = set_bit(out[byte_index], bit_index, get_bit(array[byte_index], bit_index));
        proof {
            assert forall|p: int| 0 <= p < 8 * B implies #[trigger] byte_seq_bit(out@, p) == (p < i
                + 1 && p < FROM && p < TO && byte_seq_bit(array@, p)) by {
                if p / 8 == byte_index as int {
                    assert(bit_of(out@[p / 8] as nat, (p % 8) as nat) == (if (p % 8) as nat
                        == bit_index {
                        bit_of(array@[byte_index as int] as nat, bit_index as nat)
                    } else {
                        bit_of(before[p / 8] as nat, (p % 8) as nat)
                    }));
                    assert(byte_seq_bit(before, p) == (p < i && p < FROM && p < TO && byte_seq_bit(
                        array@,
                        p,
                    )));
                } else {
                    assert(byte_seq_bit(before, p) == (p < i && p < FROM && p < TO && byte_seq_bit(
                        array@,
                        p,
                    )));
                }
            }
        }
        i += 1;
    }
    out
}

/// No bit of the zero byte is set.
pub proof fn lemma_zero_has_no_bits(j: nat)
    ensures
        !bit_of(0, j),
{
    lemma_pow2_pos(j);
    assert(0int / (pow2(j) as int) == 0) by (nonlinear_arith)
        requires
            pow2(j) > 0,
    ;
}

/// An array of `N` bits, indexable per bit.
#[derive(Copy, Clone, Debug)]
pub struct BitArray<const N: usize> {
    bits: [bool; N],
}

impl<const N: usize> View for BitArray<N> {
    type V = Seq<bool>;

    closed spec fn view(&self) -> Seq<bool> {
        self.bits@
    }
}

/// The array whose first `k` entries are those of `s` and whose other entries are `false`.
spec fn array_prefix<const N: usize>(s: Seq<bool>, k: nat) -> [bool; N]
    decreases k,
{
    if k == 0 {
        spec_array_fill_for_copy_type::<bool, N>(false)
    } else {
        spec_array_update(array_prefix::<N>(s, (k - 1) as nat), k - 1, s[k - 1])
    }
}

proof fn lemma_array_prefix<const N: usize>(s: Seq<bool>, k: nat)
    requires
        k <= N,
        s.len() == N,
    ensures
        forall|i: int| 0 <= i < k ==> array_prefix::<N>(s, k)@[i] == s[i],
        forall|i: int| k <= i < N ==> !array_prefix::<N>(s, k)@[i],
    decreases k,
{
    broadcast use vstd::array::group_array_axioms;
    if k > 0 {
        lemma_array_prefix::<N>(s, (k - 1) as nat);
        let prev: [bool; N] = array_prefix::<N>(s, (k - 1) as nat);
        assert(array_prefix::<N>(s, k)@ == prev@.update(k - 1, s[k - 1]));
    } else {
        assert(array_prefix::<N>(s, k) == spec_array_fill_for_copy_type::<bool, N>(false));
    }
}

impl<const N: usize> BitArray<N> {
    /// The bit array that holds the bits of `s`.
    pub closed spec fn of_seq(s: Seq<bool>) -> BitArray<N> {
        BitArray { bits: array_prefix::<N>(s, N as nat) }
    }

    /// `of_seq` holds what it was given.
    pub proof fn lemma_of_seq(s: Seq<bool>)
        requires
            s.len() == N,
        ensures
            Self::of_seq(s)@ == s,
    {
        lemma_array_prefix::<N>(s, N as nat);
        assert(Self::of_seq(s)@ =~= s);
    }

    /// A bit array is determined by its bits.
    pub proof fn lemma_view_injective(a: Self, b: Self)
        requires
            a@ == b@,
        ensures
            a == b,
    {
        assert(a.bits =~= b.bits);
    }

    /// A bit array holds exactly `N` bits.
    pub proof fn lemma_len(self)
        ensures
            self@.len() == N,
    {
    }

    /// Returns a `BitArray` with all bits set to zero.
    pub fn zeroes() -> (r: Self)
        ensures
            r@ == Seq::new(N as nat, |i: int| false),
    {
        let r = BitArray { bits: [false;N] };
        assert(r@ =~= Seq::new(N as nat, |i: int| false));
        r
    }

    /// Returns a `BitArray` with all bits set to one.
    pub fn ones() -> (r: Self)
        ensures
            r@ == Seq::new(N as nat, |i: int| true),
    {
        let r = BitArray { bits: [true;N] };
        assert(r@ =~= Seq::new(N as nat, |i: int| true));
        r
    }

    /// Returns a `BitArray` with the bits of the given bytes, least significant
    /// bit of the first byte first. Bits from position `N` on are ignored, and
    /// bits that the bytes do not reach are zero.
    pub fn from_array<const K: usize>(value: [u8; K]) -> (r: Self)
        ensures
            r@ == Seq::new(N as nat, |i: int| byte_seq_bit(value@, i)),
    {
        let mut r = Self::zeroes();
        let mut i: usize = 0;
        while i < N
            invariant
                i <= N,
                r@.len() == N,
                forall|j: int| 0 <= j < i ==> r@[j] == byte_seq_bit(value@, j),
            decreases N - i,
        {
            let byte_index: usize = i / 8;
            let high: bool = if byte_index < K {
                get_bit(value[byte_index], (i % 8) as u8)
            } else {
                false
            };
            r.set(i, high);
            i += 1;
        }
        assert(r@ =~= Seq::new(N as nat, |i: int| byte_seq_bit(value@, i)));
        r
    }

    /// Returns the bits of this `BitArray` packed into `K` bytes, least
    /// significant bit of the first byte first. Every bit of the result from
    /// position `N` on is zero.
    pub fn to_array<const K: usize>(&self) -> (r: [u8; K])
        ensures
            forall|p: int|
                0 <= p < 8 * K ==> #[trigger] byte_seq_bit(r@, p) == (p < N && self@[p]),
    {
        let mut out: [u8; K] = [0u8;K];
        let mut i: usize = 0;
        proof {
            assert forall|p: int| 0 <= p < 8 * K implies !#[trigger] byte_seq_bit(out@, p) by {
                lemma_zero_has_no_bits((p % 8) as nat);
            }
        }
        while i < N && i / 8 < K
            invariant
                i <= N,
                self@.len() == N,
                forall|p: int|
                    0 <= p < 8 * K ==> #[trigger] byte_seq_bit(out@, p) == (p < i && self@[p]),
            decreases N - i,
        {
            let byte_index: usize = i / 8;
            let bit_index: u8 = (i % 8) as u8;
            let ghost before = out@;
            out[byte_index] = set_bit(out[byte_index], bit_index, self.get(i));
            proof {
                assert forall|p: int| 0 <= p < 8 * K implies #[trigger] byte_seq_bit(out@, p) == (p
                    < i + 1 && self@[p]) by {
                    if p / 8 == byte_index as int {
                        assert(bit_of(out@[p / 8] as nat, (p % 8) as nat) == (if (p % 8) as nat
                            == bit_index {
                            self@[i as int]
                        } else {
                            bit_of(before[p / 8] as nat, (p % 8) as nat)
                        }));
                        assert(byte_seq_bit(before, p) == (p < i && self@[p]));
                    } else {
                        assert(byte_seq_bit(before, p) == (p < i && self@[p]));
                    }
                }
            }
            i += 1;
        }
        out
    }

    /// Returns the length (in bits) of this array.
    pub fn len(&self) -> (n: usize)
        ensures
            n == N,
    {
        N
    }

    /// Gets the bit at `index`, which is 0-indexed and less than `N`.
    pub fn get(&self, index: usize) -> (b: bool)
        requires
            index < N,
        ensures
            b == self@[index as int],
    {
        self.bits[index]
    }

    /// Sets the bit at `index`, which is 0-indexed and less than `N`.
    pub fn set(&mut self, index: usize, high: bool)
        requires
            index < N,
        ensures
            final(self)@ == old(self)@.update(index as int, high),
    {
        self.bits[index] = high;
    }

    /// Returns a new bit array of `TO` bits: this one truncated, or extended
    /// with zero bits.
    pub fn change_bits<const TO: usize>(self) -> (r: BitArray<TO>)
        ensures
            r@ == Seq::new(TO as nat, |i: int| i < N && self@[i]),
    {
        let mut r = BitArray::<TO>::zeroes();
        let mut i: usize = 0;
        while i < TO && i < N
            invariant
                i <= TO,
                i <= N,
                r@.len() == TO,
                self@.len() == N,
                forall|j: int| 0 <= j < i ==> r@[j] == self@[j],
                forall|j: int| i <= j < TO ==> !r@[j],
            decreases TO - i,
        {
            r.set(i, self.get(i));
            i += 1;
        }
        assert(r@ =~= Seq::new(TO as nat, |i: int| i < N && self@[i]));
        r
    }

    /// Returns a cursor over the bits, which can be read from both ends.
    pub fn iter(&self) -> (it: Iter<'_, N>)
        ensures
            it.remaining() == self@,
    {
        let it = if N == 0 {
            Iter { forward_index: 0, backward_index: 0, backward_limit_reached: true, array: self }
        } else {
            Iter {
                forward_index: 0,
                backward_index: N - 1,
                backward_limit_reached: false,
                array: self,
            }
        };
        assert(it.remaining() =~= self@);
        it
    }

    /// Applies `f` to every bit.
    pub fn map<F: Fn(bool) -> bool>(self, f: F) -> (r: BitArray<N>)
        requires
            forall|b: bool| call_requires(f, (b,)),
        ensures
            r@.len() == N,
            forall|i: int| 0 <= i < N ==> call_ensures(f, (self@[i],), #[trigger] r@[i]),
    {
        let mut r = self;
        let mut i: usize = 0;
        while i < N
            invariant
                i <= N,
                r@.len() == N,
                self@.len() == N,
                forall|b: bool| call_requires(f, (b,)),
                forall|j: int| 0 <= j < i ==> call_ensures(f, (self@[j],), #[trigger] r@[j]),
                forall|j: int| i <= j < N ==> r@[j] == self@[j],
            decreases N - i,
        {
            let initial: bool = r.get(i);
            r.set(i, f(initial));
            i += 1;
        }
        r
    }
}

/// A cursor over the bits of a `BitArray`, from bit 0 upwards and from bit
/// `N - 1` downwards.
pub struct Iter<'a, const N: usize> {
    forward_index: usize,
    backward_index: usize,
    backward_limit_reached: bool,
    array: &'a BitArray<N>,
}

impl<'a, const N: usize> Iter<'a, N> {
    #[verifier::type_invariant]
    spec fn well_formed(self) -> bool {
        &&& self.forward_index <= N
        &&& !self.backward_limit_reached ==> self.backward_index < N
    }

    /// The bits that have not been handed out yet, lowest position first.
    pub closed spec fn remaining(self) -> Seq<bool> {
        if self.backward_limit_reached || self.forward_index > self.backward_index {
            Seq::empty()
        } else {
            self.array@.subrange(self.forward_index as int, self.backward_index + 1)
        }
    }

    /// Hands out the lowest remaining bit, or `None` when none remains.
    pub fn next(&mut self) -> (r: Option<bool>)
        ensures
            old(self).remaining().len() == 0 ==> r.is_none() && final(self).remaining()
                == old(self).remaining(),
            old(self).remaining().len() > 0 ==> r == Some(old(self).remaining().first())
                && final(self).remaining() == old(self).remaining().drop_first(),
    {
        proof {
            use_type_invariant(&*self);
        }
        if self.forward_index > self.backward_index || self.backward_limit_reached {
            return None;
        }
        let result = Some(self.array.get(self.forward_index));
        self.forward_index += 1;
        assert(self.remaining() =~= old(self).remaining().drop_first());
        result
    }

    /// Hands out the highest remaining bit, or `None` when none remains.
    pub fn next_back(&mut self) -> (r: Option<bool>)
        ensures
            old(self).remaining().len() == 0 ==> r.is_none() && final(self).remaining()
                == old(self).remaining(),
            old(self).remaining().len() > 0 ==> r == Some(old(self).remaining().last())
                && final(self).remaining() == old(self).remaining().drop_last(),
    {
        proof {
            use_type_invariant(&*self);
        }
        if self.backward_index < self.forward_index || self.backward_limit_reached {
            return None;
        }
        let result = Some(self.array.get(self.backward_index));
        if self.backward_index == 0 {
            self.backward_limit_reached = true;
        } else {
            self.backward_index -= 1;
        }
        assert(self.remaining() =~= old(self).remaining().drop_last());
        result
    }

    /// The number of bits that remain, as a lower and an upper bound.
    pub fn size_hint(&self) -> (r: (usize, Option<usize>))
        ensures
            r.0 == self.remaining().len(),
            r.1 == Some(r.0),
    {
        proof {
            use_type_invariant(self);
        }
        if self.backward_index < self.forward_index || self.backward_limit_reached {
            return (0, Some(0));
        }
        let size: usize = self.backward_index - self.forward_index + 1;
        (size, Some(size))
    }
}

impl<const N: usize> PartialEq for BitArray<N> {
    /// Two bit arrays are equal when they hold the same bits.
    fn eq(&self, other: &Self) -> (r: bool)
        ensures
            r == (self@ == other@),
    {
        let mut i: usize = 0;
        while i < N
            invariant
                i <= N,
                self@.len() == N,
                other@.len() == N,
                forall|j: int| 0 <= j < i ==> self@[j] == other@[j],
            decreases N - i,
        {
            if self.get(i) != other.get(i) {
                return false;
            }
            i += 1;
        }
        proof {
            assert(self@ =~= other@);
            Self::lemma_view_injective(*self, *other);
        }
        true
    }
}

impl<const N: usize> vstd::std_specs::cmp::PartialEqSpecImpl for BitArray<N> {
    open spec fn obeys_eq_spec() -> bool {
        true
    }

    open spec fn eq_spec(&self, other: &Self) -> bool {
        *self == *other
    }
}

impl<const N: usize> Eq for BitArray<N> {

}

} // verus!
