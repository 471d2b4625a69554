//! What a pattern of the instruction table means for an instruction word.
//!
//! The leftmost position of a pattern stands for the most significant bit of
//! the word. A `0` or a `1` asks for that bit; any other byte asks for
//! nothing. The operand of a field is read from the positions that hold the
//! field's letter, the leftmost of them being its most significant bit.

use vstd::prelude::*;
use vstd::arithmetic::power2::{pow2, lemma2_to64, lemma_pow2_unfold};
use crate::architecture::INSTRUCTION_BITS;
use crate::bit_array::get_bit;
use crate::bits::bit_of;
use crate::instruction_set::InstrDef;

verus! {

/// Whether a position of a pattern accepts a bit.
pub open spec fn position_accepts(c: u8, bit: bool) -> bool {
    (c == 0x30 ==> !bit) && (c == 0x31 ==> bit)
}

/// Whether the first `n` positions of a pattern accept the bits of `w` that
/// they stand for.
pub open spec fn accepts_prefix(pattern: Seq<u8>, w: nat, n: nat) -> bool
    decreases n,
{
    n == 0 || (accepts_prefix(pattern, w, (n - 1) as nat) && position_accepts(
        pattern[n - 1],
        bit_of(w, (pattern.len() - n) as nat),
    ))
}

/// Whether the word `w` matches a pattern: every literal bit of the pattern
/// is the bit of `w` at its position.
pub open spec fn matches_word(pattern: Seq<u8>, w: nat) -> bool {
    accepts_prefix(pattern, w, pattern.len())
}

/// The operand that the first `n` positions of a pattern hold for the field
/// with the letter `symbol`.
pub open spec fn operand_prefix(pattern: Seq<u8>, symbol: u8, w: nat, n: nat) -> nat
    decreases n,
{
    if n == 0 {
        0
    } else {
        let before = operand_prefix(pattern, symbol, w, (n - 1) as nat);
        if pattern[n - 1] == symbol {
            2 * before + if bit_of(w, (pattern.len() - n) as nat) {
                1nat
            } else {
                0nat
            }
        } else {
            before
        }
    }
}

/// The operand of the field with the letter `symbol` in the word `w`.
pub open spec fn operand_of(pattern: Seq<u8>, symbol: u8, w: nat) -> nat {
    operand_prefix(pattern, symbol, w, pattern.len())
}

/// An operand read from `n` positions is below `2^n`.
pub proof fn lemma_operand_bound(pattern: Seq<u8>, symbol: u8, w: nat, n: nat)
    ensures
        operand_prefix(pattern, symbol, w, n) < pow2(n),
    decreases n,
{
    if n == 0 {
        lemma2_to64();
    } else {
        lemma_operand_bound(pattern, symbol, w, (n - 1) as nat);
        lemma_pow2_unfold(n);
    }
}

/// The index of the first of the first `n` patterns that `w` matches, if
/// there is one.
pub open spec fn first_match(patterns: Seq<Seq<u8>>, w: nat, n: nat) -> Option<nat>
    decreases n,
{
    if n == 0 {
        None
    } else {
        match first_match(patterns, w, (n - 1) as nat) {
            Some(i) => Some(i),
            None => if matches_word(patterns[n - 1], w) {
                Some((n - 1) as nat)
            } else {
                None
            },
        }
    }
}

/// The patterns of a table, in order.
pub open spec fn patterns_of(defs: Seq<InstrDef>) -> Seq<Seq<u8>> {
    defs.map_values(|d: InstrDef| d.pattern@)
}

impl InstrDef {
    /// Whether `word` matches the pattern of this line.
    pub fn matches(&self, word: u8) -> (r: bool)
        requires
            self.pattern@.len() == INSTRUCTION_BITS,
        ensures
            r == matches_word(self.pattern@, word as nat),
    {
        let mut i: usize = 0;
        while i < INSTRUCTION_BITS
            invariant
                i <= INSTRUCTION_BITS,
                self.pattern@.len() == INSTRUCTION_BITS,
                accepts_prefix(self.pattern@, word as nat, i as nat),
            decreases INSTRUCTION_BITS - i,
        {
            let c = self.pattern[i];
            let bit = get_bit(word, (INSTRUCTION_BITS - 1 - i) as u8);
            if (c == 0x30 && bit) || (c == 0x31 && !bit) {
                proof {
                    lemma_rejected(self.pattern@, word as nat, (i + 1) as nat, INSTRUCTION_BITS as nat);
                }
                return false;
            }
            i += 1;
        }
        true
    }

    /// The operand of the field with the letter `symbol` in `word`.
    pub fn operand(&self, symbol: u8, word: u8) -> (r: u8)
        requires
            self.pattern@.len() == INSTRUCTION_BITS,
        ensures
            r == operand_of(self.pattern@, symbol, word as nat),
    {
        let mut acc: u8 = 0;
        let mut i: usize = 0;
        while i < INSTRUCTION_BITS
            invariant
                i <= INSTRUCTION_BITS,
                self.pattern@.len() == INSTRUCTION_BITS,
                acc == operand_prefix(self.pattern@, symbol, word as nat, i as nat),
            decreases INSTRUCTION_BITS - i,
        {
            if self.pattern[i] == symbol {
                let bit = get_bit(word, (INSTRUCTION_BITS - 1 - i) as u8);
                proof {
                    lemma_operand_bound(self.pattern@, symbol, word as nat, i as nat);
                    crate::un::lemma_pow2_monotonic(i as nat, 7);
                    lemma2_to64();
                }
                acc = 2 * acc + if bit {
                    1
                } else {
                    0
                };
            }
            i += 1;
        }
        acc
    }
}

/// A word that the first `n` positions of a pattern reject is rejected by
/// every longer prefix.
proof fn lemma_rejected(pattern: Seq<u8>, w: nat, n: nat, m: nat)
    requires
        n <= m,
        !accepts_prefix(pattern, w, n),
    ensures
        !accepts_prefix(pattern, w, m),
    decreases m - n,
{
    if n < m {
        lemma_rejected(pattern, w, n, (m - 1) as nat);
    }
}

/// The index of the first line of the table whose pattern `word` matches.
pub fn decode_with(defs: &[InstrDef], word: u8) -> (r: Option<usize>)
    requires
        forall|i: int| 0 <= i < defs@.len() ==> (#[trigger] defs@[i]).pattern@.len() == INSTRUCTION_BITS,
    ensures
        match first_match(patterns_of(defs@), word as nat, defs@.len()) {
            Some(i) => r == Some(i as usize),
            None => r.is_none(),
        },
        r.is_some() ==> r.unwrap() < defs@.len(),
{
    let mut i: usize = 0;
    while i < defs.len()
        invariant
            i <= defs@.len(),
            forall|k: int|
                0 <= k < defs@.len() ==> (#[trigger] defs@[k]).pattern@.len() == INSTRUCTION_BITS,
            first_match(patterns_of(defs@), word as nat, i as nat).is_none(),
        decreases defs@.len() - i,
    {
        if defs[i].matches(word) {
            proof {
                lemma_first_match_stays(patterns_of(defs@), word as nat, (i + 1) as nat, defs@.len());
            }
            return Some(i);
        }
        i += 1;
    }
    None
}

/// The first match among the first `n` patterns is the first match among
/// every longer list.
proof fn lemma_first_match_stays(patterns: Seq<Seq<u8>>, w: nat, n: nat, m: nat)
    requires
        n <= m,
        first_match(patterns, w, n).is_some(),
    ensures
        first_match(patterns, w, m) == first_match(patterns, w, n),
    decreases m - n,
{
    if n < m {
        lemma_first_match_stays(patterns, w, n, (m - 1) as nat);
    }
}

} // verus!
