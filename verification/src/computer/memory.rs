//! Memory banks, addressed by an unsigned integer as wide as the bank needs.

use vstd::prelude::*;
use vstd::arithmetic::power2::{pow2, lemma_pow2_pos, lemma_pow2_unfold, lemma_pow2_strictly_increases, lemma2_to64};

pub mod readonly;
pub mod readwrite;

verus! {

/// Whether a bank of `size` cells is addressed exactly by `bits` bits, that
/// is whether `size` is two to the power `bits`.
pub fn size_matches(bits: usize, size: usize) -> (r: bool)
    ensures
        r == (size == pow2(bits as nat)),
{
    proof {
        lemma2_to64();
        lemma_pow2_pos(bits as nat);
    }
    if size == 0 {
        return false;
    }
    let mut acc: usize = 1;
    let mut i: usize = 0;
    while i < bits
        invariant
            i <= bits,
            acc == pow2(i as nat),
            acc <= size,
        decreases bits - i,
    {
        if acc > size - acc {
            proof {
                lemma_pow2_unfold((i + 1) as nat);
                if i + 1 < bits {
                    lemma_pow2_strictly_increases((i + 1) as nat, bits as nat);
                }
            }
            return false;
        }
        proof {
            lemma_pow2_unfold((i + 1) as nat);
        }
        acc = acc + acc;
        i += 1;
    }
    acc == size
}

} // verus!
