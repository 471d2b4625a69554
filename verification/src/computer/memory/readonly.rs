//! A bank of memory that is filled once and only read afterwards.

use vstd::prelude::*;
use vstd::arithmetic::power2::pow2;
use crate::computer::memory::size_matches;
use crate::un::{lemma_pow2_128, U};

verus! {

/// A read-only bank of `MEMORY_SIZE` cells of `STORED_BITS` bits, addressed
/// by `ADDRESS_BITS` bits. Its view is the sequence of its cells.
pub struct ReadOnlyMemory<
    const STORED_BITS: usize,
    const ADDRESS_BITS: usize,
    const MEMORY_SIZE: usize,
> {
    memory: [U<STORED_BITS>; MEMORY_SIZE],
}

impl<const STORED_BITS: usize, const ADDRESS_BITS: usize, const MEMORY_SIZE: usize> View for ReadOnlyMemory<
    STORED_BITS,
    ADDRESS_BITS,
    MEMORY_SIZE,
> {
    type V = Seq<U<STORED_BITS>>;

    closed spec fn view(&self) -> Seq<U<STORED_BITS>> {
        self.memory@
    }
}

impl<
    const STORED_BITS: usize,
    const ADDRESS_BITS: usize,
    const MEMORY_SIZE: usize,
> ReadOnlyMemory<STORED_BITS, ADDRESS_BITS, MEMORY_SIZE> {
    #[verifier::type_invariant]
    spec fn well_formed(self) -> bool {
        MEMORY_SIZE == pow2(ADDRESS_BITS as nat)
    }

    /// The bank has `MEMORY_SIZE` cells.
    pub proof fn lemma_len(self)
        ensures
            self@.len() == MEMORY_SIZE,
    {
    }

    /// A bank that holds `values`. It is refused unless the addresses of
    /// `ADDRESS_BITS` bits are exactly the indices of the `MEMORY_SIZE` cells.
    pub fn with_values(values: [U<STORED_BITS>; MEMORY_SIZE]) -> (r: Option<Self>)
        ensures
            r.is_some() <==> MEMORY_SIZE == pow2(ADDRESS_BITS as nat),
            r.is_some() ==> r.unwrap()@ == values@,
    {
        if size_matches(ADDRESS_BITS, MEMORY_SIZE) {
            Some(ReadOnlyMemory { memory: values })
        } else {
            None
        }
    }

    /// The cell at `location`.
    pub fn read(&self, location: U<ADDRESS_BITS>) -> (r: U<STORED_BITS>)
        ensures
            self@.len() == MEMORY_SIZE,
            location@ < MEMORY_SIZE,
            r == self@[location@ as int],
    {
        proof {
            use_type_invariant(self);
            location.lemma_range();
            lemma_pow2_128();
        }
        let index: u128 = location.into();
        self.memory[index as usize]
    }
}

} // verus!
