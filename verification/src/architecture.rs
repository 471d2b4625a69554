//! The widths and sizes that fix the machine's architecture.

use vstd::prelude::*;
use vstd::arithmetic::power2::{pow2, lemma2_to64};

verus! {

/// Width of the working registers, the accumulator and the working-memory cells.
pub const WORKING_BITS: usize = 4;

/// Width of the program counter: a page holds `2^PC_BITS` instructions.
pub const PC_BITS: usize = 6;

/// Width of the page address: program memory holds `2^PA_BITS` pages.
pub const PA_BITS: usize = 4;

/// Width of an instruction word.
pub const INSTRUCTION_BITS: usize = 8;

/// Width of a port.
pub const PORT_BITS: usize = 4;

/// Width of a full program address, page address and program counter together.
pub const PROGRAM_ADDRESS_BITS: usize = 10;

/// Width of a working-memory address, two working registers together.
pub const WORKING_ADDRESS_BITS: usize = 8;

pub const NUM_REGISTERS: usize = 4;

pub const NUM_PORTS: usize = 4;

pub const NUM_PINS: usize = 4;

/// Width of a register index.
pub const REGISTER_INDEX_BITS: usize = 2;

/// Width of a port index.
pub const PORT_INDEX_BITS: usize = 2;

/// Width of a pin index.
pub const PIN_INDEX_BITS: usize = 2;

/// Number of instruction words in program memory.
pub const PROGRAM_MEMORY_SIZE: usize = 1024;

/// Number of cells in working memory.
pub const WORKING_MEMORY_SIZE: usize = 256;

/// The derived constants are what the base widths make them.
pub proof fn lemma_architecture()
    ensures
        PROGRAM_ADDRESS_BITS == PA_BITS + PC_BITS,
        WORKING_ADDRESS_BITS == 2 * WORKING_BITS,
        NUM_REGISTERS == pow2(REGISTER_INDEX_BITS as nat),
        NUM_PORTS == pow2(PORT_INDEX_BITS as nat),
        NUM_PINS == pow2(PIN_INDEX_BITS as nat),
        PROGRAM_MEMORY_SIZE == pow2(PROGRAM_ADDRESS_BITS as nat),
        WORKING_MEMORY_SIZE == pow2(WORKING_ADDRESS_BITS as nat),
        pow2(WORKING_BITS as nat) == 16,
        pow2(PC_BITS as nat) == 64,
        pow2(PA_BITS as nat) == 16,
        pow2(INSTRUCTION_BITS as nat) == 256,
        pow2(1) == 2,
{
    lemma2_to64();
}

} // verus!
