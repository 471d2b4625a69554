//! The instruction set: the variants, and their encoding to and decoding from
//! an 8-bit instruction word.
//!
//! | Mnemonic | Pattern    | Operands                      |
//! |----------|------------|-------------------------------|
//! | NOP      | `00000000` |                               |
//! | SSJ      | `00000001` |                               |
//! | RSF      | `00000010` |                               |
//! | SSF      | `00000011` |                               |
//! | RSJ      | `00000111` |                               |
//! | RET      | `00001000` |                               |
//! | LPB      | `0001xxxx` | immediate                     |
//! | STR      | `001000rr` | register                      |
//! | LOD      | `001001rr` | register                      |
//! | INC      | `001010rr` | register                      |
//! | DEC      | `001011rr` | register                      |
//! | MOV      | `0100rrkk` | register from, register to    |
//! | ADD      | `010100rr` | register                      |
//! | SUB      | `010101rr` | register                      |
//! | BOR      | `010110rr` | register                      |
//! | AND      | `010111rr` | register                      |
//! | GRT      | `011000rr` | register                      |
//! | LES      | `011001rr` | register                      |
//! | CMP      | `011010rr` | register                      |
//! | INP      | `011100pp` | port                          |
//! | OUT      | `011101pp` | port                          |
//! | RSP      | `011110qq` | pin                           |
//! | SEP      | `011111qq` | pin                           |
//! | BRN      | `10xxxxxx` | immediate                     |
//! | LDI      | `11rrxxxx` | register, immediate           |
//!
//! A pattern is read from the most significant bit. A run of one letter is a
//! field, whose most significant bit is the leftmost letter. Any word that
//! matches no pattern is a `NOP`.

use vstd::prelude::*;
use vstd::arithmetic::power2::lemma2_to64;
use crate::architecture::{
    INSTRUCTION_BITS, PA_BITS, PC_BITS, PIN_INDEX_BITS, PORT_INDEX_BITS, REGISTER_INDEX_BITS,
    WORKING_BITS,
};
use crate::un::U;

verus! {

#[allow(inconsistent_fields)]
#[derive(Debug, PartialEq, Eq, Clone, Copy)]
pub enum Instruction {
    NOP,
    STR { register_id: U<REGISTER_INDEX_BITS> },
    LOD { register_id: U<REGISTER_INDEX_BITS> },
    LDI { register_id: U<REGISTER_INDEX_BITS>, immediate: U<WORKING_BITS> },
    INC { register_id: U<REGISTER_INDEX_BITS> },
    DEC { register_id: U<REGISTER_INDEX_BITS> },
    MOV { register_from_id: U<REGISTER_INDEX_BITS>, register_to_id: U<REGISTER_INDEX_BITS> },
    INP { port_id: U<PORT_INDEX_BITS> },
    OUT { port_id: U<PORT_INDEX_BITS> },
    SEP { pin_id: U<PIN_INDEX_BITS> },
    RSP { pin_id: U<PIN_INDEX_BITS> },
    ADD { register_id: U<REGISTER_INDEX_BITS> },
    SUB { register_id: U<REGISTER_INDEX_BITS> },
    BOR { register_id: U<REGISTER_INDEX_BITS> },
    AND { register_id: U<REGISTER_INDEX_BITS> },
    CMP { register_id: U<REGISTER_INDEX_BITS> },
    GRT { register_id: U<REGISTER_INDEX_BITS> },
    LES { register_id: U<REGISTER_INDEX_BITS> },
    BRN { immediate: U<PC_BITS> },
    LPB { immediate: U<PA_BITS> },
    SSF,
    RSF,
    SSJ,
    RSJ,
    RET,
}

/// The instruction word of an instruction: the literal bits of its pattern,
/// with each operand in the place of its field.
pub open spec fn encode_spec(inst: Instruction) -> nat {
    match inst {
        Instruction::NOP => 0b0000_0000,
        Instruction::SSJ => 0b0000_0001,
        Instruction::RSF => 0b0000_0010,
        Instruction::SSF => 0b0000_0011,
        Instruction::RSJ => 0b0000_0111,
        Instruction::RET => 0b0000_1000,
        Instruction::LPB { immediate } => 0b0001_0000 + immediate@,
        Instruction::STR { register_id } => 0b0010_0000 + register_id@,
        Instruction::LOD { register_id } => 0b0010_0100 + register_id@,
        Instruction::INC { register_id } => 0b0010_1000 + register_id@,
        Instruction::DEC { register_id } => 0b0010_1100 + register_id@,
        Instruction::MOV { register_from_id, register_to_id } => 0b0100_0000 + 4
            * register_from_id@ + register_to_id@,
        Instruction::ADD { register_id } => 0b0101_0000 + register_id@,
        Instruction::SUB { register_id } => 0b0101_0100 + register_id@,
        Instruction::BOR { register_id } => 0b0101_1000 + register_id@,
        Instruction::AND { register_id } => 0b0101_1100 + register_id@,
        Instruction::GRT { register_id } => 0b0110_0000 + register_id@,
        Instruction::LES { register_id } => 0b0110_0100 + register_id@,
        Instruction::CMP { register_id } => 0b0110_1000 + register_id@,
        Instruction::INP { port_id } => 0b0111_0000 + port_id@,
        Instruction::OUT { port_id } => 0b0111_0100 + port_id@,
        Instruction::RSP { pin_id } => 0b0111_1000 + pin_id@,
        Instruction::SEP { pin_id } => 0b0111_1100 + pin_id@,
        Instruction::BRN { immediate } => 0b1000_0000 + immediate@,
        Instruction::LDI { register_id, immediate } => 0b1100_0000 + 16 * register_id@
            + immediate@,
    }
}

/// Whether the word `w` matches the pattern of some instruction other than `NOP`.
pub open spec fn matches_pattern(w: nat) -> bool {
    ||| w == 0b0000_0001
    ||| w == 0b0000_0010
    ||| w == 0b0000_0011
    ||| w == 0b0000_0111
    ||| w == 0b0000_1000
    ||| w / 16 == 0b0001
    ||| w / 16 == 0b0010
    ||| w / 16 == 0b0100
    ||| w / 16 == 0b0101
    ||| w / 4 == 0b011000
    ||| w / 4 == 0b011001
    ||| w / 4 == 0b011010
    ||| w / 16 == 0b0111
    ||| w / 64 == 0b10
    ||| w / 64 == 0b11
}

/// The instruction that the word `w` stands for. The patterns are tried in
/// the order of the table, the first that matches decides, and a word that
/// matches none is a `NOP`.
pub open spec fn decode_spec(w: nat) -> Instruction {
    if w == 0b0000_0000 {
        Instruction::NOP
    } else if w == 0b0000_0001 {
        Instruction::SSJ
    } else if w == 0b0000_0010 {
        Instruction::RSF
    } else if w == 0b0000_0011 {
        Instruction::SSF
    } else if w == 0b0000_0111 {
        Instruction::RSJ
    } else if w == 0b0000_1000 {
        Instruction::RET
    } else if w / 16 == 0b0001 {
        Instruction::LPB { immediate: U::of_nat(w % 16) }
    } else if w / 4 == 0b001000 {
        Instruction::STR { register_id: U::of_nat(w % 4) }
    } else if w / 4 == 0b001001 {
        Instruction::LOD { register_id: U::of_nat(w % 4) }
    } else if w / 4 == 0b001010 {
        Instruction::INC { register_id: U::of_nat(w % 4) }
    } else if w / 4 == 0b001011 {
        Instruction::DEC { register_id: U::of_nat(w % 4) }
    } else if w / 16 == 0b0100 {
        Instruction::MOV {
            register_from_id: U::of_nat((w / 4) % 4),
            register_to_id: U::of_nat(w % 4),
        }
    } else if w / 4 == 0b010100 {
        Instruction::ADD { register_id: U::of_nat(w % 4) }
    } else if w / 4 == 0b010101 {
        Instruction::SUB { register_id: U::of_nat(w % 4) }
    } else if w / 4 == 0b010110 {
        Instruction::BOR { register_id: U::of_nat(w % 4) }
    } else if w / 4 == 0b010111 {
        Instruction::AND { register_id: U::of_nat(w % 4) }
    } else if w / 4 == 0b011000 {
        Instruction::GRT { register_id: U::of_nat(w % 4) }
    } else if w / 4 == 0b011001 {
        Instruction::LES { register_id: U::of_nat(w % 4) }
    } else if w / 4 == 0b011010 {
        Instruction::CMP { register_id: U::of_nat(w % 4) }
    } else if w / 4 == 0b011100 {
        Instruction::INP { port_id: U::of_nat(w % 4) }
    } else if w / 4 == 0b011101 {
        Instruction::OUT { port_id: U::of_nat(w % 4) }
    } else if w / 4 == 0b011110 {
        Instruction::RSP { pin_id: U::of_nat(w % 4) }
    } else if w / 4 == 0b011111 {
        Instruction::SEP { pin_id: U::of_nat(w % 4) }
    } else if w / 64 == 0b10 {
        Instruction::BRN { immediate: U::of_nat(w % 64) }
    } else if w / 64 == 0b11 {
        Instruction::LDI { register_id: U::of_nat((w / 16) % 4), immediate: U::of_nat(w % 16) }
    } else {
        Instruction::NOP
    }
}

/// Shifting and masking a byte read its fields.
proof fn lemma_byte_fields(a: u8)
    ensures
        a >> 2 == a / 4,
        a >> 4 == a / 16,
        a >> 6 == a / 64,
        a & 0b11 == a % 4,
        a & 0b1111 == a % 16,
        a & 0b11_1111 == a % 64,
        (a >> 2) & 0b11 == (a / 4) % 4,
        (a >> 4) & 0b11 == (a / 16) % 4,
{
    assert(a >> 2 == a / 4) by (bit_vector);
    assert(a >> 4 == a / 16) by (bit_vector);
    assert(a >> 6 == a / 64) by (bit_vector);
    assert(a & 0b11 == a % 4) by (bit_vector);
    assert(a & 0b1111 == a % 16) by (bit_vector);
    assert(a & 0b11_1111 == a % 64) by (bit_vector);
    assert((a >> 2) & 0b11 == (a / 4) % 4) by (bit_vector);
    assert((a >> 4) & 0b11 == (a / 16) % 4) by (bit_vector);
}

/// An operand field read from an instruction word.
fn operand<const M: usize>(field: u8) -> (r: U<M>)
    ensures
        r == U::<M>::of_nat(field as nat),
{
    field.into()
}

/// Decodes an instruction word.
pub fn decode_instruction(binary: U<INSTRUCTION_BITS>) -> (inst: Instruction)
    ensures
        inst == decode_spec(binary@),
{
    let a: u8 = binary.into();
    proof {
        binary.lemma_range();
        lemma2_to64();
    }
    decode_byte(a)
}

/// Decodes an instruction word given as a byte.
pub fn decode_byte(a: u8) -> (inst: Instruction)
    ensures
        inst == decode_spec(a as nat),
{
    proof {
        lemma_byte_fields(a);
    }
    let r: u8 = a & 0b11;
    if a == 0b0000_0000 {
        Instruction::NOP
    } else if a == 0b0000_0001 {
        Instruction::SSJ
    } else if a == 0b0000_0010 {
        Instruction::RSF
    } else if a == 0b0000_0011 {
        Instruction::SSF
    } else if a == 0b0000_0111 {
        Instruction::RSJ
    } else if a == 0b0000_1000 {
        Instruction::RET
    } else if a >> 4 == 0b0001 {
        Instruction::LPB { immediate: operand(a & 0b1111) }
    } else if a >> 2 == 0b001000 {
        Instruction::STR { register_id: operand(r) }
    } else if a >> 2 == 0b001001 {
        Instruction::LOD { register_id: operand(r) }
    } else if a >> 2 == 0b001010 {
        Instruction::INC { register_id: operand(r) }
    } else if a >> 2 == 0b001011 {
        Instruction::DEC { register_id: operand(r) }
    } else if a >> 4 == 0b0100 {
        Instruction::MOV { register_from_id: operand((a >> 2) & 0b11), register_to_id: operand(r) }
    } else if a >> 2 == 0b010100 {
        Instruction::ADD { register_id: operand(r) }
    } else if a >> 2 == 0b010101 {
        Instruction::SUB { register_id: operand(r) }
    } else if a >> 2 == 0b010110 {
        Instruction::BOR { register_id: operand(r) }
    } else if a >> 2 == 0b010111 {
        Instruction::AND { register_id: operand(r) }
    } else if a >> 2 == 0b011000 {
        Instruction::GRT { register_id: operand(r) }
    } else if a >> 2 == 0b011001 {
        Instruction::LES { register_id: operand(r) }
    } else if a >> 2 == 0b011010 {
        Instruction::CMP { register_id: operand(r) }
    } else if a >> 2 == 0b011100 {
        Instruction::INP { port_id: operand(r) }
    } else if a >> 2 == 0b011101 {
        Instruction::OUT { port_id: operand(r) }
    } else if a >> 2 == 0b011110 {
        Instruction::RSP { pin_id: operand(r) }
    } else if a >> 2 == 0b011111 {
        Instruction::SEP { pin_id: operand(r) }
    } else if a >> 6 == 0b10 {
        Instruction::BRN { immediate: operand(a & 0b11_1111) }
    } else if a >> 6 == 0b11 {
        Instruction::LDI { register_id: operand((a >> 4) & 0b11), immediate: operand(a & 0b1111) }
    } else {
        Instruction::NOP
    }
}

/// Packing fields into a byte with shifts and ors adds them up.
proof fn lemma_pack_fields(hi: u8, lo: u8)
    requires
        hi < 4,
    ensures
        lo < 4 ==> 0b0100_0000u8 | (hi << 2) | lo == 0b0100_0000 + 4 * hi + lo,
        lo < 16 ==> 0b1100_0000u8 | (hi << 4) | lo == 0b1100_0000 + 16 * hi + lo,
{
    assert(lo < 4 ==> 0b0100_0000u8 | (hi << 2) | lo == 0b0100_0000 + 4 * hi + lo) by (bit_vector)
        requires
            hi < 4,
    ;
    assert(lo < 16 ==> 0b1100_0000u8 | (hi << 4) | lo == 0b1100_0000 + 16 * hi + lo)
        by (bit_vector)
        requires
            hi < 4,
    ;
}

/// A pattern's literal bits with one operand in its low bits.
fn pack(literal: u8, width: u8, field: u8) -> (r: u8)
    requires
        width == 2 || width == 4 || width == 6,
        width == 2 ==> literal % 4 == 0 && field < 4,
        width == 4 ==> literal % 16 == 0 && field < 16,
        width == 6 ==> literal % 64 == 0 && field < 64,
    ensures
        r == literal + field,
{
    proof {
        assert(literal % 4 == 0 && field < 4 ==> literal | field == literal + field)
            by (bit_vector);
        assert(literal % 16 == 0 && field < 16 ==> literal | field == literal + field)
            by (bit_vector);
        assert(literal % 64 == 0 && field < 64 ==> literal | field == literal + field)
            by (bit_vector);
    }
    literal | field
}

/// An operand as a byte.
fn operand_byte<const M: usize>(field: U<M>) -> (r: u8)
    requires
        M <= 8,
    ensures
        r == field@,
{
    proof {
        field.lemma_range();
        crate::un::lemma_pow2_monotonic(M as nat, 8);
        vstd::arithmetic::div_mod::lemma_small_mod(field@, vstd::arithmetic::power2::pow2(8));
        lemma2_to64();
    }
    field.into()
}

/// Encodes an instruction into its instruction word.
pub fn encode_instruction(inst: Instruction) -> (word: U<INSTRUCTION_BITS>)
    ensures
        word@ == encode_spec(inst),
{
    let byte: u8 = match inst {
        Instruction::NOP => 0b0000_0000,
        Instruction::SSJ => 0b0000_0001,
        Instruction::RSF => 0b0000_0010,
        Instruction::SSF => 0b0000_0011,
        Instruction::RSJ => 0b0000_0111,
        Instruction::RET => 0b0000_1000,
        Instruction::LPB { immediate } => encode_with_nibble(0b0001_0000, immediate),
        Instruction::STR { register_id } => encode_with_register(0b0010_0000, register_id),
        Instruction::LOD { register_id } => encode_with_register(0b0010_0100, register_id),
        Instruction::INC { register_id } => encode_with_register(0b0010_1000, register_id),
        Instruction::DEC { register_id } => encode_with_register(0b0010_1100, register_id),
        Instruction::MOV { register_from_id, register_to_id } => encode_move(
            register_from_id,
            register_to_id,
        ),
        Instruction::ADD { register_id } => encode_with_register(0b0101_0000, register_id),
        Instruction::SUB { register_id } => encode_with_register(0b0101_0100, register_id),
        Instruction::BOR { register_id } => encode_with_register(0b0101_1000, register_id),
        Instruction::AND { register_id } => encode_with_register(0b0101_1100, register_id),
        Instruction::GRT { register_id } => encode_with_register(0b0110_0000, register_id),
        Instruction::LES { register_id } => encode_with_register(0b0110_0100, register_id),
        Instruction::CMP { register_id } => encode_with_register(0b0110_1000, register_id),
        Instruction::INP { port_id } => encode_with_register(0b0111_0000, port_id),
        Instruction::OUT { port_id } => encode_with_register(0b0111_0100, port_id),
        Instruction::RSP { pin_id } => encode_with_register(0b0111_1000, pin_id),
        Instruction::SEP { pin_id } => encode_with_register(0b0111_1100, pin_id),
        Instruction::BRN { immediate } => encode_branch(immediate),
        Instruction::LDI { register_id, immediate } => encode_load_immediate(
            register_id,
            immediate,
        ),
    };
    word_of(byte)
}

/// A byte as an instruction word.
fn word_of(byte: u8) -> (word: U<INSTRUCTION_BITS>)
    ensures
        word@ == byte,
{
    proof {
        lemma2_to64();
    }
    byte.into()
}

/// The word of a pattern whose only operand is four bits wide.
fn encode_with_nibble(literal: u8, immediate: U<4>) -> (r: u8)
    requires
        literal % 16 == 0,
    ensures
        r == literal + immediate@,
{
    proof {
        immediate.lemma_range();
        lemma2_to64();
    }
    pack(literal, 4, operand_byte(immediate))
}

/// The word of `BRN`.
fn encode_branch(immediate: U<6>) -> (r: u8)
    ensures
        r == 0b1000_0000 + immediate@,
{
    proof {
        immediate.lemma_range();
        lemma2_to64();
    }
    pack(0b1000_0000, 6, operand_byte(immediate))
}

/// The word of `MOV`.
fn encode_move(from: U<2>, to: U<2>) -> (r: u8)
    ensures
        r == 0b0100_0000 + 4 * from@ + to@,
{
    proof {
        from.lemma_range();
        to.lemma_range();
        lemma2_to64();
    }
    let r: u8 = operand_byte(from);
    let k: u8 = operand_byte(to);
    proof {
        lemma_pack_fields(r, k);
    }
    0b0100_0000 | (r << 2) | k
}

/// The word of `LDI`.
fn encode_load_immediate(register_id: U<2>, immediate: U<4>) -> (r: u8)
    ensures
        r == 0b1100_0000 + 16 * register_id@ + immediate@,
{
    proof {
        register_id.lemma_range();
        immediate.lemma_range();
        lemma2_to64();
    }
    let r: u8 = operand_byte(register_id);
    let x: u8 = operand_byte(immediate);
    proof {
        lemma_pack_fields(r, x);
    }
    0b1100_0000 | (r << 4) | x
}

/// The word of a pattern whose only operand is a two-bit index in its low bits.
fn encode_with_register(literal: u8, index: U<2>) -> (r: u8)
    requires
        literal % 4 == 0,
    ensures
        r == literal + index@,
        index@ < 4,
{
    proof {
        index.lemma_range();
        lemma2_to64();
    }
    pack(literal, 2, operand_byte(index))
}

/// Decoding the word of an instruction gives the instruction back.
pub proof fn lemma_decode_encode(inst: Instruction)
    ensures
        encode_spec(inst) < 256,
        decode_spec(encode_spec(inst)) == inst,
{
    lemma2_to64();
    match inst {
        Instruction::LPB { immediate } => {
            immediate.lemma_range();
            immediate.lemma_of_nat_view();
        },
        Instruction::STR { register_id }
        | Instruction::LOD { register_id }
        | Instruction::INC { register_id }
        | Instruction::DEC { register_id }
        | Instruction::ADD { register_id }
        | Instruction::SUB { register_id }
        | Instruction::BOR { register_id }
        | Instruction::AND { register_id }
        | Instruction::GRT { register_id }
        | Instruction::LES { register_id }
        | Instruction::CMP { register_id } => {
            register_id.lemma_range();
            register_id.lemma_of_nat_view();
        },
        Instruction::MOV { register_from_id, register_to_id } => {
            register_from_id.lemma_range();
            register_from_id.lemma_of_nat_view();
            register_to_id.lemma_range();
            register_to_id.lemma_of_nat_view();
        },
        Instruction::INP { port_id } | Instruction::OUT { port_id } => {
            port_id.lemma_range();
            port_id.lemma_of_nat_view();
        },
        Instruction::RSP { pin_id } | Instruction::SEP { pin_id } => {
            pin_id.lemma_range();
            pin_id.lemma_of_nat_view();
        },
        Instruction::BRN { immediate } => {
            immediate.lemma_range();
            immediate.lemma_of_nat_view();
        },
        Instruction::LDI { register_id, immediate } => {
            register_id.lemma_range();
            register_id.lemma_of_nat_view();
            immediate.lemma_range();
            immediate.lemma_of_nat_view();
        },
        _ => {},
    }
}

/// A word that matches no pattern decodes to `NOP`.
pub proof fn lemma_unknown_is_nop(w: nat)
    requires
        w < 256,
        !matches_pattern(w),
    ensures
        decode_spec(w) == Instruction::NOP,
{
}

/// A word that matches a pattern decodes to an instruction other than `NOP`,
/// whose word it is.
pub proof fn lemma_known_is_not_nop(w: nat)
    requires
        w < 256,
        matches_pattern(w),
    ensures
        decode_spec(w) != Instruction::NOP,
        encode_spec(decode_spec(w)) == w,
{
    lemma2_to64();
    U::<2>::lemma_of_nat(w % 4);
    U::<2>::lemma_of_nat((w / 4) % 4);
    U::<2>::lemma_of_nat((w / 16) % 4);
    U::<4>::lemma_of_nat(w % 16);
    U::<6>::lemma_of_nat(w % 64);
}

} // verus!
