use mcu_emulator::instruction::{decode_byte, decode_instruction, encode_instruction, Instruction};
use mcu_emulator::un::U;

#[test]
fn instruction_no_operands() {
    assert_eq!(decode_instruction(0b00000011u8.into()), Instruction::SSF)
}

#[test]
fn instruction_register_operand() {
    assert_eq!(
        decode_instruction(0b00100011u8.into()),
        Instruction::STR {
            register_id: 0b11u8.into()
        }
    )
}

#[test]
fn instruction_two_register_operands() {
    assert_eq!(
        decode_instruction(0b01000110u8.into()),
        Instruction::MOV {
            register_from_id: 0b01u8.into(),
            register_to_id: 0b10u8.into()
        }
    )
}

#[test]
fn instruction_register_and_immediate_operands() {
    assert_eq!(
        decode_instruction(0b11001100u8.into()),
        Instruction::LDI {
            register_id: 0b00u8.into(),
            immediate: 0b1100u8.into()
        }
    )
}

fn word(inst: Instruction) -> u8 {
    u8::from(encode_instruction(inst))
}

#[test]
fn encode_gives_the_word_of_each_pattern() {
    let zero2: U<2> = 0u8.into();
    assert_eq!(word(Instruction::NOP), 0b0000_0000);
    assert_eq!(word(Instruction::SSJ), 0b0000_0001);
    assert_eq!(word(Instruction::RSF), 0b0000_0010);
    assert_eq!(word(Instruction::SSF), 0b0000_0011);
    assert_eq!(word(Instruction::RSJ), 0b0000_0111);
    assert_eq!(word(Instruction::RET), 0b0000_1000);
    assert_eq!(word(Instruction::LPB { immediate: 0u8.into() }), 0b0001_0000);
    assert_eq!(word(Instruction::STR { register_id: zero2 }), 0b0010_0000);
    assert_eq!(word(Instruction::LOD { register_id: zero2 }), 0b0010_0100);
    assert_eq!(word(Instruction::INC { register_id: zero2 }), 0b0010_1000);
    assert_eq!(word(Instruction::DEC { register_id: zero2 }), 0b0010_1100);
    assert_eq!(word(Instruction::MOV { register_from_id: zero2, register_to_id: zero2 }), 0b0100_0000);
    assert_eq!(word(Instruction::ADD { register_id: zero2 }), 0b0101_0000);
    assert_eq!(word(Instruction::SUB { register_id: zero2 }), 0b0101_0100);
    assert_eq!(word(Instruction::BOR { register_id: zero2 }), 0b0101_1000);
    assert_eq!(word(Instruction::AND { register_id: zero2 }), 0b0101_1100);
    assert_eq!(word(Instruction::GRT { register_id: zero2 }), 0b0110_0000);
    assert_eq!(word(Instruction::LES { register_id: zero2 }), 0b0110_0100);
    assert_eq!(word(Instruction::CMP { register_id: zero2 }), 0b0110_1000);
    assert_eq!(word(Instruction::INP { port_id: zero2 }), 0b0111_0000);
    assert_eq!(word(Instruction::OUT { port_id: zero2 }), 0b0111_0100);
    assert_eq!(word(Instruction::RSP { pin_id: zero2 }), 0b0111_1000);
    assert_eq!(word(Instruction::SEP { pin_id: zero2 }), 0b0111_1100);
    assert_eq!(word(Instruction::BRN { immediate: 0u8.into() }), 0b1000_0000);
    assert_eq!(word(Instruction::LDI { register_id: zero2, immediate: 0u8.into() }), 0b1100_0000);
}

#[test]
fn encode_places_operands_in_their_fields() {
    assert_eq!(
        word(Instruction::MOV { register_from_id: 1u8.into(), register_to_id: 2u8.into() }),
        0x46
    );
    assert_eq!(word(Instruction::LDI { register_id: 1u8.into(), immediate: 1u8.into() }), 0xD1);
    assert_eq!(word(Instruction::LDI { register_id: 3u8.into(), immediate: 0xAu8.into() }), 0xFA);
    assert_eq!(word(Instruction::OUT { port_id: 1u8.into() }), 0x75);
    assert_eq!(word(Instruction::BRN { immediate: 5u8.into() }), 0x85);
    assert_eq!(word(Instruction::BRN { immediate: 63u8.into() }), 0xBF);
    assert_eq!(word(Instruction::INC { register_id: 1u8.into() }), 0x29);
    assert_eq!(word(Instruction::LPB { immediate: 2u8.into() }), 0x12);
    assert_eq!(word(Instruction::SEP { pin_id: 3u8.into() }), 0x7F);
}

#[test]
fn decode_reads_each_pattern() {
    assert_eq!(decode_byte(0x00), Instruction::NOP);
    assert_eq!(decode_byte(0x01), Instruction::SSJ);
    assert_eq!(decode_byte(0x02), Instruction::RSF);
    assert_eq!(decode_byte(0x07), Instruction::RSJ);
    assert_eq!(decode_byte(0x08), Instruction::RET);
    assert_eq!(decode_byte(0x1C), Instruction::LPB { immediate: 0xCu8.into() });
    assert_eq!(decode_byte(0x25), Instruction::LOD { register_id: 1u8.into() });
    assert_eq!(decode_byte(0x29), Instruction::INC { register_id: 1u8.into() });
    assert_eq!(decode_byte(0x2E), Instruction::DEC { register_id: 2u8.into() });
    assert_eq!(decode_byte(0x53), Instruction::ADD { register_id: 3u8.into() });
    assert_eq!(decode_byte(0x55), Instruction::SUB { register_id: 1u8.into() });
    assert_eq!(decode_byte(0x5A), Instruction::BOR { register_id: 2u8.into() });
    assert_eq!(decode_byte(0x5F), Instruction::AND { register_id: 3u8.into() });
    assert_eq!(decode_byte(0x61), Instruction::GRT { register_id: 1u8.into() });
    assert_eq!(decode_byte(0x66), Instruction::LES { register_id: 2u8.into() });
    assert_eq!(decode_byte(0x6B), Instruction::CMP { register_id: 3u8.into() });
    assert_eq!(decode_byte(0x72), Instruction::INP { port_id: 2u8.into() });
    assert_eq!(decode_byte(0x75), Instruction::OUT { port_id: 1u8.into() });
    assert_eq!(decode_byte(0x7A), Instruction::RSP { pin_id: 2u8.into() });
    assert_eq!(decode_byte(0x7D), Instruction::SEP { pin_id: 1u8.into() });
    assert_eq!(decode_byte(0x85), Instruction::BRN { immediate: 5u8.into() });
    assert_eq!(decode_byte(0xD1), Instruction::LDI { register_id: 1u8.into(), immediate: 1u8.into() });
}

#[test]
fn words_that_match_no_pattern_are_nop() {
    for w in [0x04u8, 0x05, 0x06, 0x09, 0x0A, 0x0F, 0x30, 0x3F, 0x6C, 0x6F] {
        assert_eq!(decode_byte(w), Instruction::NOP);
        assert_eq!(decode_instruction(w.into()), Instruction::NOP);
    }
}

#[test]
fn decode_undoes_encode_and_encode_undoes_decode() {
    let mut known = 0;
    for w in 0..=255u8 {
        let inst = decode_byte(w);
        if inst != Instruction::NOP {
            known += 1;
            assert_eq!(word(inst), w);
        }
        assert_eq!(decode_instruction(encode_instruction(inst)), inst);
    }
    assert_eq!(known, 5 + 16 + 16 + 16 + 16 + 12 + 16 + 64 + 64);
}
