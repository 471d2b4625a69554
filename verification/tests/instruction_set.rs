use mcu_emulator::instruction::{decode_byte, Instruction};
use mcu_emulator::instruction_set::emit::{gen_decode, gen_encode, gen_enum, gen_program};
use mcu_emulator::text::push_decimal;
use mcu_emulator::instruction_set::pattern::decode_with;
use mcu_emulator::instruction_set::{
    extract_fields, letter_runs, parse_defs, parse_line, split_lines, split_whitespace, Field,
    InstrDef, INSTRUCTION_TABLE,
};

fn text(bytes: &[u8]) -> String {
    String::from_utf8(bytes.to_vec()).unwrap()
}

#[test]
fn tokens_are_the_runs_between_whitespace() {
    let parts = split_whitespace(b"  MOV\t0100rrkk  from to \r");
    let parts: Vec<String> = parts.iter().map(|p| text(p)).collect();
    assert_eq!(parts, vec!["MOV", "0100rrkk", "from", "to"]);
    assert!(split_whitespace(b"").is_empty());
    assert!(split_whitespace(b" \t \n").is_empty());
    assert_eq!(split_whitespace(b"x"), vec![b"x".to_vec()]);
}

#[test]
fn lines_are_the_runs_between_line_feeds() {
    let all = split_lines(b"a b\n\nc");
    assert_eq!(all, vec![b"a b".to_vec(), b"".to_vec(), b"c".to_vec()]);
    assert_eq!(split_lines(b""), vec![b"".to_vec()]);
    assert_eq!(split_lines(b"x\n"), vec![b"x".to_vec(), b"".to_vec()]);
}

#[test]
fn the_fields_of_a_pattern_are_the_runs_of_its_letters() {
    assert_eq!(letter_runs(b"11rrxxxx"), vec![(b'r', 2), (b'x', 4)]);
    assert_eq!(letter_runs(b"00000000"), vec![]);
    assert_eq!(letter_runs(b"r0rkkkr1"), vec![(b'r', 2), (b'k', 3), (b'r', 1)]);

    let names = vec![b"register_id".to_vec(), b"immediate".to_vec(), b"spare".to_vec()];
    let fields = extract_fields(b"11rrxxxx", &names).unwrap();
    assert_eq!(
        fields,
        vec![
            Field { symbol: b'r', name: b"register_id".to_vec(), bits: 2 },
            Field { symbol: b'x', name: b"immediate".to_vec(), bits: 4 },
        ]
    );
    assert_eq!(extract_fields(b"00000011", &names), Some(vec![]));
    assert_eq!(extract_fields(b"11rrxxxx", &names[..1]), None);
    assert_eq!(extract_fields(b"11rrxxxx", &[]), None);
}

#[test]
fn a_line_holds_a_mnemonic_a_pattern_and_field_names() {
    let def = parse_line(b"MOV 0100rrkk register_from_id register_to_id").unwrap();
    assert_eq!(def.name, b"MOV".to_vec());
    assert_eq!(def.pattern, b"0100rrkk".to_vec());
    assert_eq!(def.fields.len(), 2);
    assert_eq!(def.fields[0].symbol, b'r');
    assert_eq!(def.fields[0].bits, 2);
    assert_eq!(def.fields[1].name, b"register_to_id".to_vec());

    assert_eq!(parse_line(b"NOP"), None);
    assert_eq!(parse_line(b""), None);
    assert_eq!(parse_line(b"LDI 11rrxxxx register_id"), None);
    assert_eq!(parse_line(b"LDI 11rrxxx register_id immediate"), None);
    assert_eq!(parse_line(b"LDI 11rrxxxxx register_id immediate"), None);
}

#[test]
fn the_table_has_a_line_for_each_instruction() {
    let defs = parse_defs(INSTRUCTION_TABLE.as_bytes()).unwrap();
    assert_eq!(defs.len(), 25);
    assert_eq!(text(&defs[0].name), "NOP");
    assert_eq!(text(&defs[24].name), "LDI");
    assert_eq!(text(&defs[24].pattern), "11rrxxxx");
    assert_eq!(parse_defs(b"\n  \nSSF 00000011\n\n").unwrap().len(), 1);
    assert_eq!(parse_defs(b"").unwrap().len(), 0);
    assert_eq!(parse_defs(b"SSF 00000011\nSTR 001000rr\n"), None);
}

fn mnemonic_and_operands(inst: Instruction) -> (&'static str, Vec<u8>) {
    match inst {
        Instruction::NOP => ("NOP", vec![]),
        Instruction::SSJ => ("SSJ", vec![]),
        Instruction::RSF => ("RSF", vec![]),
        Instruction::SSF => ("SSF", vec![]),
        Instruction::RSJ => ("RSJ", vec![]),
        Instruction::RET => ("RET", vec![]),
        Instruction::LPB { immediate } => ("LPB", vec![immediate.into()]),
        Instruction::STR { register_id } => ("STR", vec![register_id.into()]),
        Instruction::LOD { register_id } => ("LOD", vec![register_id.into()]),
        Instruction::INC { register_id } => ("INC", vec![register_id.into()]),
        Instruction::DEC { register_id } => ("DEC", vec![register_id.into()]),
        Instruction::MOV { register_from_id, register_to_id } => {
            ("MOV", vec![register_from_id.into(), register_to_id.into()])
        }
        Instruction::ADD { register_id } => ("ADD", vec![register_id.into()]),
        Instruction::SUB { register_id } => ("SUB", vec![register_id.into()]),
        Instruction::BOR { register_id } => ("BOR", vec![register_id.into()]),
        Instruction::AND { register_id } => ("AND", vec![register_id.into()]),
        Instruction::GRT { register_id } => ("GRT", vec![register_id.into()]),
        Instruction::LES { register_id } => ("LES", vec![register_id.into()]),
        Instruction::CMP { register_id } => ("CMP", vec![register_id.into()]),
        Instruction::INP { port_id } => ("INP", vec![port_id.into()]),
        Instruction::OUT { port_id } => ("OUT", vec![port_id.into()]),
        Instruction::RSP { pin_id } => ("RSP", vec![pin_id.into()]),
        Instruction::SEP { pin_id } => ("SEP", vec![pin_id.into()]),
        Instruction::BRN { immediate } => ("BRN", vec![immediate.into()]),
        Instruction::LDI { register_id, immediate } => {
            ("LDI", vec![register_id.into(), immediate.into()])
        }
    }
}

#[test]
fn the_decoder_reads_every_word_as_the_table_says() {
    let defs = parse_defs(INSTRUCTION_TABLE.as_bytes()).unwrap();
    for w in 0..=255u8 {
        let (mnemonic, operands) = mnemonic_and_operands(decode_byte(w));
        match decode_with(&defs, w) {
            Some(i) => {
                assert_eq!(text(&defs[i].name), mnemonic);
                let read: Vec<u8> =
                    defs[i].fields.iter().map(|f| defs[i].operand(f.symbol, w)).collect();
                assert_eq!(read, operands);
                for earlier in &defs[..i] {
                    assert!(!earlier.matches(w));
                }
                assert!(defs[i].matches(w));
            }
            None => assert_eq!(mnemonic, "NOP"),
        }
    }
}

#[test]
fn the_first_pattern_that_matches_wins() {
    let defs = parse_defs(b"ANY 1xxxxxxx value\nTOP 11xxxxxx value\nLOW 0000000x bit\n").unwrap();
    assert_eq!(decode_with(&defs, 0xC7), Some(0));
    assert_eq!(defs[0].operand(b'x', 0xC7), 0x47);
    assert_eq!(defs[1].operand(b'x', 0xC7), 0x07);
    assert_eq!(decode_with(&defs, 0x01), Some(2));
    assert_eq!(decode_with(&defs, 0x02), None);
    assert_eq!(decode_with(&[], 0x02), None);
}

fn small_table() -> Vec<InstrDef> {
    parse_defs(b"SSF 00000011\nMOV 0100rrkk register_from_id register_to_id\n").unwrap()
}

#[test]
fn the_variants_are_declared_with_their_fields() {
    assert_eq!(
        text(&gen_enum(&small_table())),
        "#[derive(PartialEq, Debug)] pub enum Instruction {SSF,MOV {register_from_id: U<2>,register_to_id: U<2>,},}"
    );
    assert_eq!(text(&gen_enum(&vec![])), "#[derive(PartialEq, Debug)] pub enum Instruction {}");
}

#[test]
fn the_encoder_packs_each_field_under_its_letter() {
    assert_eq!(
        text(&gen_encode(&small_table())),
        "#[bitmatch] pub fn encode_instruction(inst: Instruction) -> u8 {match inst {Instruction::SSF => {bitpack!(\"00000011\")},Instruction::MOV { register_from_id, register_to_id, } => {let r:u8 = register_from_id.into();let k:u8 = register_to_id.into();bitpack!(\"0100rrkk\")},}}"
    );
}

#[test]
fn the_decoder_matches_each_pattern_and_falls_back_to_nop() {
    assert_eq!(
        text(&gen_decode(&small_table())),
        "#[bitmatch] pub fn decode_instruction(inst: U<INSTRUCTION_BITS>) -> Instruction {let converted: u8 = inst.into();#[bitmatch] match converted {\"00000011\" => Instruction::SSF,\"0100rrkk\" => Instruction::MOV { register_from_id: r.into(),register_to_id: k.into(),},_ => Instruction::NOP,}}"
    );
}

#[test]
fn the_program_text_holds_the_three_parts_on_three_lines() {
    let table = small_table();
    let expected = format!(
        "{}\n{}\n{}",
        text(&gen_enum(&table)),
        text(&gen_encode(&table)),
        text(&gen_decode(&table))
    );
    assert_eq!(text(&gen_program(&table)), expected);
}

#[test]
fn numbers_are_written_in_decimal() {
    for n in [0usize, 7, 9, 10, 42, 99, 100, 101, 255, 256, 65535, 1234567890] {
        let mut out = b"U<".to_vec();
        push_decimal(&mut out, n);
        assert_eq!(text(&out), format!("U<{}", n));
    }
}
