use mcu_emulator::architecture::PROGRAM_MEMORY_SIZE;
use mcu_emulator::computer::Computer;
use mcu_emulator::device::bus::Bus;
use mcu_emulator::device::connectable::Connectable;
use mcu_emulator::device::Device;
use mcu_emulator::instruction::Instruction;
use mcu_emulator::un::U;

fn program_of(bytes: &[u8]) -> [U<8>; PROGRAM_MEMORY_SIZE] {
    let mut program = [U::<8>::from(0u8); PROGRAM_MEMORY_SIZE];
    for (i, byte) in bytes.iter().enumerate() {
        program[i] = (*byte).into();
    }
    program
}

fn computer_with(bytes: &[u8]) -> (Computer, Bus<8>) {
    let mut bus = Bus::<8>::new();
    let computer = Computer::with_program(program_of(bytes), &mut bus).unwrap();
    (computer, bus)
}

fn reg(computer: &Computer, id: u8) -> u8 {
    u8::from(computer.register(id.into()))
}

#[test]
fn a_new_computer_is_cleared_and_adds_eight_cells() {
    let (computer, bus) = computer_with(&[]);
    assert_eq!(bus.len(), 8);
    for id in 0..4u8 {
        assert_eq!(reg(&computer, id), 0);
    }
    assert_eq!(u8::from(computer.program_counter()), 0);
    assert_eq!(u8::from(computer.page_address()), 0);
    assert_eq!(u8::from(computer.page_buffer()), 0);
    assert_eq!(u8::from(computer.subroutine_ret_addr()), 0);
    assert!(!computer.status_flag());
    assert!(!computer.subroutine_jump_flag());
}

#[test]
fn a_computer_is_refused_on_a_bus_too_narrow_for_its_ports() {
    let mut bus = Bus::<3>::new();
    assert!(Computer::with_program(program_of(&[]), &mut bus).is_none());
    assert_eq!(bus.len(), 0);
}

#[test]
fn ldi_then_out_drives_the_port_from_the_tick_of_the_out() {
    let (mut computer, mut bus) = computer_with(&[0xC1, 0xF1, 0x75]);
    for tick in 0..3 {
        computer.tick(tick, &mut bus);
    }
    let store = computer.get_port(1u8.into()).get_value_ref();
    assert_eq!(u8::from(bus.get(store)), 1);
    assert_eq!(bus.get_store_tick(store), 2);
    assert_eq!(reg(&computer, 0), 1);
    assert_eq!(reg(&computer, 3), 1);
}

#[test]
fn out_drives_the_value_of_z() {
    let (mut computer, mut bus) = computer_with(&[0xC1, 0xD1, 0x75]);
    for tick in 0..3 {
        computer.tick(tick, &mut bus);
    }
    let store = computer.get_port(1u8.into()).get_value_ref();
    assert_eq!(reg(&computer, 0), 1);
    assert_eq!(reg(&computer, 1), 1);
    assert_eq!(reg(&computer, 3), 0);
    assert_eq!(u8::from(bus.get(store)), 0);
    assert_eq!(bus.get_store_tick(store), 2);
}

#[test]
fn a_port_keeps_driving_until_it_is_read() {
    let (mut computer, mut bus) = computer_with(&[0xF7, 0x74, 0x00, 0x70, 0x00]);
    for tick in 0..3 {
        computer.tick(tick, &mut bus);
    }
    let store = computer.get_port(0u8.into()).get_value_ref();
    assert_eq!(u8::from(bus.get(store)), 7);
    assert_eq!(bus.get_store_tick(store), 2);
    computer.tick(3, &mut bus);
    assert_eq!(bus.get_store_tick(store), 2);
    assert_eq!(reg(&computer, 3), 7);
    computer.tick(4, &mut bus);
    assert_eq!(bus.get_store_tick(store), 2);
}

#[test]
fn branch_taken() {
    let (mut computer, bus) = computer_with(&[]);
    computer.execute(Instruction::LPB { immediate: 2u8.into() }, &bus);
    computer.execute(Instruction::SSF, &bus);
    assert_eq!(u8::from(computer.page_address()), 0);
    computer.execute(Instruction::BRN { immediate: 5u8.into() }, &bus);
    assert_eq!(u8::from(computer.page_address()), 2);
    assert_eq!(u8::from(computer.program_counter()), 5);
    assert!(computer.status_flag());
}

#[test]
fn branch_not_taken() {
    let (mut computer, mut bus) = computer_with(&[0x85]);
    computer.execute(Instruction::LPB { immediate: 2u8.into() }, &bus);
    computer.tick(0, &mut bus);
    assert_eq!(u8::from(computer.page_address()), 0);
    assert_eq!(u8::from(computer.program_counter()), 1);
    assert_eq!(u8::from(computer.page_buffer()), 2);
}

#[test]
fn a_subroutine_jump_stays_on_the_page_and_ret_returns() {
    // SSF, SSJ, LPB 3, BRN 10, then at 10: RSJ, RET
    let mut bytes = vec![0x03, 0x01, 0x13, 0x8A];
    bytes.resize(10, 0x00);
    bytes.extend_from_slice(&[0x07, 0x08]);
    let (mut computer, mut bus) = computer_with(&bytes);
    for tick in 0..4 {
        computer.tick(tick, &mut bus);
    }
    assert_eq!(u8::from(computer.program_counter()), 10);
    assert_eq!(u8::from(computer.page_address()), 0);
    assert_eq!(u8::from(computer.subroutine_ret_addr()), 4);
    computer.tick(4, &mut bus);
    assert!(!computer.subroutine_jump_flag());
    computer.tick(5, &mut bus);
    assert_eq!(u8::from(computer.program_counter()), 4);
}

#[test]
fn a_branch_to_another_page_fetches_from_that_page() {
    // page 0: SSF, LPB 1, BRN 2; page 1, word 2: LDI Y, 9
    let mut bytes = vec![0x03, 0x11, 0x82];
    bytes.resize(64 + 2, 0x00);
    bytes.push(0xE9);
    let (mut computer, mut bus) = computer_with(&bytes);
    for tick in 0..4 {
        computer.tick(tick, &mut bus);
    }
    assert_eq!(u8::from(computer.page_address()), 1);
    assert_eq!(u8::from(computer.program_counter()), 3);
    assert_eq!(reg(&computer, 2), 9);
}

#[test]
fn the_program_counter_wraps_within_its_page() {
    let (mut computer, mut bus) = computer_with(&[]);
    for tick in 0..64 {
        assert_eq!(u32::from(computer.program_counter()), tick);
        computer.tick(tick, &mut bus);
    }
    assert_eq!(u8::from(computer.program_counter()), 0);
    assert_eq!(u8::from(computer.page_address()), 0);
}

#[test]
fn wrap_on_inc() {
    let (mut computer, bus) = computer_with(&[]);
    computer.execute(Instruction::LDI { register_id: 1u8.into(), immediate: 0x0Fu8.into() }, &bus);
    assert_eq!(reg(&computer, 1), 0x0F);
    computer.execute(mcu_emulator::instruction::decode_byte(0x29), &bus);
    assert_eq!(reg(&computer, 1), 0);
    computer.execute(Instruction::DEC { register_id: 1u8.into() }, &bus);
    assert_eq!(reg(&computer, 1), 0x0F);
}

#[test]
fn working_memory_round_trip() {
    let (mut computer, bus) = computer_with(&[]);
    computer.execute(Instruction::LDI { register_id: 1u8.into(), immediate: 3u8.into() }, &bus);
    computer.execute(Instruction::LDI { register_id: 2u8.into(), immediate: 5u8.into() }, &bus);
    computer.execute(Instruction::LDI { register_id: 0u8.into(), immediate: 9u8.into() }, &bus);
    assert_eq!(u8::from(computer.decode_xy()), 0x35);
    computer.execute(mcu_emulator::instruction::decode_byte(0x20), &bus);
    computer.execute(Instruction::LDI { register_id: 0u8.into(), immediate: 0u8.into() }, &bus);
    assert_eq!(reg(&computer, 0), 0);
    computer.execute(Instruction::LOD { register_id: 0u8.into() }, &bus);
    assert_eq!(reg(&computer, 0), 9);
    computer.execute(Instruction::LDI { register_id: 2u8.into(), immediate: 6u8.into() }, &bus);
    computer.execute(Instruction::LOD { register_id: 0u8.into() }, &bus);
    assert_eq!(reg(&computer, 0), 0);
}

#[test]
fn register_indices_name_four_different_registers() {
    let (mut computer, bus) = computer_with(&[]);
    for id in 0..4u8 {
        computer.execute(
            Instruction::LDI { register_id: id.into(), immediate: (id + 1).into() },
            &bus,
        );
    }
    for id in 0..4u8 {
        assert_eq!(reg(&computer, id), id + 1);
    }
    computer.get_register(2u8.into()).store(12u8.into());
    assert_eq!(reg(&computer, 0), 1);
    assert_eq!(reg(&computer, 1), 2);
    assert_eq!(reg(&computer, 2), 12);
    assert_eq!(reg(&computer, 3), 4);
}

#[test]
fn mov_copies_from_the_first_register_to_the_second() {
    let (mut computer, bus) = computer_with(&[]);
    computer.execute(Instruction::LDI { register_id: 1u8.into(), immediate: 7u8.into() }, &bus);
    computer.execute(mcu_emulator::instruction::decode_byte(0x46), &bus);
    assert_eq!(reg(&computer, 1), 7);
    assert_eq!(reg(&computer, 2), 7);
}

#[test]
fn arithmetic_leaves_the_status_flag_and_comparisons_set_it() {
    let (mut computer, bus) = computer_with(&[]);
    computer.execute(Instruction::LDI { register_id: 0u8.into(), immediate: 9u8.into() }, &bus);
    computer.execute(Instruction::LDI { register_id: 1u8.into(), immediate: 8u8.into() }, &bus);
    computer.execute(Instruction::SSF, &bus);
    computer.execute(Instruction::ADD { register_id: 1u8.into() }, &bus);
    assert_eq!(reg(&computer, 0), 1);
    assert!(computer.status_flag());
    computer.execute(Instruction::SUB { register_id: 1u8.into() }, &bus);
    assert_eq!(reg(&computer, 0), 9);
    computer.execute(Instruction::AND { register_id: 1u8.into() }, &bus);
    assert_eq!(reg(&computer, 0), 8);
    computer.execute(Instruction::LDI { register_id: 1u8.into(), immediate: 3u8.into() }, &bus);
    computer.execute(Instruction::BOR { register_id: 1u8.into() }, &bus);
    assert_eq!(reg(&computer, 0), 11);
    assert!(computer.status_flag());
    computer.execute(Instruction::LES { register_id: 1u8.into() }, &bus);
    assert!(!computer.status_flag());
    computer.execute(Instruction::GRT { register_id: 1u8.into() }, &bus);
    assert!(computer.status_flag());
    computer.execute(Instruction::CMP { register_id: 1u8.into() }, &bus);
    assert!(!computer.status_flag());
    computer.execute(Instruction::CMP { register_id: 0u8.into() }, &bus);
    assert!(computer.status_flag());
    computer.execute(Instruction::RSF, &bus);
    assert!(!computer.status_flag());
}

#[test]
fn pins_take_one_and_zero() {
    let (mut computer, mut bus) = computer_with(&[0x7E, 0x7A]);
    let store = computer.get_pin(2u8.into()).get_value_ref();
    computer.tick(0, &mut bus);
    assert_eq!(u8::from(bus.get(store)), 1);
    assert_eq!(bus.get_store_tick(store), 0);
    computer.tick(1, &mut bus);
    assert_eq!(u8::from(bus.get(store)), 0);
    assert_eq!(bus.get_store_tick(store), 1);
}

#[test]
fn fetch_reads_the_word_at_the_page_and_the_counter() {
    let mut bytes = vec![0u8; 3 * 64 + 8];
    bytes[3 * 64 + 7] = 0x55;
    let (mut computer, bus) = computer_with(&bytes);
    computer.execute(Instruction::LPB { immediate: 3u8.into() }, &bus);
    computer.execute(Instruction::SSF, &bus);
    computer.execute(Instruction::BRN { immediate: 7u8.into() }, &bus);
    assert_eq!(u8::from(computer.fetch()), 0x55);
    assert_eq!(computer.decode(computer.fetch()), Instruction::SUB { register_id: 1u8.into() });
}
