use mcu_emulator::computer::alu::ArithmeticLogicUnit;
use mcu_emulator::computer::memory::readonly::ReadOnlyMemory;
use mcu_emulator::computer::memory::readwrite::ReadWriteMemory;
use mcu_emulator::computer::memory::size_matches;
use mcu_emulator::computer::register::Register;
use mcu_emulator::un::U;

fn initialize_alu() -> ArithmeticLogicUnit {
    let mut alu = ArithmeticLogicUnit::new();
    alu.accumulator_mut().store(5u8.into());
    alu
}

#[test]
fn alu_add() {
    let mut alu = initialize_alu();
    alu.add(4u8.into());
    assert_eq!(alu.accumulator().load(), 9u8.into())
}

#[test]
fn alu_sub() {
    let mut alu = initialize_alu();
    alu.sub(4u8.into());
    assert_eq!(alu.accumulator().load(), 1u8.into())
}

#[test]
fn bor() {
    let mut alu = initialize_alu();
    // 5 is 0b101
    alu.bor(0b011u8.into());
    assert_eq!(alu.accumulator().load(), 0b111u8.into())
}

#[test]
fn and() {
    let mut alu = initialize_alu();
    // 5 is 0b101
    alu.and(0b011u8.into());
    assert_eq!(alu.accumulator().load(), 0b001u8.into())
}

#[test]
fn cmp_equal() {
    let alu = initialize_alu();
    let result = alu.cmp(5u8.into());
    assert_eq!(result, true)
}

#[test]
fn cmp_not_equal() {
    let alu = initialize_alu();
    let result = alu.cmp(4u8.into());
    assert_eq!(result, false)
}

#[test]
fn grt_equal() {
    let alu = initialize_alu();
    let result = alu.les(5u8.into());
    assert_eq!(result, false)
}

#[test]
fn grt_less() {
    let alu = initialize_alu();
    let result = alu.les(4u8.into());
    assert_eq!(result, false)
}

#[test]
fn grt_greater() {
    let alu = initialize_alu();
    let result = alu.les(6u8.into());
    assert_eq!(result, true)
}

#[test]
fn les_equal() {
    let alu = initialize_alu();
    let result = alu.les(5u8.into());
    assert_eq!(result, false)
}

#[test]
fn les_less() {
    let alu = initialize_alu();
    let result = alu.les(6u8.into());
    assert_eq!(result, true)
}

#[test]
fn les_greater() {
    let alu = initialize_alu();
    let result = alu.les(4u8.into());
    assert_eq!(result, false)
}

#[test]
fn grt_compares_the_accumulator_with_the_operand() {
    let alu = initialize_alu();
    assert_eq!(alu.grt(4u8.into()), true);
    assert_eq!(alu.grt(5u8.into()), false);
    assert_eq!(alu.grt(6u8.into()), false);
}

#[test]
fn alu_wraps_within_four_bits() {
    let mut alu = initialize_alu();
    alu.add(12u8.into());
    assert_eq!(alu.accumulator().load(), 1u8.into());
    alu.sub(3u8.into());
    assert_eq!(alu.accumulator().load(), 14u8.into());
}

#[test]
fn init() {
    let r: Register<8> = Register::new();
    assert_eq!(r.load(), 0u8.into())
}

#[test]
fn store() {
    let mut r: Register<8> = Register::new();
    r.store(1u8.into());
    assert_eq!(r.load(), 1u8.into())
}

#[test]
fn load() {
    let mut r: Register<8> = Register::new();
    r.store(10u8.into());
    assert_eq!(r.load(), 10u8.into())
}

#[test]
fn increment() {
    let mut r: Register<8> = Register::new();
    r.store(10u8.into());
    r.increment();
    assert_eq!(r.load(), 11u8.into())
}

#[test]
fn decrement() {
    let mut r: Register<8> = Register::new();
    r.store(10u8.into());
    r.decrement();
    assert_eq!(r.load(), 9u8.into())
}

#[test]
fn register_wraps_at_both_ends() {
    let mut r: Register<4> = Register::new();
    r.decrement();
    assert_eq!(r.load(), 15u8.into());
    r.increment();
    assert_eq!(r.load(), 0u8.into());
}

#[test]
fn size_matches_powers_of_two_only() {
    assert!(size_matches(0, 1));
    assert!(size_matches(10, 1024));
    assert!(size_matches(8, 256));
    assert!(!size_matches(8, 255));
    assert!(!size_matches(8, 257));
    assert!(!size_matches(3, 0));
    assert!(!size_matches(200, 1024));
}

#[test]
fn memory_is_refused_unless_addresses_match_its_size() {
    assert!(ReadOnlyMemory::<8, 2, 4>::with_values([U::new(); 4]).is_some());
    assert!(ReadOnlyMemory::<8, 2, 5>::with_values([U::new(); 5]).is_none());
    assert!(ReadOnlyMemory::<8, 3, 4>::with_values([U::new(); 4]).is_none());
    assert!(ReadWriteMemory::<4, 8, 256>::new().is_some());
    assert!(ReadWriteMemory::<4, 8, 255>::new().is_none());
}

#[test]
fn read_only_memory_reads_what_it_was_given() {
    let values: [U<8>; 4] = [10u8.into(), 20u8.into(), 30u8.into(), 40u8.into()];
    let memory = ReadOnlyMemory::<8, 2, 4>::with_values(values).unwrap();
    assert_eq!(memory.read(0u8.into()), 10u8.into());
    assert_eq!(memory.read(3u8.into()), 40u8.into());
}

#[test]
fn read_write_memory_starts_cleared_and_keeps_what_is_written() {
    let mut memory = ReadWriteMemory::<4, 2, 4>::new().unwrap();
    assert_eq!(memory.read(2u8.into()), 0u8.into());
    memory.write(2u8.into(), 9u8.into());
    assert_eq!(memory.read(2u8.into()), 9u8.into());
    assert_eq!(memory.read(1u8.into()), 0u8.into());
}
