use mcu_emulator::architecture::PROGRAM_MEMORY_SIZE;
use mcu_emulator::computer::Computer;
use mcu_emulator::device::bus::Bus;
use mcu_emulator::device::connectable::device_pin::DevicePin;
use mcu_emulator::device::connectable::device_port::DevicePort;
use mcu_emulator::device::connectable::spliter::Spliter;
use mcu_emulator::device::connectable::{connect, Connectable};
use mcu_emulator::device::console::Console;
use mcu_emulator::device::store::Store;
use mcu_emulator::device::Device;
use mcu_emulator::simulation::{run_between, run_simulation};
use mcu_emulator::un::U;

#[test]
fn a_store_keeps_its_value_and_the_tick_of_its_last_write() {
    let mut store = Store::new(3u8);
    assert_eq!(store.get(), 3);
    assert_eq!(store.get_store_tick(), 0);
    store.set(9, 41);
    assert_eq!(store.get(), 9);
    assert_eq!(store.get_store_tick(), 41);
}

#[test]
fn a_bus_refuses_cells_wider_than_itself() {
    let mut bus = Bus::<6>::new();
    assert!(bus.add_store(7).is_none());
    assert_eq!(bus.len(), 0);
    let id = bus.add_store(6).unwrap();
    assert_eq!(bus.len(), 1);
    assert!(bus.contains(id));
    assert_eq!(u8::from(bus.get(id)), 0);
    assert_eq!(bus.get_store_tick(id), 0);
}

#[test]
fn a_cell_keeps_only_as_many_bits_as_it_is_wide() {
    let mut bus = Bus::<8>::new();
    let id = bus.add_store(3).unwrap();
    bus.set(id, 0b1111_0101u8.into(), 7);
    assert_eq!(u8::from(bus.get(id)), 0b101);
    assert_eq!(bus.get_store_tick(id), 7);
}

#[test]
fn a_port_commits_on_each_tick_while_it_writes() {
    let mut bus = Bus::<8>::new();
    let mut port = DevicePort::<4>::new(&mut bus).unwrap();
    let store = port.get_value_ref();
    port.tick(0, &mut bus);
    assert_eq!(bus.get_store_tick(store), 0);
    port.write(0xAu8.into());
    assert_eq!(u8::from(bus.get(store)), 0);
    port.tick(5, &mut bus);
    assert_eq!(u8::from(bus.get(store)), 0xA);
    assert_eq!(bus.get_store_tick(store), 5);
    port.tick(6, &mut bus);
    assert_eq!(bus.get_store_tick(store), 6);
    assert_eq!(port.read(&bus), 0xAu8.into());
    port.tick(7, &mut bus);
    assert_eq!(bus.get_store_tick(store), 6);
}

#[test]
fn connected_ports_observe_the_same_cell() {
    let mut bus = Bus::<8>::new();
    let mut a = DevicePort::<4>::new(&mut bus).unwrap();
    let mut b = DevicePort::<4>::new(&mut bus).unwrap();
    assert!(connect(&mut a, &b));
    assert_eq!(a.get_value_ref(), b.get_value_ref());
    b.write(6u8.into());
    b.tick(3, &mut bus);
    assert_eq!(a.read(&bus), 6u8.into());
}

#[test]
fn a_connection_between_different_widths_is_refused() {
    let mut bus = Bus::<8>::new();
    let mut a = DevicePort::<4>::new(&mut bus).unwrap();
    let b = DevicePort::<6>::new(&mut bus).unwrap();
    let mut pin = DevicePin::new(&mut bus).unwrap();
    let before = a.get_value_ref();
    assert!(!connect(&mut a, &b));
    assert_eq!(a.get_value_ref(), before);
    assert!(!pin.connect_to(a.get_value_ref()));
    assert!(!a.connect_to(pin.get_value_ref()));
}

#[test]
fn a_port_wider_than_the_bus_is_refused() {
    let mut bus = Bus::<4>::new();
    assert!(DevicePort::<5>::new(&mut bus).is_none());
    assert!(Spliter::<3, 2>::new(&mut bus).is_none());
    assert!(Console::new(&mut bus).is_none());
    assert_eq!(bus.len(), 0);
    assert!(Spliter::<3, 1>::new(&mut bus).is_some());
    assert_eq!(bus.len(), 3);
}

fn splitter_with_ports() -> (Bus<8>, Spliter<4, 2>, DevicePort<4>, DevicePort<2>, DevicePort<6>) {
    let mut bus = Bus::<8>::new();
    let mut splitter = Spliter::<4, 2>::new(&mut bus).unwrap();
    let mut low = DevicePort::<4>::new(&mut bus).unwrap();
    let mut high = DevicePort::<2>::new(&mut bus).unwrap();
    let mut combined = DevicePort::<6>::new(&mut bus).unwrap();
    assert!(low.connect_to(splitter.as_low_end().get_value_ref()));
    assert!(high.connect_to(splitter.as_high_end().get_value_ref()));
    assert!(connect(&mut combined, &splitter));
    (bus, splitter, low, high, combined)
}

#[test]
fn a_splitter_joins_its_ends_into_the_combined_cell() {
    let (mut bus, mut splitter, mut low, mut high, mut combined) = splitter_with_ports();
    low.write(0b1001u8.into());
    high.write(0b10u8.into());
    low.tick(1, &mut bus);
    high.tick(1, &mut bus);
    splitter.tick(1, &mut bus);
    assert_eq!(combined.read(&bus), 0b10_1001u8.into());
    splitter.tick(2, &mut bus);
    assert_eq!(combined.read(&bus), 0b10_1001u8.into());
    assert_eq!(low.read(&bus), 0b1001u8.into());
    assert_eq!(high.read(&bus), 0b10u8.into());
}

#[test]
fn a_splitter_splits_the_combined_cell_into_its_ends() {
    let (mut bus, mut splitter, mut low, mut high, mut combined) = splitter_with_ports();
    combined.write(0b01_0110u8.into());
    combined.tick(4, &mut bus);
    splitter.tick(4, &mut bus);
    assert_eq!(low.read(&bus), 0b0110u8.into());
    assert_eq!(high.read(&bus), 0b01u8.into());
    combined.read(&bus);
    splitter.tick(5, &mut bus);
    splitter.tick(6, &mut bus);
    assert_eq!(combined.read(&bus), 0b01_0110u8.into());
    assert_eq!(low.read(&bus), 0b0110u8.into());
    assert_eq!(high.read(&bus), 0b01u8.into());
}

#[test]
fn a_splitter_settles_on_the_face_that_was_written_last() {
    for written in 0..3 {
        for tick in 1..4u32 {
            let (mut bus, mut splitter, mut low, mut high, mut combined) = splitter_with_ports();
            splitter.tick(0, &mut bus);
            low.write(0b0101u8.into());
            high.write(0b11u8.into());
            combined.write(0b10_0011u8.into());
            if written != 0 {
                low.tick(tick, &mut bus);
            }
            if written != 1 {
                high.tick(tick + 1, &mut bus);
            }
            if written != 2 {
                combined.tick(tick + 2, &mut bus);
            }
            splitter.tick(tick + 3, &mut bus);
            splitter.tick(tick + 4, &mut bus);
            let l = u8::from(low.read(&bus));
            let h = u8::from(high.read(&bus));
            let c = u8::from(combined.read(&bus));
            assert_eq!(c, (h << 4) | l);
            if written == 2 {
                assert_eq!((h, l), (0b11, 0b0101));
            } else {
                assert_eq!(c, 0b10_0011);
            }
        }
    }
}

#[test]
fn faces_written_at_the_same_tick_are_left_as_they_are() {
    let mut bus = Bus::<8>::new();
    let mut splitter = Spliter::<4, 4>::new(&mut bus).unwrap();
    let combined = splitter.get_value_ref();
    let low = splitter.as_low_end().get_value_ref();
    let high = splitter.as_high_end().get_value_ref();
    bus.set(low, 1u8.into(), 0);
    for tick in 0..3 {
        splitter.tick(tick, &mut bus);
        assert_eq!(u8::from(bus.get(combined)), 0);
        assert_eq!(u8::from(bus.get(low)), 1);
        assert_eq!(u8::from(bus.get(high)), 0);
        assert_eq!(bus.get_store_tick(combined), 0);
        assert_eq!(bus.get_store_tick(low), 0);
        assert_eq!(bus.get_store_tick(high), 0);
    }
    bus.set(combined, 0x52u8.into(), 6);
    bus.set(high, 0x3u8.into(), 6);
    bus.set(low, 0x7u8.into(), 6);
    splitter.tick(7, &mut bus);
    assert_eq!(u8::from(bus.get(combined)), 0x52);
    assert_eq!(u8::from(bus.get(low)), 0x7);
    assert_eq!(u8::from(bus.get(high)), 0x3);
}

#[test]
fn both_ends_written_in_one_tick_reach_the_combined_cell() {
    let mut bus = Bus::<8>::new();
    let mut splitter = Spliter::<4, 4>::new(&mut bus).unwrap();
    let combined = splitter.get_value_ref();
    let low = splitter.as_low_end().get_value_ref();
    let high = splitter.as_high_end().get_value_ref();
    bus.set(combined, 0xFFu8.into(), 2);
    bus.set(low, 0x1u8.into(), 3);
    bus.set(high, 0x4u8.into(), 3);
    splitter.tick(3, &mut bus);
    assert_eq!(u8::from(bus.get(combined)), 0x41);
    assert_eq!(bus.get_store_tick(combined), 3);
    assert_eq!(bus.get_store_tick(low), 3);
    assert_eq!(bus.get_store_tick(high), 3);
}

#[test]
fn a_splitter_needs_two_ticks_where_the_other_faces_tie() {
    let mut bus = Bus::<8>::new();
    let mut splitter = Spliter::<4, 4>::new(&mut bus).unwrap();
    let combined = splitter.get_value_ref();
    let low = splitter.as_low_end().get_value_ref();
    let high = splitter.as_high_end().get_value_ref();
    bus.set(combined, 0xA3u8.into(), 5);
    bus.set(high, 0x1u8.into(), 5);
    bus.set(low, 0x5u8.into(), 7);
    splitter.tick(7, &mut bus);
    assert_eq!(u8::from(bus.get(combined)), 0xA5);
    assert_eq!(u8::from(bus.get(low)), 0x5);
    assert_eq!(u8::from(bus.get(high)), 0x1);
    splitter.tick(8, &mut bus);
    assert_eq!(u8::from(bus.get(combined)), 0xA5);
    assert_eq!(u8::from(bus.get(low)), 0x5);
    assert_eq!(u8::from(bus.get(high)), 0xA);
    splitter.tick(9, &mut bus);
    assert_eq!(u8::from(bus.get(combined)), 0xA5);
    assert_eq!(u8::from(bus.get(low)), 0x5);
    assert_eq!(u8::from(bus.get(high)), 0xA);
}

#[test]
fn a_connection_changes_the_handle_alone() {
    let mut bus = Bus::<8>::new();
    let mut a = DevicePort::<4>::new(&mut bus).unwrap();
    let b = DevicePort::<4>::new(&mut bus).unwrap();
    a.write(9u8.into());
    assert!(connect(&mut a, &b));
    a.tick(4, &mut bus);
    assert_eq!(u8::from(bus.get(b.get_value_ref())), 9);
    assert_eq!(bus.get_store_tick(b.get_value_ref()), 4);
}

#[test]
fn a_splitter_face_can_be_moved_to_another_cell() {
    let mut bus = Bus::<8>::new();
    let mut splitter = Spliter::<4, 4>::new(&mut bus).unwrap();
    let port = DevicePort::<4>::new(&mut bus).unwrap();
    let wide = DevicePort::<8>::new(&mut bus).unwrap();
    assert!(splitter.as_low_end().connect_to(port.get_value_ref()));
    assert_eq!(splitter.as_low_end().get_value_ref(), port.get_value_ref());
    assert!(!splitter.as_high_end().connect_to(wide.get_value_ref()));
    assert!(splitter.connect_to(wide.get_value_ref()));
    assert_eq!(splitter.get_value_ref(), wide.get_value_ref());
}

fn program_of(bytes: &[u8]) -> [U<8>; PROGRAM_MEMORY_SIZE] {
    let mut program = [U::<8>::from(0u8); PROGRAM_MEMORY_SIZE];
    for (i, byte) in bytes.iter().enumerate() {
        program[i] = (*byte).into();
    }
    program
}

#[test]
fn the_console_emits_a_byte_on_each_rising_strobe() {
    let mut bus = Bus::<8>::new();
    // LDI Z,1; OUT 0; LDI Z,4; OUT 1; SEP 0; NOP; RSP 0; LDI Z,2; OUT 0; NOP; SEP 0
    let program = program_of(&[0xF1, 0x74, 0xF4, 0x75, 0x7C, 0x00, 0x78, 0xF2, 0x74, 0x00, 0x7C]);
    let mut computer = Computer::with_program(program, &mut bus).unwrap();
    let mut splitter = Spliter::<4, 4>::new(&mut bus).unwrap();
    let mut console = Console::new(&mut bus).unwrap();
    assert!(computer.get_port(0u8.into()).connect_to(splitter.as_low_end().get_value_ref()));
    assert!(computer.get_port(1u8.into()).connect_to(splitter.as_high_end().get_value_ref()));
    assert!(connect(console.ascii_port(), &splitter));
    let strobe = computer.get_pin(0u8.into()).get_value_ref();
    assert!(console.write_pin().connect_to(strobe));

    let mut devices = vec![((computer, splitter), console)];
    run_simulation(&mut devices, &mut bus, Some(5));
    assert_eq!(devices[0].1.take_output(), vec![0x41u8]);
    run_between(&mut devices, &mut bus, 5, 7);
    assert_eq!(devices[0].1.take_output(), Vec::<u8>::new());
    run_between(&mut devices, &mut bus, 7, 11);
    assert_eq!(devices[0].1.take_output(), vec![0x42u8]);
    assert_eq!(bus.len(), 8 + 3 + 2);
}

#[test]
fn the_console_sees_a_strobe_that_falls_and_rises_again() {
    let mut bus = Bus::<8>::new();
    let mut console = Console::new(&mut bus).unwrap();
    let mut data = DevicePort::<8>::new(&mut bus).unwrap();
    let mut strobe = DevicePin::new(&mut bus).unwrap();
    assert!(connect(console.ascii_port(), &data));
    assert!(connect(console.write_pin(), &strobe));
    let mut tick = 0;
    for (byte, level) in [(b'h', 1u8), (b'x', 1), (b'x', 0), (b'i', 1), (b'!', 0)] {
        data.write(byte.into());
        strobe.write(level.into());
        data.tick(tick, &mut bus);
        strobe.tick(tick, &mut bus);
        console.tick(tick, &mut bus);
        tick += 1;
    }
    assert_eq!(console.take_output(), b"hi".to_vec());
}

#[test]
fn the_harness_ticks_every_device_in_order_up_to_the_budget() {
    let mut bus = Bus::<8>::new();
    let mut a = DevicePort::<4>::new(&mut bus).unwrap();
    let mut b = DevicePort::<4>::new(&mut bus).unwrap();
    assert!(connect(&mut b, &a));
    a.write(1u8.into());
    b.write(2u8.into());
    let store = a.get_value_ref();
    let mut devices = vec![a, b];
    run_simulation(&mut devices, &mut bus, Some(0));
    assert_eq!(bus.get_store_tick(store), 0);
    assert_eq!(u8::from(bus.get(store)), 0);
    run_simulation(&mut devices, &mut bus, Some(9));
    assert_eq!(bus.get_store_tick(store), 8);
    assert_eq!(u8::from(bus.get(store)), 2);
    devices.swap(0, 1);
    run_simulation(&mut devices, &mut bus, Some(3));
    assert_eq!(bus.get_store_tick(store), 2);
    assert_eq!(u8::from(bus.get(store)), 1);
}
