//! The processor core: fetch, decode and execute, one instruction per tick.

use vstd::prelude::*;
use vstd::arithmetic::power2::{pow2, lemma2_to64};
use vstd::arithmetic::div_mod::lemma_small_mod;
use crate::architecture::{
    INSTRUCTION_BITS, NUM_PINS, NUM_PORTS, PA_BITS, PC_BITS, PIN_INDEX_BITS, PORT_BITS,
    PORT_INDEX_BITS, PROGRAM_ADDRESS_BITS, PROGRAM_MEMORY_SIZE, REGISTER_INDEX_BITS,
    WORKING_ADDRESS_BITS, WORKING_BITS, WORKING_MEMORY_SIZE,
};
use crate::computer::alu::ArithmeticLogicUnit;
use crate::computer::memory::readonly::ReadOnlyMemory;
use crate::computer::memory::readwrite::ReadWriteMemory;
use crate::computer::register::Register;
use crate::computer::state::{commit_all, ComputerState};
use crate::device::bus::{Bus, CellView};
use crate::device::connectable::device_pin::DevicePin;
use crate::device::connectable::device_port::{DevicePort, DevicePortView};
use crate::device::Device;
use crate::instruction::{decode_instruction, decode_spec, Instruction};
use crate::un::U;

pub mod alu;
pub mod memory;
pub mod register;
pub mod state;

verus! {

/// The processor core with its registers, flags, ports, pins and memories.
pub struct Computer {
    alu: ArithmeticLogicUnit,
    x_register: Register<WORKING_BITS>,
    y_register: Register<WORKING_BITS>,
    z_register: Register<WORKING_BITS>,
    program_counter: Register<PC_BITS>,
    page_address: Register<PA_BITS>,
    page_buffer: U<PA_BITS>,
    subroutine_jump_flag: bool,
    subroutine_ret_addr: U<PC_BITS>,
    status_flag: bool,
    ports: [DevicePort<PORT_BITS>; NUM_PORTS],
    pins: [DevicePin; NUM_PINS],
    program_memory: ReadOnlyMemory<INSTRUCTION_BITS, PROGRAM_ADDRESS_BITS, PROGRAM_MEMORY_SIZE>,
    working_memory: ReadWriteMemory<WORKING_BITS, WORKING_ADDRESS_BITS, WORKING_MEMORY_SIZE>,
}

impl View for Computer {
    type V = ComputerState;

    closed spec fn view(&self) -> ComputerState {
        ComputerState {
            accumulator: self.alu@,
            x: self.x_register@,
            y: self.y_register@,
            z: self.z_register@,
            program_counter: self.program_counter@,
            page_address: self.page_address@,
            page_buffer: self.page_buffer,
            subroutine_jump_flag: self.subroutine_jump_flag,
            subroutine_ret_addr: self.subroutine_ret_addr,
            status_flag: self.status_flag,
            ports: port_views(self.ports),
            pins: pin_views(self.pins),
            program_memory: self.program_memory@,
            working_memory: self.working_memory@,
        }
    }
}

/// What an array of ports holds.
pub open spec fn port_views(
    ports: [DevicePort<PORT_BITS>; NUM_PORTS],
) -> Seq<DevicePortView<PORT_BITS>> {
    Seq::new(NUM_PORTS as nat, |i: int| ports@[i]@)
}

/// What an array of pins holds.
pub open spec fn pin_views(pins: [DevicePin; NUM_PINS]) -> Seq<DevicePortView<1>> {
    Seq::new(NUM_PINS as nat, |i: int| pins@[i]@)
}

/// The cells that a new computer adds to a bus: one of `PORT_BITS` bits for
/// each port, then one of one bit for each pin, all holding zero.
pub open spec fn fresh_cells() -> Seq<CellView> {
    Seq::new(
        (NUM_PORTS + NUM_PINS) as nat,
        |i: int|
            CellView {
                width: if i < NUM_PORTS {
                    PORT_BITS as nat
                } else {
                    1
                },
                value: 0,
                store_tick: 0,
            },
    )
}

/// Whether `state` is that of a new computer with the given program, whose
/// ports and pins are backed by the cells from index `first_cell` on.
pub open spec fn is_initial(
    state: ComputerState,
    program: Seq<U<INSTRUCTION_BITS>>,
    first_cell: nat,
) -> bool {
    &&& state.wf()
    &&& state.accumulator@ == 0
    &&& state.x@ == 0
    &&& state.y@ == 0
    &&& state.z@ == 0
    &&& state.program_counter@ == 0
    &&& state.page_address@ == 0
    &&& state.page_buffer@ == 0
    &&& !state.subroutine_jump_flag
    &&& state.subroutine_ret_addr@ == 0
    &&& !state.status_flag
    &&& state.program_memory == program
    &&& forall|i: int| 0 <= i < WORKING_MEMORY_SIZE ==> (#[trigger] state.working_memory[i])@ == 0
    &&& forall|i: int|
        0 <= i < NUM_PORTS ==> {
            &&& (#[trigger] state.ports[i]).store.index == first_cell + i
            &&& state.ports[i].store.width == PORT_BITS
            &&& state.ports[i].write_val@ == 0
            &&& !state.ports[i].writing
        }
    &&& forall|i: int|
        0 <= i < NUM_PINS ==> {
            &&& (#[trigger] state.pins[i]).store.index == first_cell + NUM_PORTS + i
            &&& state.pins[i].store.width == 1
            &&& state.pins[i].write_val@ == 0
            &&& !state.pins[i].writing
        }
}

/// A port backed by a new cell of a bus that is wide enough for it.
fn new_port<const W: usize>(bus: &mut Bus<W>) -> (r: DevicePort<PORT_BITS>)
    requires
        old(bus).wf(),
        PORT_BITS <= W,
    ensures
        final(bus).wf(),
        final(bus)@ == old(bus)@.push(CellView { width: PORT_BITS as nat, value: 0, store_tick: 0 }),
        r@.store.index == old(bus)@.len(),
        r@.store.width == PORT_BITS,
        r@.write_val@ == 0,
        !r@.writing,
{
    DevicePort::new(bus).unwrap()
}

/// A pin backed by a new cell of a bus that is wide enough for it.
fn new_pin<const W: usize>(bus: &mut Bus<W>) -> (r: DevicePin)
    requires
        old(bus).wf(),
        1 <= W,
    ensures
        final(bus).wf(),
        final(bus)@ == old(bus)@.push(CellView { width: 1, value: 0, store_tick: 0 }),
        r@.store.index == old(bus)@.len(),
        r@.store.width == 1,
        r@.write_val@ == 0,
        !r@.writing,
{
    DevicePin::new(bus).unwrap()
}

impl Computer {
    /// Whether every port and pin is backed by a cell of its width in a bus
    /// of this shape.
    pub open spec fn fits(&self, shape: Seq<nat>) -> bool {
        self@.attached(shape)
    }

    /// A computer has as many ports, pins and memory cells as the architecture says.
    pub proof fn lemma_wf(&self)
        ensures
            self@.wf(),
    {
        self.program_memory.lemma_len();
        self.working_memory.lemma_len();
    }

    /// A computer that holds `program`, with every register, flag and
    /// working-memory cell cleared. Its ports and pins are backed by new
    /// cells of `bus`. The computer is refused, and the bus left as it is,
    /// where the bus cannot hold cells of `PORT_BITS` bits.
    pub fn with_program<const W: usize>(
        program: [U<INSTRUCTION_BITS>; PROGRAM_MEMORY_SIZE],
        bus: &mut Bus<W>,
    ) -> (r: Option<Self>)
        requires
            old(bus).wf(),
        ensures
            final(bus).wf(),
            r.is_some() <==> PORT_BITS <= W,
            r.is_none() ==> final(bus)@ == old(bus)@,
            r.is_some() ==> {
                &&& final(bus)@ == old(bus)@ + fresh_cells()
                &&& is_initial(r.unwrap()@, program@, old(bus)@.len())
                &&& r.unwrap().fits(final(bus).shape())
            },
    {
        if W < PORT_BITS {
            return None;
        }
        proof {
            lemma2_to64();
        }
        let port0 = new_port(bus);
        let port1 = new_port(bus);
        let port2 = new_port(bus);
        let port3 = new_port(bus);
        let pin0 = new_pin(bus);
        let pin1 = new_pin(bus);
        let pin2 = new_pin(bus);
        let pin3 = new_pin(bus);
        let program_memory = match ReadOnlyMemory::with_values(program) {
            Some(memory) => memory,
            None => {
                return None;
            },
        };
        let working_memory = match ReadWriteMemory::new() {
            Some(memory) => memory,
            None => {
                return None;
            },
        };
        proof {
            vstd::arithmetic::power2::lemma_pow2_pos(PA_BITS as nat);
            vstd::arithmetic::power2::lemma_pow2_pos(PC_BITS as nat);
            lemma_small_mod(0, pow2(PA_BITS as nat));
            lemma_small_mod(0, pow2(PC_BITS as nat));
        }
        let computer = Computer {
            alu: ArithmeticLogicUnit::new(),
            x_register: Register::new(),
            y_register: Register::new(),
            z_register: Register::new(),
            program_counter: Register::new(),
            page_address: Register::new(),
            page_buffer: 0u8.into(),
            subroutine_jump_flag: false,
            subroutine_ret_addr: 0u8.into(),
            status_flag: false,
            ports: [port0, port1, port2, port3],
            pins: [pin0, pin1, pin2, pin3],
            program_memory,
            working_memory,
        };
        proof {
            computer.lemma_wf();
            assert(bus@ =~= old(bus)@ + fresh_cells());
            assert(computer@.ports[0] == port0@);
            assert(computer@.ports[1] == port1@);
            assert(computer@.ports[2] == port2@);
            assert(computer@.ports[3] == port3@);
            assert(computer@.pins[0] == pin0@);
            assert(computer@.pins[1] == pin1@);
            assert(computer@.pins[2] == pin2@);
            assert(computer@.pins[3] == pin3@);
        }
        Some(computer)
    }

    /// The value of the register with index `id`.
    pub fn register(&self, id: U<REGISTER_INDEX_BITS>) -> (r: U<WORKING_BITS>)
        ensures
            r == self@.register(id@),
    {
        let id_u8: u8 = id.into();
        proof {
            id.lemma_range();
            lemma2_to64();
        }
        match id_u8 {
            0 => self.alu.accumulator().load(),
            1 => self.x_register.load(),
            2 => self.y_register.load(),
            _ => self.z_register.load(),
        }
    }

    /// The program counter.
    pub fn program_counter(&self) -> (r: U<PC_BITS>)
        ensures
            r == self@.program_counter,
    {
        self.program_counter.load()
    }

    /// The page address.
    pub fn page_address(&self) -> (r: U<PA_BITS>)
        ensures
            r == self@.page_address,
    {
        self.page_address.load()
    }

    /// The page buffer.
    pub fn page_buffer(&self) -> (r: U<PA_BITS>)
        ensures
            r == self@.page_buffer,
    {
        self.page_buffer
    }

    /// The status flag.
    pub fn status_flag(&self) -> (r: bool)
        ensures
            r == self@.status_flag,
    {
        self.status_flag
    }

    /// The subroutine jump flag.
    pub fn subroutine_jump_flag(&self) -> (r: bool)
        ensures
            r == self@.subroutine_jump_flag,
    {
        self.subroutine_jump_flag
    }

    /// The address that `RET` returns to.
    pub fn subroutine_ret_addr(&self) -> (r: U<PC_BITS>)
        ensures
            r == self@.subroutine_ret_addr,
    {
        self.subroutine_ret_addr
    }

    /// The instruction word at the program address, which is the page
    /// address shifted left by `PC_BITS`, or-ed with the program counter.
    pub fn fetch(&self) -> (r: U<INSTRUCTION_BITS>)
        ensures
            self@.program_address() < PROGRAM_MEMORY_SIZE,
            r == self@.fetch(),
    {
        let pc = self.program_counter.load();
        let pa = self.page_address.load();
        let high = pa.change_bits::<PROGRAM_ADDRESS_BITS>() << PC_BITS;
        let low = pc.change_bits::<PROGRAM_ADDRESS_BITS>();
        proof {
            lemma2_to64();
            pa.lemma_range();
            pc.lemma_range();
            assert(pa@ * 64 < 1024);
            lemma_small_mod(pa@ * 64, 1024);
            assert((pa@ * 64) % 64 == 0);
            U::<PROGRAM_ADDRESS_BITS>::lemma_or_disjoint(high, low, PC_BITS as nat);
        }
        let addr = high | low;
        self.program_memory.read(addr)
    }

    /// Decodes an instruction word.
    pub fn decode(&self, instruction: U<INSTRUCTION_BITS>) -> (r: Instruction)
        ensures
            r == decode_spec(instruction@),
    {
        decode_instruction(instruction)
    }

    /// The working-memory address that `STR` and `LOD` use: X shifted left
    /// by `WORKING_BITS`, or-ed with Y.
    pub fn decode_xy(&self) -> (r: U<WORKING_ADDRESS_BITS>)
        ensures
            r@ == self@.working_address(),
            r@ < WORKING_MEMORY_SIZE,
    {
        let x = self.x_register.load().change_bits::<WORKING_ADDRESS_BITS>();
        let y = self.y_register.load().change_bits::<WORKING_ADDRESS_BITS>();
        let x_shifted = x << WORKING_BITS;
        proof {
            lemma2_to64();
            self.x_register@.lemma_range();
            self.y_register@.lemma_range();
            assert(x@ * 16 < 256);
            lemma_small_mod(x@ * 16, 256);
            assert((x@ * 16) % 16 == 0);
            U::<WORKING_ADDRESS_BITS>::lemma_or_disjoint(x_shifted, y, WORKING_BITS as nat);
        }
        x_shifted | y
    }

    /// The register with index `id`, to be written: 0 is the accumulator,
    /// 1 is X, 2 is Y and 3 is Z.
    pub fn get_register(&mut self, id: U<REGISTER_INDEX_BITS>) -> (r: &mut Register<WORKING_BITS>)
        ensures
            r@ == old(self)@.register(id@),
            final(self)@ == old(self)@.with_register(id@, final(r)@),
    {
        let id_u8: u8 = id.into();
        proof {
            id.lemma_range();
            lemma2_to64();
        }
        match id_u8 {
            0 => self.alu.accumulator_mut(),
            1 => &mut self.x_register,
            2 => &mut self.y_register,
            _ => &mut self.z_register,
        }
    }

    /// The port with index `id`, to be read, written or connected.
    pub fn get_port(&mut self, id: U<PORT_INDEX_BITS>) -> (r: &mut DevicePort<PORT_BITS>)
        ensures
            id@ < NUM_PORTS,
            r@ == old(self)@.ports[id@ as int],
            final(self)@.ports == old(self)@.ports.update(id@ as int, final(r)@),
            final(self)@ == (ComputerState { ports: final(self)@.ports, ..old(self)@ }),
    {
        let id_u8: u8 = id.into();
        proof {
            id.lemma_range();
            lemma2_to64();
        }
        &mut self.ports[id_u8 as usize]
    }

    /// The pin with index `id`, to be read, written or connected.
    pub fn get_pin(&mut self, id: U<PIN_INDEX_BITS>) -> (r: &mut DevicePin)
        ensures
            id@ < NUM_PINS,
            r@ == old(self)@.pins[id@ as int],
            final(self)@.pins == old(self)@.pins.update(id@ as int, final(r)@),
            final(self)@ == (ComputerState { pins: final(self)@.pins, ..old(self)@ }),
    {
        let id_u8: u8 = id.into();
        proof {
            id.lemma_range();
            lemma2_to64();
        }
        &mut self.pins[id_u8 as usize]
    }

    /// Executes one instruction. `bus` is read by `INP`; what `OUT`, `SEP`
    /// and `RSP` write reaches the bus when the ports and pins tick.
    pub fn execute<const W: usize>(&mut self, instruction: Instruction, bus: &Bus<W>)
        requires
            bus.wf(),
            old(self).fits(bus.shape()),
        ensures
            final(self)@ == old(self)@.execute(instruction, bus@),
            final(self).fits(bus.shape()),
    {
        proof {
            self.lemma_wf();
            lemma2_to64();
        }
        match instruction {
            Instruction::NOP => (),
            Instruction::STR { register_id } => {
                let addr = self.decode_xy();
                let register = self.get_register(register_id);
                let value = register.load();
                self.working_memory.write(addr, value)
            },
            Instruction::LOD { register_id } => {
                let addr = self.decode_xy();
                let value = self.working_memory.read(addr);
                let register = self.get_register(register_id);
                register.store(value)
            },
            Instruction::LDI { register_id, immediate } => {
                let register = self.get_register(register_id);
                register.store(immediate)
            },
            Instruction::INC { register_id } => {
                let register = self.get_register(register_id);
                register.increment()
            },
            Instruction::DEC { register_id } => {
                let register = self.get_register(register_id);
                register.decrement()
            },
            Instruction::MOV { register_to_id, register_from_id } => {
                let register_from = self.get_register(register_from_id);
                let value = register_from.load();
                let register_to = self.get_register(register_to_id);
                register_to.store(value)
            },
            Instruction::INP { port_id } => {
                let value = self.get_port(port_id).read(bus);
                proof {
                    value.lemma_of_nat_view();
                }
                self.z_register.store(value)
            },
            Instruction::OUT { port_id } => {
                let val = self.z_register.load();
                let port = self.get_port(port_id);
                port.write(val);
            },
            Instruction::SEP { pin_id } => self.get_pin(pin_id).write(1u8.into()),
            Instruction::RSP { pin_id } => self.get_pin(pin_id).write(0u8.into()),
            Instruction::ADD { register_id } => {
                let value = self.get_register(register_id).load();
                self.alu.add(value)
            },
            Instruction::SUB { register_id } => {
                let value = self.get_register(register_id).load();
                self.alu.sub(value)
            },
            Instruction::BOR { register_id } => {
                let value = self.get_register(register_id).load();
                self.alu.bor(value)
            },
            Instruction::AND { register_id } => {
                let value = self.get_register(register_id).load();
                self.alu.and(value)
            },
            Instruction::CMP { register_id } => {
                let value = self.get_register(register_id).load();
                self.status_flag = self.alu.cmp(value)
            },
            Instruction::GRT { register_id } => {
                let value = self.get_register(register_id).load();
                self.status_flag = self.alu.grt(value)
            },
            Instruction::LES { register_id } => {
                let value = self.get_register(register_id).load();
                self.status_flag = self.alu.les(value)
            },
            Instruction::BRN { immediate } => {
                if self.status_flag {
                    if self.subroutine_jump_flag {
                        self.subroutine_ret_addr = self.program_counter.load();
                    } else {
                        self.page_address.store(self.page_buffer);
                    }
                    self.program_counter.store(immediate)
                }
            },
            Instruction::LPB { immediate } => self.page_buffer = immediate,
            Instruction::SSF => self.status_flag = true,
            Instruction::RSF => self.status_flag = false,
            Instruction::SSJ => self.subroutine_jump_flag = true,
            Instruction::RSJ => self.subroutine_jump_flag = false,
            Instruction::RET => self.program_counter.store(self.subroutine_ret_addr),
        }
    }
}

impl Device for Computer {
    type State = ComputerState;

    open spec fn state(&self) -> ComputerState {
        self@
    }

    open spec fn attached(&self, shape: Seq<nat>) -> bool {
        self.fits(shape)
    }

    open spec fn next_state(state: ComputerState, tick: u32, cells: Seq<CellView>) -> ComputerState {
        state.step(cells)
    }

    open spec fn next_cells(state: ComputerState, tick: u32, cells: Seq<CellView>) -> Seq<CellView> {
        state.step(cells).commit(tick, cells)
    }

    /// One tick of the processor: fetch, advance the program counter, decode,
    /// execute, then tick every port and every pin in index order.
    fn tick<const W: usize>(&mut self, tick: u32, bus: &mut Bus<W>) {
        let inst_bits = self.fetch();
        self.program_counter.increment();
        let inst = self.decode(inst_bits);
        assert(self@.ports == old(self)@.ports);
        assert(self@.pins == old(self)@.pins);
        self.execute(inst, bus);
        let ghost after = self@;
        let ghost cells = bus@;
        let mut i: usize = 0;
        while i < NUM_PORTS
            invariant
                i <= NUM_PORTS,
                bus.wf(),
                bus.shape() == old(bus).shape(),
                self@ == after,
                self.fits(bus.shape()),
                bus@ == commit_all(after.ports, i as nat, tick, cells),
            decreases NUM_PORTS - i,
        {
            assert(self@.ports[i as int] == self.ports@[i as int]@);
            self.ports[i].tick(tick, bus);
            proof {
                assert(self@.ports =~= after.ports);
            }
            i += 1;
        }
        let ghost committed = bus@;
        let mut j: usize = 0;
        while j < NUM_PINS
            invariant
                j <= NUM_PINS,
                bus.wf(),
                bus.shape() == old(bus).shape(),
                self@ == after,
                self.fits(bus.shape()),
                bus@ == commit_all(after.pins, j as nat, tick, committed),
            decreases NUM_PINS - j,
        {
            assert(self@.pins[j as int] == self.pins@[j as int]@);
            self.pins[j].tick(tick, bus);
            proof {
                assert(self@.pins =~= after.pins);
            }
            j += 1;
        }
    }
}

} // verus!
