//! What the processor core holds, and what each instruction does to it.

use vstd::prelude::*;
use vstd::arithmetic::power2::{pow2, lemma2_to64};
use vstd::std_specs::ops::{BitAndSpec, BitOrSpec, ShlSpec};
use crate::architecture::{
    INSTRUCTION_BITS, NUM_PINS, NUM_PORTS, PA_BITS, PC_BITS, PORT_BITS, PROGRAM_ADDRESS_BITS,
    PROGRAM_MEMORY_SIZE, REGISTER_INDEX_BITS, WORKING_ADDRESS_BITS, WORKING_BITS,
    WORKING_MEMORY_SIZE,
};
use crate::device::bus::CellView;
use crate::device::connectable::device_port::DevicePortView;
use crate::instruction::{decode_spec, Instruction};
use crate::un::U;

verus! {

/// The cells after the first `n` of `ports` have ticked, in index order.
pub open spec fn commit_all<const N: usize>(
    ports: Seq<DevicePortView<N>>,
    n: nat,
    tick: u32,
    cells: Seq<CellView>,
) -> Seq<CellView>
    decreases n,
{
    if n == 0 {
        cells
    } else {
        ports[n - 1].commit(tick, commit_all(ports, (n - 1) as nat, tick, cells))
    }
}

/// The state of the processor core.
pub ghost struct ComputerState {
    /// The accumulator of the arithmetic logic unit, register 0.
    pub accumulator: U<WORKING_BITS>,
    /// Register 1.
    pub x: U<WORKING_BITS>,
    /// Register 2.
    pub y: U<WORKING_BITS>,
    /// Register 3.
    pub z: U<WORKING_BITS>,
    /// The position of the next instruction within its page.
    pub program_counter: U<PC_BITS>,
    /// The page of the next instruction.
    pub page_address: U<PA_BITS>,
    /// The page that a taken branch outside a subroutine jump moves to.
    pub page_buffer: U<PA_BITS>,
    /// Whether a taken branch is a subroutine jump, which stays on the page
    /// and records where to return to.
    pub subroutine_jump_flag: bool,
    /// Where `RET` returns to.
    pub subroutine_ret_addr: U<PC_BITS>,
    /// The predicate of `BRN`.
    pub status_flag: bool,
    pub ports: Seq<DevicePortView<PORT_BITS>>,
    pub pins: Seq<DevicePortView<1>>,
    pub program_memory: Seq<U<INSTRUCTION_BITS>>,
    pub working_memory: Seq<U<WORKING_BITS>>,
}

impl ComputerState {
    /// The state has as many ports, pins and memory cells as the architecture says.
    pub open spec fn wf(self) -> bool {
        &&& self.ports.len() == NUM_PORTS
        &&& self.pins.len() == NUM_PINS
        &&& self.program_memory.len() == PROGRAM_MEMORY_SIZE
        &&& self.working_memory.len() == WORKING_MEMORY_SIZE
    }

    /// Every port and pin is backed by a cell of its width in a bus of this shape.
    pub open spec fn attached(self, shape: Seq<nat>) -> bool {
        &&& forall|i: int|
            0 <= i < self.ports.len() ==> (#[trigger] self.ports[i]).store.width == PORT_BITS
                && self.ports[i].store.fits(shape)
        &&& forall|i: int|
            0 <= i < self.pins.len() ==> (#[trigger] self.pins[i]).store.width == 1
                && self.pins[i].store.fits(shape)
    }

    /// The register with index `id`: the accumulator, X, Y or Z.
    pub open spec fn register(self, id: nat) -> U<WORKING_BITS> {
        if id == 0 {
            self.accumulator
        } else if id == 1 {
            self.x
        } else if id == 2 {
            self.y
        } else {
            self.z
        }
    }

    /// The state with `value` in the register with index `id`.
    pub open spec fn with_register(self, id: nat, value: U<WORKING_BITS>) -> ComputerState {
        if id == 0 {
            ComputerState { accumulator: value, ..self }
        } else if id == 1 {
            ComputerState { x: value, ..self }
        } else if id == 2 {
            ComputerState { y: value, ..self }
        } else {
            ComputerState { z: value, ..self }
        }
    }

    /// The address of the next instruction: the page address in the high
    /// bits, the program counter in the low `PC_BITS` bits.
    pub open spec fn program_address(self) -> nat {
        self.page_address@ * 64 + self.program_counter@
    }

    /// The address of the working-memory cell that `STR` and `LOD` use: X
    /// in the high bits, Y in the low `WORKING_BITS` bits.
    pub open spec fn working_address(self) -> nat {
        self.x@ * 16 + self.y@
    }

    /// The instruction word at the program address.
    pub open spec fn fetch(self) -> U<INSTRUCTION_BITS> {
        self.program_memory[self.program_address() as int]
    }

    /// The state with the program counter moved on by one within its page.
    pub open spec fn advance(self) -> ComputerState {
        ComputerState { program_counter: U::of_nat(self.program_counter@ + 1), ..self }
    }

    /// The state after `instruction` has been executed, where `cells` are
    /// the cells of the bus.
    ///
    /// A taken `BRN` under the subroutine jump flag stays on the page and
    /// records the program counter, which has already moved past the `BRN`,
    /// as the address that `RET` returns to. A taken `BRN` leaves the status
    /// flag as it is.
    pub open spec fn execute(self, instruction: Instruction, cells: Seq<CellView>) -> ComputerState {
        match instruction {
            Instruction::NOP => self,
            Instruction::STR { register_id } => ComputerState {
                working_memory: self.working_memory.update(
                    self.working_address() as int,
                    self.register(register_id@),
                ),
                ..self
            },
            Instruction::LOD { register_id } => self.with_register(
                register_id@,
                self.working_memory[self.working_address() as int],
            ),
            Instruction::LDI { register_id, immediate } => self.with_register(
                register_id@,
                immediate,
            ),
            Instruction::INC { register_id } => self.with_register(
                register_id@,
                U::of_nat(self.register(register_id@)@ + 1),
            ),
            Instruction::DEC { register_id } => self.with_register(
                register_id@,
                U::of_nat(((self.register(register_id@)@ - 1) % 16) as nat),
            ),
            Instruction::MOV { register_from_id, register_to_id } => self.with_register(
                register_to_id@,
                self.register(register_from_id@),
            ),
            Instruction::INP { port_id } => {
                let port = self.ports[port_id@ as int];
                ComputerState {
                    z: U::of_nat(cells[port.store.index as int].value),
                    ports: self.ports.update(
                        port_id@ as int,
                        DevicePortView { writing: false, ..port },
                    ),
                    ..self
                }
            },
            Instruction::OUT { port_id } => {
                let port = self.ports[port_id@ as int];
                ComputerState {
                    ports: self.ports.update(
                        port_id@ as int,
                        DevicePortView { write_val: self.z, writing: true, ..port },
                    ),
                    ..self
                }
            },
            Instruction::SEP { pin_id } => {
                let pin = self.pins[pin_id@ as int];
                ComputerState {
                    pins: self.pins.update(
                        pin_id@ as int,
                        DevicePortView { write_val: U::of_nat(1), writing: true, ..pin },
                    ),
                    ..self
                }
            },
            Instruction::RSP { pin_id } => {
                let pin = self.pins[pin_id@ as int];
                ComputerState {
                    pins: self.pins.update(
                        pin_id@ as int,
                        DevicePortView { write_val: U::of_nat(0), writing: true, ..pin },
                    ),
                    ..self
                }
            },
            Instruction::ADD { register_id } => ComputerState {
                accumulator: U::of_nat(self.accumulator@ + self.register(register_id@)@),
                ..self
            },
            Instruction::SUB { register_id } => ComputerState {
                accumulator: U::of_nat(
                    ((self.accumulator@ - self.register(register_id@)@) % 16) as nat,
                ),
                ..self
            },
            Instruction::BOR { register_id } => ComputerState {
                accumulator: self.accumulator.bitor_spec(self.register(register_id@)),
                ..self
            },
            Instruction::AND { register_id } => ComputerState {
                accumulator: self.accumulator.bitand_spec(self.register(register_id@)),
                ..self
            },
            Instruction::CMP { register_id } => ComputerState {
                status_flag: self.accumulator@ == self.register(register_id@)@,
                ..self
            },
            Instruction::GRT { register_id } => ComputerState {
                status_flag: self.accumulator@ > self.register(register_id@)@,
                ..self
            },
            Instruction::LES { register_id } => ComputerState {
                status_flag: self.accumulator@ < self.register(register_id@)@,
                ..self
            },
            Instruction::BRN { immediate } => {
                if !self.status_flag {
                    self
                } else if self.subroutine_jump_flag {
                    ComputerState {
                        subroutine_ret_addr: self.program_counter,
                        program_counter: immediate,
                        ..self
                    }
                } else {
                    ComputerState {
                        page_address: self.page_buffer,
                        program_counter: immediate,
                        ..self
                    }
                }
            },
            Instruction::LPB { immediate } => ComputerState { page_buffer: immediate, ..self },
            Instruction::SSF => ComputerState { status_flag: true, ..self },
            Instruction::RSF => ComputerState { status_flag: false, ..self },
            Instruction::SSJ => ComputerState { subroutine_jump_flag: true, ..self },
            Instruction::RSJ => ComputerState { subroutine_jump_flag: false, ..self },
            Instruction::RET => ComputerState { program_counter: self.subroutine_ret_addr, ..self },
        }
    }

    /// The state after one tick: the instruction at the program address is
    /// fetched, the program counter moves on, and the instruction is executed.
    pub open spec fn step(self, cells: Seq<CellView>) -> ComputerState {
        self.advance().execute(decode_spec(self.fetch()@), cells)
    }

    /// The cells after every port and then every pin has ticked, in index order.
    pub open spec fn commit(self, tick: u32, cells: Seq<CellView>) -> Seq<CellView> {
        commit_all(self.pins, NUM_PINS as nat, tick, commit_all(self.ports, NUM_PORTS as nat, tick, cells))
    }
}

/// Each register index names a register of its own: writing the register
/// with one index is read back under that index and leaves the registers
/// with the other indices as they were.
pub proof fn lemma_registers_distinct(
    state: ComputerState,
    id: U<REGISTER_INDEX_BITS>,
    other: U<REGISTER_INDEX_BITS>,
    value: U<WORKING_BITS>,
)
    ensures
        id@ < 4,
        state.with_register(id@, value).register(id@) == value,
        id != other ==> id@ != other@ && state.with_register(id@, value).register(other@)
            == state.register(other@),
{
    id.lemma_range();
    other.lemma_range();
    lemma2_to64();
    if id@ == other@ {
        U::<REGISTER_INDEX_BITS>::lemma_view_injective(id, other);
    }
}

/// The program address is the page address shifted left by `PC_BITS`, or-ed
/// with the program counter, and names a word of program memory.
pub proof fn lemma_program_address(state: ComputerState)
    ensures
        state.program_address() == U::<PROGRAM_ADDRESS_BITS>::of_nat(
            state.page_address@,
        ).shl_spec(PC_BITS).bitor_spec(U::<PROGRAM_ADDRESS_BITS>::of_nat(state.program_counter@))@,
        state.program_address() < PROGRAM_MEMORY_SIZE,
{
    lemma2_to64();
    state.page_address.lemma_range();
    state.program_counter.lemma_range();
    let page = U::<PROGRAM_ADDRESS_BITS>::of_nat(state.page_address@);
    let counter = U::<PROGRAM_ADDRESS_BITS>::of_nat(state.program_counter@);
    U::<PROGRAM_ADDRESS_BITS>::lemma_of_nat(state.page_address@);
    U::<PROGRAM_ADDRESS_BITS>::lemma_of_nat(state.program_counter@);
    let high = page.shl_spec(PC_BITS);
    U::<PROGRAM_ADDRESS_BITS>::lemma_of_nat(page@ * pow2(PC_BITS as nat));
    assert(page@ * 64 < 1024);
    assert((page@ * 64) % 64 == 0);
    U::<PROGRAM_ADDRESS_BITS>::lemma_or_disjoint(high, counter, PC_BITS as nat);
}

/// The working-memory address is X shifted left by `WORKING_BITS`, or-ed
/// with Y, and names a cell of working memory.
pub proof fn lemma_working_address(state: ComputerState)
    ensures
        state.working_address() == U::<WORKING_ADDRESS_BITS>::of_nat(state.x@).shl_spec(
            WORKING_BITS,
        ).bitor_spec(U::<WORKING_ADDRESS_BITS>::of_nat(state.y@))@,
        state.working_address() < WORKING_MEMORY_SIZE,
{
    lemma2_to64();
    state.x.lemma_range();
    state.y.lemma_range();
    let x = U::<WORKING_ADDRESS_BITS>::of_nat(state.x@);
    let y = U::<WORKING_ADDRESS_BITS>::of_nat(state.y@);
    U::<WORKING_ADDRESS_BITS>::lemma_of_nat(state.x@);
    U::<WORKING_ADDRESS_BITS>::lemma_of_nat(state.y@);
    let high = x.shl_spec(WORKING_BITS);
    U::<WORKING_ADDRESS_BITS>::lemma_of_nat(x@ * pow2(WORKING_BITS as nat));
    assert(x@ * 16 < 256);
    assert((x@ * 16) % 16 == 0);
    U::<WORKING_ADDRESS_BITS>::lemma_or_disjoint(high, y, WORKING_BITS as nat);
}

/// `STR` writes, and `LOD` reads, the working-memory cell at the address
/// that X and Y form.
pub proof fn lemma_working_memory_access(
    state: ComputerState,
    register_id: U<REGISTER_INDEX_BITS>,
    cells: Seq<CellView>,
)
    requires
        state.wf(),
    ensures
        state.execute(Instruction::STR { register_id }, cells).working_memory[state.working_address() as int]
            == state.register(register_id@),
        state.execute(Instruction::LOD { register_id }, cells).register(register_id@)
            == state.working_memory[state.working_address() as int],
{
    lemma_working_address(state);
    lemma_registers_distinct(
        state,
        register_id,
        register_id,
        state.working_memory[state.working_address() as int],
    );
}

/// Advancing moves the program counter on by one modulo `2^PC_BITS` and
/// leaves everything else, the page address among it, as it was.
pub proof fn lemma_advance(state: ComputerState)
    ensures
        state.advance().program_counter@ == (state.program_counter@ + 1) % 64,
        state.advance().page_address == state.page_address,
        state.advance() == (ComputerState {
            program_counter: state.advance().program_counter,
            ..state
        }),
{
    lemma2_to64();
    U::<PC_BITS>::lemma_of_nat(state.program_counter@ + 1);
}

/// `LPB` leaves the page address alone. A taken `BRN` moves to the page in
/// the page buffer unless the subroutine jump flag is set, in which case
/// it stays on the page.
pub proof fn lemma_page_address(
    state: ComputerState,
    page: U<PA_BITS>,
    target: U<PC_BITS>,
    cells: Seq<CellView>,
)
    ensures
        state.execute(Instruction::LPB { immediate: page }, cells).page_address
            == state.page_address,
        state.execute(Instruction::LPB { immediate: page }, cells).page_buffer == page,
        state.status_flag && !state.subroutine_jump_flag ==> state.execute(
            Instruction::BRN { immediate: target },
            cells,
        ).page_address == state.page_buffer,
        state.status_flag && state.subroutine_jump_flag ==> state.execute(
            Instruction::BRN { immediate: target },
            cells,
        ).page_address == state.page_address,
        state.status_flag ==> state.execute(
            Instruction::BRN { immediate: target },
            cells,
        ).program_counter == target,
{
}

/// Whether an instruction writes the status flag.
pub open spec fn writes_status_flag(instruction: Instruction) -> bool {
    instruction is SSF || instruction is RSF || instruction is CMP || instruction is GRT
        || instruction is LES
}

/// Only `SSF`, `RSF`, `CMP`, `GRT` and `LES` change the status flag, and a
/// `BRN` that finds the status flag cleared changes nothing.
pub proof fn lemma_status_flag(state: ComputerState, instruction: Instruction, cells: Seq<CellView>)
    ensures
        !writes_status_flag(instruction) ==> state.execute(instruction, cells).status_flag
            == state.status_flag,
        instruction is BRN && !state.status_flag ==> state.execute(instruction, cells) == state,
{
}

} // verus!
