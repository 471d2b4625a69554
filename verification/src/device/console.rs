//! The console: a peripheral that emits one byte whenever its strobe rises.

use vstd::prelude::*;
use vstd::arithmetic::power2::lemma2_to64;
use crate::device::bus::{Bus, CellView};
use crate::device::connectable::device_pin::DevicePin;
use crate::device::connectable::device_port::{DevicePort, DevicePortView};
use crate::device::Device;

verus! {

/// What a `Console` holds.
pub ghost struct ConsoleView {
    /// The port of eight bits on which the byte to emit is read.
    pub ascii: DevicePortView<8>,
    /// The strobe pin.
    pub write: DevicePortView<1>,
    /// The strobe as the previous tick saw it.
    pub previous_write: bool,
    /// The bytes emitted and not yet taken.
    pub output: Seq<u8>,
}

impl ConsoleView {
    /// Whether the port and the pin are backed by cells of their widths in a
    /// bus of this shape.
    pub open spec fn fits(self, shape: Seq<nat>) -> bool {
        &&& self.ascii.store.width == 8
        &&& self.ascii.store.fits(shape)
        &&& self.write.store.width == 1
        &&& self.write.store.fits(shape)
    }

    /// Whether the strobe is high in `cells`.
    pub open spec fn strobe(self, cells: Seq<CellView>) -> bool {
        cells[self.write.store.index as int].value == 1
    }

    /// The state after a tick. The pin is read; where the strobe is high and
    /// was low at the previous tick, the port is read and its byte emitted.
    pub open spec fn step(self, cells: Seq<CellView>) -> ConsoleView {
        let rising = self.strobe(cells) && !self.previous_write;
        ConsoleView {
            ascii: if rising {
                DevicePortView { writing: false, ..self.ascii }
            } else {
                self.ascii
            },
            write: DevicePortView { writing: false, ..self.write },
            previous_write: self.strobe(cells),
            output: if rising {
                self.output.push((cells[self.ascii.store.index as int].value % 256) as u8)
            } else {
                self.output
            },
        }
    }
}

/// A console. On each rising edge of its strobe pin it emits the byte on
/// its port. The bytes are collected until they are taken.
pub struct Console {
    ascii: DevicePort<8>,
    write: DevicePin,
    previous_write: bool,
    output: Vec<u8>,
}

impl View for Console {
    type V = ConsoleView;

    closed spec fn view(&self) -> ConsoleView {
        ConsoleView {
            ascii: self.ascii@,
            write: self.write@,
            previous_write: self.previous_write,
            output: self.output@,
        }
    }
}

impl Console {
    /// A console whose port and pin are backed by new cells of `bus`. The
    /// console is refused, and the bus left as it is, where the bus cannot
    /// hold cells of eight bits.
    pub fn new<const W: usize>(bus: &mut Bus<W>) -> (r: Option<Self>)
        requires
            old(bus).wf(),
        ensures
            final(bus).wf(),
            r.is_some() <==> 8 <= W,
            r.is_none() ==> final(bus)@ == old(bus)@,
            r.is_some() ==> {
                &&& final(bus)@ == old(bus)@.push(
                    CellView { width: 8, value: 0, store_tick: 0 },
                ).push(CellView { width: 1, value: 0, store_tick: 0 })
                &&& r.unwrap()@.ascii.store.index == old(bus)@.len()
                &&& r.unwrap()@.write.store.index == old(bus)@.len() + 1
                &&& !r.unwrap()@.previous_write
                &&& r.unwrap()@.output.len() == 0
                &&& r.unwrap()@.fits(final(bus).shape())
            },
    {
        if W < 8 {
            return None;
        }
        let ascii = DevicePort::<8>::new(bus).unwrap();
        let write = DevicePin::new(bus).unwrap();
        Some(Console { ascii, write, previous_write: false, output: Vec::new() })
    }

    /// The port on which the byte to emit is read, to be connected.
    pub fn ascii_port(&mut self) -> (r: &mut DevicePort<8>)
        ensures
            r@ == old(self)@.ascii,
            final(self)@ == (ConsoleView { ascii: final(r)@, ..old(self)@ }),
    {
        &mut self.ascii
    }

    /// The strobe pin, to be connected.
    pub fn write_pin(&mut self) -> (r: &mut DevicePin)
        ensures
            r@ == old(self)@.write,
            final(self)@ == (ConsoleView { write: final(r)@, ..old(self)@ }),
    {
        &mut self.write
    }

    /// Hands out the bytes emitted since they were last taken.
    pub fn take_output(&mut self) -> (r: Vec<u8>)
        ensures
            r@ == old(self)@.output,
            final(self)@ == (ConsoleView { output: Seq::empty(), ..old(self)@ }),
    {
        let mut taken: Vec<u8> = Vec::new();
        core::mem::swap(&mut self.output, &mut taken);
        taken
    }
}

impl Device for Console {
    type State = ConsoleView;

    open spec fn state(&self) -> ConsoleView {
        self@
    }

    open spec fn attached(&self, shape: Seq<nat>) -> bool {
        self@.fits(shape)
    }

    open spec fn next_state(state: ConsoleView, tick: u32, cells: Seq<CellView>) -> ConsoleView {
        state.step(cells)
    }

    open spec fn next_cells(state: ConsoleView, tick: u32, cells: Seq<CellView>) -> Seq<CellView> {
        cells
    }

    /// Reads the strobe, and on its rising edge emits the byte on the port.
    fn tick<const W: usize>(&mut self, tick: u32, bus: &mut Bus<W>) {
        proof {
            lemma2_to64();
        }
        let new = self.write.read(bus) == 1u8.into();
        if new && !self.previous_write {
            let ascii: u8 = self.ascii.read(bus).into();
            self.output.push(ascii);
        }
        self.previous_write = new
    }
}

} // verus!
