//! A pin: a port of one bit.

use vstd::prelude::*;
use crate::device::bus::{Bus, CellView, StoreRef};
use crate::device::connectable::device_port::{DevicePort, DevicePortView};
use crate::device::connectable::Connectable;
use crate::device::Device;
use crate::un::U;

verus! {

/// A pin, which behaves as a port of one bit. Its view is that port's.
#[derive(Debug, Clone, Copy)]
pub struct DevicePin {
    port: DevicePort<1>,
}

impl View for DevicePin {
    type V = DevicePortView<1>;

    closed spec fn view(&self) -> DevicePortView<1> {
        self.port@
    }
}

impl DevicePin {
    /// Whether the pin's handle names a cell of one bit in a bus of this shape.
    pub open spec fn fits(&self, shape: Seq<nat>) -> bool {
        self@.store.width == 1 && self@.store.fits(shape)
    }

    /// A pin backed by a new cell of `bus`, which holds zero. The pin is
    /// refused where the bus cannot hold cells of one bit.
    pub fn new<const W: usize>(bus: &mut Bus<W>) -> (r: Option<Self>)
        requires
            old(bus).wf(),
        ensures
            final(bus).wf(),
            r.is_some() <==> 1 <= W,
            1 > W ==> final(bus)@ == old(bus)@,
            1 <= W ==> final(bus)@ == old(bus)@.push(
                CellView { width: 1, value: 0, store_tick: 0 },
            ) && r.unwrap()@.store.index == old(bus)@.len() && r.unwrap()@.write_val@ == 0
                && !r.unwrap()@.writing && r.unwrap().fits(final(bus).shape()),
    {
        match DevicePort::<1>::new(bus) {
            Some(port) => Some(DevicePin { port }),
            None => None,
        }
    }

    /// The value of the pin's cell. Reading stops the pin from driving its cell.
    pub fn read<const W: usize>(&mut self, bus: &Bus<W>) -> (r: U<1>)
        requires
            bus.wf(),
            old(self).fits(bus.shape()),
        ensures
            r@ == bus@[old(self)@.store.index as int].value,
            final(self)@ == (DevicePortView { writing: false, ..old(self)@ }),
    {
        self.port.read(bus)
    }

    /// Latches `value`: from the next tick on the pin drives it onto its cell.
    pub fn write(&mut self, value: U<1>)
        ensures
            final(self)@ == (DevicePortView { write_val: value, writing: true, ..old(self)@ }),
    {
        self.port.write(value)
    }
}

impl Device for DevicePin {
    type State = DevicePortView<1>;

    open spec fn state(&self) -> DevicePortView<1> {
        self@
    }

    open spec fn attached(&self, shape: Seq<nat>) -> bool {
        self.fits(shape)
    }

    open spec fn next_state(
        state: DevicePortView<1>,
        tick: u32,
        cells: Seq<CellView>,
    ) -> DevicePortView<1> {
        state
    }

    open spec fn next_cells(
        state: DevicePortView<1>,
        tick: u32,
        cells: Seq<CellView>,
    ) -> Seq<CellView> {
        state.commit(tick, cells)
    }

    /// While the pin is writing, commits the latched value to the pin's
    /// cell, stamped with `tick`.
    fn tick<const W: usize>(&mut self, tick: u32, bus: &mut Bus<W>) {
        self.port.tick(tick, bus)
    }
}

impl Connectable for DevicePin {
    type Rest = (U<1>, bool);

    open spec fn store_ref(&self) -> StoreRef {
        self@.store
    }

    /// The value that the pin drives, and whether it is driving.
    open spec fn rest(&self) -> (U<1>, bool) {
        (self@.write_val, self@.writing)
    }

    fn get_value_ref(&self) -> (r: StoreRef) {
        self.port.get_value_ref()
    }

    fn connect_to(&mut self, other: StoreRef) -> (connected: bool) {
        self.port.connect_to(other)
    }
}

} // verus!
