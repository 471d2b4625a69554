//! Devices: whatever takes part in the simulation by being ticked.

use vstd::prelude::*;
use crate::device::bus::{Bus, CellView};

pub mod bus;
pub mod connectable;
pub mod console;
pub mod store;

verus! {

/// A participant of the simulation. Each tick a device reads and writes the
/// cells of the bus that it holds handles to.
pub trait Device {
    /// What the device's behaviour depends on.
    type State;

    /// The device's present state.
    spec fn state(&self) -> Self::State;

    /// Whether every handle of the device names a cell of a bus of this shape.
    spec fn attached(&self, shape: Seq<nat>) -> bool;

    /// The state after a tick.
    spec fn next_state(state: Self::State, tick: u32, cells: Seq<CellView>) -> Self::State;

    /// The cells of the bus after a tick.
    spec fn next_cells(state: Self::State, tick: u32, cells: Seq<CellView>) -> Seq<CellView>;

    /// Advances the device by one tick.
    fn tick<const W: usize>(&mut self, tick: u32, bus: &mut Bus<W>)
        requires
            old(bus).wf(),
            old(self).attached(old(bus).shape()),
        ensures
            final(bus).wf(),
            final(self).state() == Self::next_state(old(self).state(), tick, old(bus)@),
            final(bus)@ == Self::next_cells(old(self).state(), tick, old(bus)@),
            final(bus).shape() == old(bus).shape(),
            final(self).attached(final(bus).shape()),
    ;
}

/// Two devices as one: in each tick the first ticks, then the second.
impl<A: Device, B: Device> Device for (A, B) {
    type State = (A::State, B::State);

    open spec fn state(&self) -> (A::State, B::State) {
        (self.0.state(), self.1.state())
    }

    open spec fn attached(&self, shape: Seq<nat>) -> bool {
        self.0.attached(shape) && self.1.attached(shape)
    }

    open spec fn next_state(state: (A::State, B::State), tick: u32, cells: Seq<CellView>) -> (
        A::State,
        B::State,
    ) {
        (
            A::next_state(state.0, tick, cells),
            B::next_state(state.1, tick, A::next_cells(state.0, tick, cells)),
        )
    }

    open spec fn next_cells(state: (A::State, B::State), tick: u32, cells: Seq<CellView>) -> Seq<
        CellView,
    > {
        B::next_cells(state.1, tick, A::next_cells(state.0, tick, cells))
    }

    fn tick<const W: usize>(&mut self, tick: u32, bus: &mut Bus<W>) {
        self.0.tick(tick, bus);
        self.1.tick(tick, bus);
    }
}

} // verus!
