//! A port: a device's face of `N` bits on a shared store.

use vstd::prelude::*;
use vstd::arithmetic::power2::pow2;
use vstd::arithmetic::div_mod::lemma_small_mod;
use crate::device::bus::{Bus, CellView, StoreRef};
use crate::device::connectable::Connectable;
use crate::device::Device;
use crate::un::{lemma_pow2_monotonic, U};

verus! {

/// What a `DevicePort` holds.
pub ghost struct DevicePortView<const N: usize> {
    /// The handle of the cell that backs the port.
    pub store: StoreRef,
    /// The value that the port drives onto its cell while writing.
    pub write_val: U<N>,
    /// Whether the port is driving its cell.
    pub writing: bool,
}

impl<const N: usize> DevicePortView<N> {
    /// The cells after the port has ticked: while writing, the port's cell
    /// holds the driven value, stamped with the tick.
    pub open spec fn commit(self, tick: u32, cells: Seq<CellView>) -> Seq<CellView> {
        if self.writing {
            cells.update(
                self.store.index as int,
                CellView { width: N as nat, value: self.write_val@, store_tick: tick },
            )
        } else {
            cells
        }
    }
}

/// A port of `N` bits. A write is latched in the port and committed to the
/// port's cell on every tick until the port is read.
#[derive(Debug, Clone, Copy)]
pub struct DevicePort<const N: usize> {
    store: StoreRef,
    write_val: U<N>,
    writing: bool,
}

impl<const N: usize> View for DevicePort<N> {
    type V = DevicePortView<N>;

    closed spec fn view(&self) -> DevicePortView<N> {
        DevicePortView { store: self.store, write_val: self.write_val, writing: self.writing }
    }
}

impl<const N: usize> DevicePort<N> {
    /// Whether the port's handle names a cell of `N` bits in a bus of this shape.
    pub open spec fn fits(&self, shape: Seq<nat>) -> bool {
        self@.store.width == N && self@.store.fits(shape)
    }

    /// A port backed by a new cell of `bus`, which holds zero. The port is
    /// refused where the bus cannot hold cells of `N` bits.
    pub fn new<const W: usize>(bus: &mut Bus<W>) -> (r: Option<Self>)
        requires
            old(bus).wf(),
        ensures
            final(bus).wf(),
            r.is_some() <==> N <= W,
            N > W ==> final(bus)@ == old(bus)@,
            N <= W ==> final(bus)@ == old(bus)@.push(
                CellView { width: N as nat, value: 0, store_tick: 0 },
            ) && r.unwrap()@.store.index == old(bus)@.len() && r.unwrap()@.write_val@ == 0
                && !r.unwrap()@.writing && r.unwrap().fits(final(bus).shape()),
    {
        match bus.add_store(N) {
            Some(store) => {
                let port = DevicePort { store, write_val: U::new(), writing: false };
                Some(port)
            },
            None => None,
        }
    }

    /// The value of the port's cell. Reading stops the port from driving its cell.
    pub fn read<const W: usize>(&mut self, bus: &Bus<W>) -> (r: U<N>)
        requires
            bus.wf(),
            old(self).fits(bus.shape()),
        ensures
            r@ == bus@[old(self)@.store.index as int].value,
            final(self)@ == (DevicePortView { writing: false, ..old(self)@ }),
    {
        self.writing = false;
        let wide = bus.get(self.store);
        proof {
            lemma_small_mod(wide@, pow2(N as nat));
        }
        wide.change_bits::<N>()
    }

    /// Latches `value`: from the next tick on the port drives it onto its cell.
    pub fn write(&mut self, value: U<N>)
        ensures
            final(self)@ == (DevicePortView { write_val: value, writing: true, ..old(self)@ }),
    {
        self.write_val = value;
        self.writing = true;
    }
}

impl<const N: usize> Device for DevicePort<N> {
    type State = DevicePortView<N>;

    open spec fn state(&self) -> DevicePortView<N> {
        self@
    }

    open spec fn attached(&self, shape: Seq<nat>) -> bool {
        self.fits(shape)
    }

    open spec fn next_state(
        state: DevicePortView<N>,
        tick: u32,
        cells: Seq<CellView>,
    ) -> DevicePortView<N> {
        state
    }

    open spec fn next_cells(
        state: DevicePortView<N>,
        tick: u32,
        cells: Seq<CellView>,
    ) -> Seq<CellView> {
        state.commit(tick, cells)
    }

    /// While the port is writing, commits the latched value to the port's
    /// cell, stamped with `tick`.
    fn tick<const W: usize>(&mut self, tick: u32, bus: &mut Bus<W>) {
        if self.writing {
            proof {
                bus.lemma_cell_range(self.store.index as int);
                self.write_val.lemma_range();
                lemma_pow2_monotonic(N as nat, W as nat);
                lemma_small_mod(self.write_val@, pow2(N as nat));
            }
            bus.set(self.store, self.write_val.change_bits::<W>(), tick);
        }
    }
}

impl<const N: usize> Connectable for DevicePort<N> {
    type Rest = (U<N>, bool);

    open spec fn store_ref(&self) -> StoreRef {
        self@.store
    }

    /// The value that the port drives, and whether it is driving.
    open spec fn rest(&self) -> (U<N>, bool) {
        (self@.write_val, self@.writing)
    }

    fn get_value_ref(&self) -> (r: StoreRef) {
        self.store
    }

    fn connect_to(&mut self, other: StoreRef) -> (connected: bool) {
        if other.width == self.store.width {
            self.store = other;
            true
        } else {
            false
        }
    }
}

} // verus!
