//! The shared stores through which devices talk to each other.
//!
//! A bus is a flat population of cells. Each cell has a width in bits, a
//! value below two to that width, and the tick of its last write. Devices
//! hold handles to cells; two devices that hold a handle to the same cell
//! are connected.

use vstd::prelude::*;
use vstd::arithmetic::power2::{pow2, lemma_pow2_pos};
use crate::device::store::Store;
use crate::un::{lemma_pow2_monotonic, U};

verus! {

/// What a cell of the bus holds.
pub ghost struct CellView {
    pub width: nat,
    pub value: nat,
    pub store_tick: u32,
}

/// The widths of the cells of a bus, in order.
pub open spec fn shape_of(cells: Seq<CellView>) -> Seq<nat> {
    cells.map_values(|c: CellView| c.width)
}

/// A handle to a cell of a bus.
#[derive(Debug, Clone, Copy, PartialEq, Eq)]
pub struct StoreRef {
    pub index: usize,
    pub width: usize,
}

impl StoreRef {
    /// Whether the handle names a cell of the right width in a bus of the given shape.
    pub open spec fn fits(self, shape: Seq<nat>) -> bool {
        self.index < shape.len() && shape[self.index as int] == self.width
    }
}

/// A population of shared cells, each at most `W` bits wide.
pub struct Bus<const W: usize> {
    cells: Vec<Store<U<W>>>,
    widths: Vec<usize>,
}

impl<const W: usize> View for Bus<W> {
    type V = Seq<CellView>;

    closed spec fn view(&self) -> Seq<CellView> {
        Seq::new(
            self.cells@.len(),
            |i: int|
                CellView {
                    width: self.widths@[i] as nat,
                    value: self.cells@[i]@.value@,
                    store_tick: self.cells@[i]@.store_tick,
                },
        )
    }
}

impl<const W: usize> Bus<W> {
    /// Every cell is at most `W` bits wide and holds a value below two to
    /// its width.
    pub closed spec fn wf(self) -> bool {
        &&& self.widths@.len() == self.cells@.len()
        &&& forall|i: int| 0 <= i < self.widths@.len() ==> #[trigger] self.widths@[i] <= W
        &&& forall|i: int|
            0 <= i < self.cells@.len() ==> (#[trigger] self.cells@[i])@.value@ < pow2(
                self.widths@[i] as nat,
            )
    }

    /// The widths of the cells, in order.
    pub open spec fn shape(&self) -> Seq<nat> {
        shape_of(self@)
    }

    /// What well-formedness says of each cell.
    pub proof fn lemma_cell_range(self, i: int)
        requires
            self.wf(),
            0 <= i < self@.len(),
        ensures
            self@[i].width <= W,
            self@[i].value < pow2(self@[i].width),
            self@[i].value < pow2(W as nat),
    {
        assert(self.widths@[i] <= W);
        assert(self.cells@[i]@.value@ < pow2(self.widths@[i] as nat));
        lemma_pow2_monotonic(self@[i].width, W as nat);
    }

    /// A bus without cells.
    pub fn new() -> (r: Self)
        ensures
            r@.len() == 0,
            r.wf(),
    {
        Bus { cells: Vec::new(), widths: Vec::new() }
    }

    /// The number of cells.
    pub fn len(&self) -> (n: usize)
        ensures
            n == self@.len(),
    {
        self.cells.len()
    }

    /// Adds a cell of `width` bits that holds zero, written at tick zero, and
    /// returns its handle. A cell wider than `W` bits is refused.
    pub fn add_store(&mut self, width: usize) -> (r: Option<StoreRef>)
        requires
            old(self).wf(),
        ensures
            final(self).wf(),
            r.is_some() <==> width <= W,
            width <= W ==> r.unwrap().index == old(self)@.len() && r.unwrap().width == width
                && r.unwrap().fits(final(self).shape()) && final(self)@ == old(self)@.push(
                CellView { width: width as nat, value: 0, store_tick: 0 },
            ),
            width > W ==> final(self)@ == old(self)@,
    {
        if width > W {
            return None;
        }
        let index = self.cells.len();
        self.cells.push(Store::new(U::new()));
        self.widths.push(width);
        proof {
            lemma_pow2_pos(width as nat);
            assert forall|i: int| 0 <= i < self.widths@.len() implies #[trigger] self.widths@[i]
                <= W by {
                if i < old(self).widths@.len() {
                    assert(self.widths@[i] == old(self).widths@[i]);
                }
            }
            assert forall|i: int| 0 <= i < self.cells@.len() implies (#[trigger] self.cells@[i])@.value@
                < pow2(self.widths@[i] as nat) by {
                if i < old(self).cells@.len() {
                    assert(self.cells@[i] == old(self).cells@[i]);
                }
            }
            assert(self@ =~= old(self)@.push(
                CellView { width: width as nat, value: 0, store_tick: 0 },
            ));
        }
        Some(StoreRef { index, width })
    }

    /// Whether `id` names a cell of this bus, of the width that `id` says.
    pub fn contains(&self, id: StoreRef) -> (r: bool)
        requires
            self.wf(),
        ensures
            r == id.fits(self.shape()),
    {
        id.index < self.cells.len() && self.widths[id.index] == id.width
    }

    /// The value of the cell `id`.
    pub fn get(&self, id: StoreRef) -> (r: U<W>)
        requires
            self.wf(),
            id.fits(self.shape()),
        ensures
            r@ == self@[id.index as int].value,
            r@ < pow2(id.width as nat),
            id.width <= W,
    {
        self.cells[id.index].get()
    }

    /// The tick at which the cell `id` was last written.
    pub fn get_store_tick(&self, id: StoreRef) -> (r: u32)
        requires
            self.wf(),
            id.fits(self.shape()),
        ensures
            r == self@[id.index as int].store_tick,
    {
        self.cells[id.index].get_store_tick()
    }

    /// Writes the low bits of `value`, as many as the cell is wide, to the
    /// cell `id`, stamped with `tick`.
    pub fn set(&mut self, id: StoreRef, value: U<W>, tick: u32)
        requires
            old(self).wf(),
            id.fits(old(self).shape()),
        ensures
            final(self).wf(),
            final(self)@ == old(self)@.update(
                id.index as int,
                CellView {
                    width: id.width as nat,
                    value: value@ % pow2(id.width as nat),
                    store_tick: tick,
                },
            ),
            final(self).shape() == old(self).shape(),
    {
        let masked = value.truncate(id.width);
        self.cells[id.index].set(masked, tick);
        proof {
            lemma_pow2_pos(id.width as nat);
            vstd::arithmetic::div_mod::lemma_mod_bound(value@ as int, pow2(id.width as nat) as int);
            assert forall|i: int| 0 <= i < self.cells@.len() implies (#[trigger] self.cells@[i])@.value@
                < pow2(self.widths@[i] as nat) by {
                if i != id.index {
                    assert(self.cells@[i] == old(self).cells@[i]);
                }
            }
            assert(self@ =~= old(self)@.update(
                id.index as int,
                CellView {
                    width: id.width as nat,
                    value: value@ % pow2(id.width as nat),
                    store_tick: tick,
                },
            ));
            assert(self.shape() =~= old(self).shape());
        }
    }
}

} // verus!
