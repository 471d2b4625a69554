//! A splitter: a bus node that keeps one wide cell and two narrower cells in
//! agreement.

use vstd::prelude::*;
use vstd::arithmetic::power2::{pow2, lemma_pow2_adds, lemma_pow2_pos};
use vstd::arithmetic::div_mod::{
    lemma_fundamental_div_mod, lemma_mod_pos_bound, lemma_small_mod,
};
use crate::bits::lemma_split_at;
use crate::device::bus::{shape_of, Bus, CellView, StoreRef};
use crate::device::connectable::Connectable;
use crate::device::Device;
use crate::un::{lemma_pow2_monotonic, U};

verus! {

/// The handles that a splitter holds.
pub ghost struct SpliterView {
    /// The cell of `N + M` bits.
    pub combined: StoreRef,
    /// The cell of `N` bits that mirrors the low bits of the combined cell.
    pub low_end: StoreRef,
    /// The cell of `M` bits that mirrors the high bits of the combined cell.
    pub high_end: StoreRef,
}

/// Whether every cell holds a value below two to its width.
pub open spec fn cells_in_range(cells: Seq<CellView>) -> bool {
    forall|i: int| 0 <= i < cells.len() ==> (#[trigger] cells[i]).value < pow2(cells[i].width)
}

impl SpliterView {
    /// Whether the three handles name cells of `n + m`, `n` and `m` bits in
    /// a bus of this shape.
    pub open spec fn fits(self, n: nat, m: nat, shape: Seq<nat>) -> bool {
        &&& self.combined.width == n + m
        &&& self.low_end.width == n
        &&& self.high_end.width == m
        &&& self.combined.fits(shape)
        &&& self.low_end.fits(shape)
        &&& self.high_end.fits(shape)
    }

    /// Whether the three handles name three different cells.
    pub open spec fn distinct(self) -> bool {
        &&& self.combined.index != self.low_end.index
        &&& self.combined.index != self.high_end.index
        &&& self.low_end.index != self.high_end.index
    }

    /// The cells after the combined cell and the low end have been
    /// reconciled. Where the combined cell was written strictly later than
    /// the low end, the low end takes the `n` low bits of the combined cell.
    /// Where the low end was written strictly later, the combined cell
    /// takes the low end as its `n` low bits and keeps its other bits.
    /// Where both were written at the same tick, nothing changes. What is
    /// written is stamped with `tick`.
    pub open spec fn reconcile_low(self, n: nat, tick: u32, cells: Seq<CellView>) -> Seq<CellView> {
        let combined = cells[self.combined.index as int];
        let low = cells[self.low_end.index as int];
        if combined.store_tick > low.store_tick {
            cells.update(
                self.low_end.index as int,
                CellView { width: low.width, value: combined.value % pow2(n), store_tick: tick },
            )
        } else if low.store_tick > combined.store_tick {
            cells.update(
                self.combined.index as int,
                CellView {
                    width: combined.width,
                    value: join(combined.value / pow2(n), low.value, n),
                    store_tick: tick,
                },
            )
        } else {
            cells
        }
    }

    /// The cells after the combined cell and the high end have been
    /// reconciled. The two are compared by the ticks of their last writes as
    /// they stood in `began`, the cells when the tick began. Where the
    /// combined cell was written strictly later than the high end, the high
    /// end takes the bits of the combined cell from position `n` on. Where
    /// the high end was written strictly later, the combined cell takes the
    /// high end as its bits from position `n` on and keeps its `n` low bits.
    /// Where both were written at the same tick, nothing changes. What is
    /// written is stamped with `tick`.
    pub open spec fn reconcile_high(
        self,
        n: nat,
        tick: u32,
        began: Seq<CellView>,
        cells: Seq<CellView>,
    ) -> Seq<CellView> {
        let combined = cells[self.combined.index as int];
        let high = cells[self.high_end.index as int];
        let combined_tick = began[self.combined.index as int].store_tick;
        let high_tick = began[self.high_end.index as int].store_tick;
        if combined_tick > high_tick {
            cells.update(
                self.high_end.index as int,
                CellView { width: high.width, value: combined.value / pow2(n), store_tick: tick },
            )
        } else if high_tick > combined_tick {
            cells.update(
                self.combined.index as int,
                CellView {
                    width: combined.width,
                    value: join(high.value, combined.value % pow2(n), n),
                    store_tick: tick,
                },
            )
        } else {
            cells
        }
    }

    /// The cells after a tick of the splitter: the low end is reconciled
    /// with the combined cell, then the high end. Both ends are compared
    /// with the combined cell by the ticks of the last writes as they stood
    /// when the tick began.
    pub open spec fn reconcile(self, n: nat, tick: u32, cells: Seq<CellView>) -> Seq<CellView> {
        self.reconcile_high(n, tick, cells, self.reconcile_low(n, tick, cells))
    }

    /// Whether the three faces agree: the combined cell holds the high end
    /// above the low end.
    pub open spec fn coherent(self, n: nat, cells: Seq<CellView>) -> bool {
        cells[self.combined.index as int].value == join(
            cells[self.high_end.index as int].value,
            cells[self.low_end.index as int].value,
            n,
        )
    }

    /// Whether each end that was last written at the same tick as the
    /// combined cell already holds its part of the combined cell.
    pub open spec fn ties_agree(self, n: nat, cells: Seq<CellView>) -> bool {
        let combined = cells[self.combined.index as int];
        let low = cells[self.low_end.index as int];
        let high = cells[self.high_end.index as int];
        &&& combined.store_tick == low.store_tick ==> combined.value % pow2(n) == low.value
        &&& combined.store_tick == high.store_tick ==> combined.value / pow2(n) == high.value
    }

    /// Whether the combined cell was written strictly later than both ends.
    pub open spec fn combined_written_last(self, cells: Seq<CellView>) -> bool {
        let combined = cells[self.combined.index as int];
        combined.store_tick > cells[self.low_end.index as int].store_tick && combined.store_tick
            > cells[self.high_end.index as int].store_tick
    }

    /// Whether the low end was written strictly later than the two other faces.
    pub open spec fn low_written_last(self, cells: Seq<CellView>) -> bool {
        let low = cells[self.low_end.index as int];
        low.store_tick > cells[self.combined.index as int].store_tick && low.store_tick
            > cells[self.high_end.index as int].store_tick
    }

    /// Whether the high end was written strictly later than the two other faces.
    pub open spec fn high_written_last(self, cells: Seq<CellView>) -> bool {
        let high = cells[self.high_end.index as int];
        high.store_tick > cells[self.combined.index as int].store_tick && high.store_tick
            > cells[self.low_end.index as int].store_tick
    }

    /// Whether none of the three faces was written later than `tick`.
    pub open spec fn written_by(self, tick: u32, cells: Seq<CellView>) -> bool {
        &&& cells[self.combined.index as int].store_tick <= tick
        &&& cells[self.low_end.index as int].store_tick <= tick
        &&& cells[self.high_end.index as int].store_tick <= tick
    }
}

/// The value of `n + m` bits that holds `high` above the `n` bits of `low`.
pub open spec fn join(high: nat, low: nat, n: nat) -> nat {
    high * pow2(n) + low
}

/// The parts of a joined value are what was joined, and a value is its parts joined.
pub proof fn lemma_join(high: nat, low: nat, wide: nat, n: nat)
    ensures
        low < pow2(n) ==> join(high, low, n) % pow2(n) == low && join(high, low, n) / pow2(n)
            == high,
        join(wide / pow2(n), wide % pow2(n), n) == wide,
        wide % pow2(n) < pow2(n),
{
    lemma_pow2_pos(n);
    if low < pow2(n) {
        lemma_split_at(low, high, n);
    }
    lemma_fundamental_div_mod(wide as int, pow2(n) as int);
    lemma_mod_pos_bound(wide as int, pow2(n) as int);
    assert(join(wide / pow2(n), wide % pow2(n), n) == wide) by (nonlinear_arith)
        requires
            wide == pow2(n) * (wide / pow2(n)) + wide % pow2(n),
            join(wide / pow2(n), wide % pow2(n), n) == (wide / pow2(n)) * pow2(n) + wide % pow2(n),
    ;
}

/// What a wide value splits into, and what two narrow values join into, is
/// in range.
pub proof fn lemma_join_range(high: nat, low: nat, wide: nat, n: nat, m: nat)
    ensures
        wide < pow2(n + m) ==> wide / pow2(n) < pow2(m),
        high < pow2(m) && low < pow2(n) ==> join(high, low, n) < pow2(n + m),
{
    lemma_pow2_pos(n);
    lemma_pow2_adds(n, m);
    lemma_fundamental_div_mod(wide as int, pow2(n) as int);
    lemma_mod_pos_bound(wide as int, pow2(n) as int);
    let q: nat = wide / pow2(n);
    let r: nat = wide % pow2(n);
    let p: nat = pow2(n);
    let pm: nat = pow2(m);
    if wide < pow2(n + m) {
        assert(q < pm) by (nonlinear_arith)
            requires
                wide == p * q + r,
                wide < p * pm,
                r >= 0,
                p > 0,
        ;
    }
    if high < pm && low < p {
        assert(high * p + low < p * pm) by (nonlinear_arith)
            requires
                high < pm,
                low < p,
                p > 0,
        ;
    }
}

/// What a tick of a splitter on three different cells does to each face.
/// An end takes its part of the combined cell where the combined cell was
/// written strictly later, and is left alone otherwise. The combined cell
/// takes each end that was written strictly later than itself and keeps its
/// other part. No other cell changes.
pub proof fn lemma_reconcile_faces(
    view: SpliterView,
    n: nat,
    m: nat,
    tick: u32,
    cells: Seq<CellView>,
)
    requires
        view.fits(n, m, shape_of(cells)),
        view.distinct(),
        cells_in_range(cells),
    ensures
        ({
            let after = view.reconcile(n, tick, cells);
            let combined = cells[view.combined.index as int];
            let low = cells[view.low_end.index as int];
            let high = cells[view.high_end.index as int];
            &&& after.len() == cells.len()
            &&& shape_of(after) == shape_of(cells)
            &&& cells_in_range(after)
            &&& forall|i: int|
                0 <= i < cells.len() && i != view.combined.index && i != view.low_end.index && i
                    != view.high_end.index ==> after[i] == cells[i]
            &&& after[view.low_end.index as int] == if combined.store_tick > low.store_tick {
                CellView { width: n, value: combined.value % pow2(n), store_tick: tick }
            } else {
                low
            }
            &&& after[view.high_end.index as int] == if combined.store_tick > high.store_tick {
                CellView { width: m, value: combined.value / pow2(n), store_tick: tick }
            } else {
                high
            }
            &&& after[view.combined.index as int] == if low.store_tick > combined.store_tick
                || high.store_tick > combined.store_tick {
                CellView {
                    width: n + m,
                    value: join(
                        if high.store_tick > combined.store_tick {
                            high.value
                        } else {
                            combined.value / pow2(n)
                        },
                        if low.store_tick > combined.store_tick {
                            low.value
                        } else {
                            combined.value % pow2(n)
                        },
                        n,
                    ),
                    store_tick: tick,
                }
            } else {
                combined
            }
        }),
{
    let combined = cells[view.combined.index as int];
    let low = cells[view.low_end.index as int];
    let high = cells[view.high_end.index as int];
    assert(combined.width == n + m && low.width == n && high.width == m) by {
        assert(shape_of(cells)[view.combined.index as int] == combined.width);
        assert(shape_of(cells)[view.low_end.index as int] == low.width);
        assert(shape_of(cells)[view.high_end.index as int] == high.width);
    }
    lemma_pow2_pos(n);
    lemma_join(combined.value / pow2(n), low.value, combined.value, n);
    lemma_join(high.value, low.value, combined.value, n);
    lemma_join(high.value, combined.value % pow2(n), combined.value, n);
    lemma_join_range(combined.value / pow2(n), low.value, combined.value, n, m);
    lemma_join_range(high.value, low.value, combined.value, n, m);
    lemma_join_range(high.value, combined.value % pow2(n), combined.value, n, m);
    let after_low = view.reconcile_low(n, tick, cells);
    let after = view.reconcile_high(n, tick, cells, after_low);
    assert(shape_of(after_low) =~= shape_of(cells));
    assert(shape_of(after) =~= shape_of(cells));
    assert(cells_in_range(after_low));
    assert(cells_in_range(after));
}

/// After a tick of a splitter on three different cells the three faces
/// agree, where each end that was last written at the same tick as the
/// combined cell agreed with the combined cell before.
pub proof fn lemma_reconcile_coherent(
    view: SpliterView,
    n: nat,
    m: nat,
    tick: u32,
    cells: Seq<CellView>,
)
    requires
        view.fits(n, m, shape_of(cells)),
        view.distinct(),
        cells_in_range(cells),
        view.ties_agree(n, cells),
    ensures
        view.coherent(n, view.reconcile(n, tick, cells)),
        cells_in_range(view.reconcile(n, tick, cells)),
        shape_of(view.reconcile(n, tick, cells)) == shape_of(cells),
{
    let combined = cells[view.combined.index as int];
    let low = cells[view.low_end.index as int];
    let high = cells[view.high_end.index as int];
    lemma_reconcile_faces(view, n, m, tick, cells);
    lemma_join(high.value, low.value, combined.value, n);
}

/// Where one face of a splitter on three different cells was written
/// strictly later than the two others, and no later than the first of two
/// ticks of the splitter, the three faces agree after the second tick, and
/// the face that was written last holds what was written to it.
pub proof fn lemma_reconcile_settles(
    view: SpliterView,
    n: nat,
    m: nat,
    first: u32,
    second: u32,
    cells: Seq<CellView>,
)
    requires
        view.fits(n, m, shape_of(cells)),
        view.distinct(),
        cells_in_range(cells),
        view.combined_written_last(cells) || view.low_written_last(cells)
            || view.high_written_last(cells),
        view.written_by(first, cells),
    ensures
        ({
            let after = view.reconcile(n, second, view.reconcile(n, first, cells));
            &&& view.coherent(n, after)
            &&& view.combined_written_last(cells) ==> after[view.combined.index as int].value
                == cells[view.combined.index as int].value
            &&& view.low_written_last(cells) ==> after[view.low_end.index as int].value
                == cells[view.low_end.index as int].value
            &&& view.high_written_last(cells) ==> after[view.high_end.index as int].value
                == cells[view.high_end.index as int].value
        }),
{
    let combined = cells[view.combined.index as int];
    let low = cells[view.low_end.index as int];
    let high = cells[view.high_end.index as int];
    let between = view.reconcile(n, first, cells);
    lemma_reconcile_faces(view, n, m, first, cells);
    lemma_join(high.value, low.value, combined.value, n);
    lemma_join(combined.value / pow2(n), low.value, combined.value, n);
    lemma_join(high.value, combined.value % pow2(n), combined.value, n);
    assert(view.ties_agree(n, between));
    let c1 = between[view.combined.index as int];
    let l1 = between[view.low_end.index as int];
    let h1 = between[view.high_end.index as int];
    lemma_reconcile_faces(view, n, m, second, between);
    lemma_reconcile_coherent(view, n, m, second, between);
    lemma_join(h1.value, l1.value, c1.value, n);
    lemma_join(c1.value / pow2(n), l1.value, c1.value, n);
    lemma_join(h1.value, c1.value % pow2(n), c1.value, n);
}

/// A tick of a splitter on three different cells whose faces agree changes
/// no value, and the faces agree after it.
pub proof fn lemma_reconcile_stable(
    view: SpliterView,
    n: nat,
    m: nat,
    tick: u32,
    cells: Seq<CellView>,
)
    requires
        view.fits(n, m, shape_of(cells)),
        view.distinct(),
        cells_in_range(cells),
        view.coherent(n, cells),
    ensures
        forall|i: int|
            0 <= i < cells.len() ==> (#[trigger] view.reconcile(n, tick, cells)[i]).value
                == cells[i].value,
        view.coherent(n, view.reconcile(n, tick, cells)),
{
    let combined = cells[view.combined.index as int];
    let low = cells[view.low_end.index as int];
    let high = cells[view.high_end.index as int];
    assert(low.value < pow2(n)) by {
        assert(shape_of(cells)[view.low_end.index as int] == low.width);
    }
    lemma_reconcile_faces(view, n, m, tick, cells);
    lemma_join(high.value, low.value, combined.value, n);
}

/// A bus node that joins a cell of `N` bits, the low end, and a cell of `M`
/// bits, the high end, with a cell of `N + M` bits, the combined cell.
///
/// On each tick the splitter reconciles each end with the combined cell by
/// the ticks of their last writes, as they stood when the tick began. Of
/// such a pair, the one that was written strictly later drives the other:
/// the combined cell gives an end its part, or an end becomes its part of
/// the combined cell. Where both were written at the same tick, neither
/// changes.
#[derive(Debug, Clone, Copy)]
pub struct Spliter<const N: usize, const M: usize> {
    combined: StoreRef,
    low_end: StoreRef,
    high_end: StoreRef,
}

impl<const N: usize, const M: usize> View for Spliter<N, M> {
    type V = SpliterView;

    closed spec fn view(&self) -> SpliterView {
        SpliterView { combined: self.combined, low_end: self.low_end, high_end: self.high_end }
    }
}

impl<const N: usize, const M: usize> Spliter<N, M> {
    /// Whether the three handles name cells of the right widths in a bus of
    /// this shape.
    pub open spec fn fits(&self, shape: Seq<nat>) -> bool {
        self@.fits(N as nat, M as nat, shape)
    }

    /// A splitter on three new cells of `bus`, which hold zero. The splitter
    /// is refused, and the bus left as it is, where the bus cannot hold
    /// cells of `N + M` bits.
    pub fn new<const W: usize>(bus: &mut Bus<W>) -> (r: Option<Self>)
        requires
            old(bus).wf(),
        ensures
            final(bus).wf(),
            r.is_some() <==> N + M <= W,
            r.is_none() ==> final(bus)@ == old(bus)@,
            r.is_some() ==> {
                &&& final(bus)@ == old(bus)@.push(
                    CellView { width: (N + M) as nat, value: 0, store_tick: 0 },
                ).push(CellView { width: N as nat, value: 0, store_tick: 0 }).push(
                    CellView { width: M as nat, value: 0, store_tick: 0 },
                )
                &&& r.unwrap()@.combined.index == old(bus)@.len()
                &&& r.unwrap()@.low_end.index == old(bus)@.len() + 1
                &&& r.unwrap()@.high_end.index == old(bus)@.len() + 2
                &&& r.unwrap().fits(final(bus).shape())
                &&& r.unwrap()@.distinct()
            },
    {
        if N > W || M > W - N {
            return None;
        }
        let combined = bus.add_store(N + M).unwrap();
        let low_end = bus.add_store(N).unwrap();
        let high_end = bus.add_store(M).unwrap();
        Some(Spliter { combined, low_end, high_end })
    }

    /// The low end, to be connected.
    pub fn as_low_end(&mut self) -> (r: LowEnd<'_, N, M>)
        ensures
            r.store_ref() == old(self)@.low_end,
            final(self)@ == final(r.0)@,
            r.0@ == old(self)@,
    {
        LowEnd(self)
    }

    /// The high end, to be connected.
    pub fn as_high_end(&mut self) -> (r: HighEnd<'_, N, M>)
        ensures
            r.store_ref() == old(self)@.high_end,
            final(self)@ == final(r.0)@,
            r.0@ == old(self)@,
    {
        HighEnd(self)
    }
}

impl<const N: usize, const M: usize> Device for Spliter<N, M> {
    type State = SpliterView;

    open spec fn state(&self) -> SpliterView {
        self@
    }

    open spec fn attached(&self, shape: Seq<nat>) -> bool {
        self.fits(shape)
    }

    open spec fn next_state(state: SpliterView, tick: u32, cells: Seq<CellView>) -> SpliterView {
        state
    }

    open spec fn next_cells(state: SpliterView, tick: u32, cells: Seq<CellView>) -> Seq<CellView> {
        state.reconcile(N as nat, tick, cells)
    }

    /// Reconciles the low end with the combined cell, then the high end.
    /// Of each pair, the one that was written strictly later, by the ticks
    /// of the last writes when the tick began, drives the other.
    fn tick<const W: usize>(&mut self, tick: u32, bus: &mut Bus<W>) {
        proof {
            bus.lemma_cell_range(self.combined.index as int);
            lemma_pow2_pos(N as nat);
            lemma_pow2_adds(N as nat, M as nat);
            lemma_pow2_monotonic((N + M) as nat, W as nat);
        }
        let combined_tick = bus.get_store_tick(self.combined);
        let low_tick = bus.get_store_tick(self.low_end);
        let high_tick = bus.get_store_tick(self.high_end);
        let combined = bus.get(self.combined);
        let low_end = bus.get(self.low_end);
        if combined_tick > low_tick {
            bus.set(self.low_end, combined, tick);
        } else if low_tick > combined_tick {
            let bottom_zeroed = combined.clear_low(N);
            proof {
                U::<W>::lemma_or_disjoint(bottom_zeroed, low_end, N as nat);
                lemma_join_range(combined@ / pow2(N as nat), low_end@, combined@, N as nat, M as nat);
                lemma_small_mod(bottom_zeroed@ + low_end@, pow2((N + M) as nat));
            }
            bus.set(self.combined, bottom_zeroed | low_end, tick);
        }
        assert(bus@ == self@.reconcile_low(N as nat, tick, old(bus)@));
        let combined = bus.get(self.combined);
        let high_end = bus.get(self.high_end);
        if combined_tick > high_tick {
            proof {
                lemma_join_range(0, 0, combined@, N as nat, M as nat);
                lemma_small_mod(combined@ / pow2(N as nat), pow2(M as nat));
            }
            bus.set(self.high_end, combined >> N, tick);
        } else if high_tick > combined_tick {
            let top_zeroed = combined.truncate(N);
            let high_end_shifted = high_end << N;
            proof {
                lemma_mod_pos_bound(combined@ as int, pow2(N as nat) as int);
                lemma_join_range(high_end@, combined@ % pow2(N as nat), combined@, N as nat, M as nat);
                lemma_small_mod(high_end@ * pow2(N as nat), pow2(W as nat));
                vstd::arithmetic::div_mod::lemma_mod_multiples_basic(
                    high_end@ as int,
                    pow2(N as nat) as int,
                );
                U::<W>::lemma_or_disjoint(high_end_shifted, top_zeroed, N as nat);
                lemma_small_mod(top_zeroed@ + high_end_shifted@, pow2((N + M) as nat));
            }
            bus.set(self.combined, top_zeroed | high_end_shifted, tick);
        }
    }
}

impl<const N: usize, const M: usize> Connectable for Spliter<N, M> {
    type Rest = (StoreRef, StoreRef);

    open spec fn store_ref(&self) -> StoreRef {
        self@.combined
    }

    /// The handles of the low end and of the high end.
    open spec fn rest(&self) -> (StoreRef, StoreRef) {
        (self@.low_end, self@.high_end)
    }

    fn get_value_ref(&self) -> (r: StoreRef) {
        self.combined
    }

    fn connect_to(&mut self, other: StoreRef) -> (connected: bool) {
        if other.width == self.combined.width {
            self.combined = other;
            true
        } else {
            false
        }
    }
}

/// The low end of a splitter, as a face that can be connected.
pub struct LowEnd<'a, const N: usize, const M: usize>(pub &'a mut Spliter<N, M>);

impl<'a, const N: usize, const M: usize> Connectable for LowEnd<'a, N, M> {
    type Rest = (StoreRef, StoreRef);

    open spec fn store_ref(&self) -> StoreRef {
        self.0@.low_end
    }

    /// The splitter's handles of the combined cell and of the high end.
    open spec fn rest(&self) -> (StoreRef, StoreRef) {
        (self.0@.combined, self.0@.high_end)
    }

    fn get_value_ref(&self) -> (r: StoreRef) {
        self.0.low_end
    }

    /// Replaces the splitter's low end by the cell `other`. The face stays
    /// a face of the same splitter.
    fn connect_to(&mut self, other: StoreRef) -> (connected: bool)
        ensures
            *final(final(self).0) == *final(old(self).0),
    {
        if other.width == self.0.low_end.width {
            self.0.low_end = other;
            true
        } else {
            false
        }
    }
}

/// The high end of a splitter, as a face that can be connected.
pub struct HighEnd<'a, const N: usize, const M: usize>(pub &'a mut Spliter<N, M>);

impl<'a, const N: usize, const M: usize> Connectable for HighEnd<'a, N, M> {
    type Rest = (StoreRef, StoreRef);

    open spec fn store_ref(&self) -> StoreRef {
        self.0@.high_end
    }

    /// The splitter's handles of the combined cell and of the low end.
    open spec fn rest(&self) -> (StoreRef, StoreRef) {
        (self.0@.combined, self.0@.low_end)
    }

    fn get_value_ref(&self) -> (r: StoreRef) {
        self.0.high_end
    }

    /// Replaces the splitter's high end by the cell `other`. The face stays
    /// a face of the same splitter.
    fn connect_to(&mut self, other: StoreRef) -> (connected: bool)
        ensures
            *final(final(self).0) == *final(old(self).0),
    {
        if other.width == self.0.high_end.width {
            self.0.high_end = other;
            true
        } else {
            false
        }
    }
}

} // verus!
