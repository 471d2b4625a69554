//! The harness: a loop that ticks every device, in order, tick after tick.

use vstd::prelude::*;
use crate::device::bus::{Bus, CellView};
use crate::device::Device;

verus! {

/// The states of a list of devices.
pub open spec fn states_of<D: Device>(devices: Seq<D>) -> Seq<D::State> {
    devices.map_values(|d: D| d.state())
}

/// The states and the cells after the first `n` devices have ticked, in
/// list order, at `tick`.
pub open spec fn tick_devices<D: Device>(
    states: Seq<D::State>,
    n: nat,
    tick: u32,
    cells: Seq<CellView>,
) -> (Seq<D::State>, Seq<CellView>)
    decreases n,
{
    if n == 0 {
        (states, cells)
    } else {
        let (before, shared) = tick_devices::<D>(states, (n - 1) as nat, tick, cells);
        (
            before.update(n - 1, D::next_state(before[n - 1], tick, shared)),
            D::next_cells(before[n - 1], tick, shared),
        )
    }
}

/// The states and the cells after `count` ticks, numbered from `first`, in
/// each of which every device ticks in list order.
pub open spec fn run_span<D: Device>(
    states: Seq<D::State>,
    first: nat,
    count: nat,
    cells: Seq<CellView>,
) -> (Seq<D::State>, Seq<CellView>)
    decreases count,
{
    if count == 0 {
        (states, cells)
    } else {
        let (before, shared) = run_span::<D>(states, first, (count - 1) as nat, cells);
        tick_devices::<D>(before, before.len(), (first + count - 1) as u32, shared)
    }
}

/// The states and the cells after `ticks` ticks, numbered from zero, in
/// each of which every device ticks in list order.
pub open spec fn run_ticks<D: Device>(states: Seq<D::State>, ticks: nat, cells: Seq<CellView>) -> (
    Seq<D::State>,
    Seq<CellView>,
) {
    run_span::<D>(states, 0, ticks, cells)
}

/// The number of ticks that a budget stands for: without a budget the
/// simulation runs for as many ticks as a tick counter can count.
pub open spec fn budget(ticks: Option<u32>) -> nat {
    match ticks {
        Some(t) => t as nat,
        None => u32::MAX as nat,
    }
}

/// Runs the ticks from `first` up to, and without, `end`: in each of them
/// every device ticks in list order.
pub fn run_between<D: Device, const W: usize>(
    devices: &mut Vec<D>,
    bus: &mut Bus<W>,
    first: u32,
    end: u32,
)
    requires
        first <= end,
        old(bus).wf(),
        forall|i: int|
            0 <= i < old(devices)@.len() ==> (#[trigger] old(devices)@[i]).attached(
                old(bus).shape(),
            ),
    ensures
        final(bus).wf(),
        final(bus).shape() == old(bus).shape(),
        final(devices)@.len() == old(devices)@.len(),
        forall|i: int|
            0 <= i < final(devices)@.len() ==> (#[trigger] final(devices)@[i]).attached(
                final(bus).shape(),
            ),
        (states_of(final(devices)@), final(bus)@) == run_span::<D>(
            states_of(old(devices)@),
            first as nat,
            (end - first) as nat,
            old(bus)@,
        ),
{
    let mut tick: u32 = first;
    loop
        invariant
            first <= tick <= end,
            bus.wf(),
            bus.shape() == old(bus).shape(),
            devices@.len() == old(devices)@.len(),
            forall|i: int|
                0 <= i < devices@.len() ==> (#[trigger] devices@[i]).attached(bus.shape()),
            (states_of(devices@), bus@) == run_span::<D>(
                states_of(old(devices)@),
                first as nat,
                (tick - first) as nat,
                old(bus)@,
            ),
        ensures
            tick == end,
        decreases end - tick,
    {
        if tick >= end {
            break ;
        }
        let ghost before = states_of(devices@);
        let ghost shared = bus@;
        let mut i: usize = 0;
        while i < devices.len()
            invariant
                i <= devices@.len(),
                bus.wf(),
                bus.shape() == old(bus).shape(),
                devices@.len() == old(devices)@.len(),
                before.len() == devices@.len(),
                forall|k: int|
                    0 <= k < devices@.len() ==> (#[trigger] devices@[k]).attached(bus.shape()),
                (states_of(devices@), bus@) == tick_devices::<D>(before, i as nat, tick, shared),
            decreases devices@.len() - i,
        {
            let ghost list = devices@;
            let ghost cells = bus@;
            devices[i].tick(tick, bus);
            proof {
                assert(states_of(devices@) =~= states_of(list).update(
                    i as int,
                    D::next_state(states_of(list)[i as int], tick, cells),
                ));
            }
            i += 1;
        }
        tick += 1;
    }
}

/// Runs the simulation: while the tick counter, which starts at zero, is
/// below the budget, every device ticks in list order, and the counter
/// moves on by one.
pub fn run_simulation<D: Device, const W: usize>(
    devices: &mut Vec<D>,
    bus: &mut Bus<W>,
    ticks: Option<u32>,
)
    requires
        old(bus).wf(),
        forall|i: int|
            0 <= i < old(devices)@.len() ==> (#[trigger] old(devices)@[i]).attached(
                old(bus).shape(),
            ),
    ensures
        final(bus).wf(),
        final(bus).shape() == old(bus).shape(),
        final(devices)@.len() == old(devices)@.len(),
        forall|i: int|
            0 <= i < final(devices)@.len() ==> (#[trigger] final(devices)@[i]).attached(
                final(bus).shape(),
            ),
        (states_of(final(devices)@), final(bus)@) == run_ticks::<D>(
            states_of(old(devices)@),
            budget(ticks),
            old(bus)@,
        ),
{
    let ticks = match ticks {
        Some(t) => t,
        None => u32::MAX,
    };
    run_between(devices, bus, 0, ticks)
}

} // verus!
