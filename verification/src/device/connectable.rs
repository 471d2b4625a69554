//! What can be connected to a shared store of the bus.

use vstd::prelude::*;
use crate::device::bus::StoreRef;

pub mod device_pin;
pub mod device_port;
pub mod spliter;

verus! {

/// A face of a device that is backed by a cell of the bus. Connecting one
/// face to another makes both observe the same cell.
pub trait Connectable {
    /// What the face holds besides the handle of its cell.
    type Rest;

    /// The handle of the cell that backs this face.
    spec fn store_ref(&self) -> StoreRef;

    /// What the face holds besides the handle of its cell. A connection
    /// leaves it as it is.
    spec fn rest(&self) -> Self::Rest;

    /// The handle of the cell that backs this face.
    fn get_value_ref(&self) -> (r: StoreRef)
        ensures
            r == self.store_ref(),
    ;

    /// Replaces the cell that backs this face by the cell `other`, and
    /// nothing else. The connection is refused, and nothing changes, unless
    /// both cells have the same width.
    fn connect_to(&mut self, other: StoreRef) -> (connected: bool)
        ensures
            connected == (other.width == old(self).store_ref().width),
            connected ==> final(self).store_ref() == other,
            !connected ==> final(self).store_ref() == old(self).store_ref(),
            final(self).rest() == old(self).rest(),
    ;
}

/// Connects `a` to `b`: afterwards `a` is backed by the cell that backs `b`,
/// and both observe the same cell. Of the caller's side the handle alone
/// changes, and `b` does not change. The connection is refused, and nothing
/// changes, unless both faces have the same width.
pub fn connect<A: Connectable, B: Connectable>(a: &mut A, b: &B) -> (connected: bool)
    ensures
        connected == (b.store_ref().width == old(a).store_ref().width),
        connected ==> final(a).store_ref() == b.store_ref(),
        !connected ==> final(a).store_ref() == old(a).store_ref(),
        final(a).rest() == old(a).rest(),
{
    a.connect_to(b.get_value_ref())
}

} // verus!
