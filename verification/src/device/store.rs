//! A value together with the tick at which it was last written.

use vstd::prelude::*;

verus! {

/// What a `Store` holds.
pub ghost struct StoreView<T> {
    pub value: T,
    pub store_tick: u32,
}

/// A value and the tick of its most recent write.
#[derive(Debug)]
pub struct Store<T> {
    value: T,
    store_tick: u32,
}

impl<T> View for Store<T> {
    type V = StoreView<T>;

    closed spec fn view(&self) -> StoreView<T> {
        StoreView { value: self.value, store_tick: self.store_tick }
    }
}

impl<T: Copy> Store<T> {
    /// A store that holds `inner`, written at tick zero.
    pub fn new(inner: T) -> (r: Self)
        ensures
            r@ == (StoreView { value: inner, store_tick: 0 }),
    {
        Store { value: inner, store_tick: 0 }
    }

    /// The value held.
    pub fn get(&self) -> (r: T)
        ensures
            r == self@.value,
    {
        self.value
    }

    /// The tick of the most recent write.
    pub fn get_store_tick(&self) -> (r: u32)
        ensures
            r == self@.store_tick,
    {
        self.store_tick
    }

    /// Writes `value`, stamped with `tick`.
    pub fn set(&mut self, value: T, tick: u32)
        ensures
            final(self)@ == (StoreView { value: value, store_tick: tick }),
    {
        self.value = value;
        self.store_tick = tick;
    }
}

} // verus!
