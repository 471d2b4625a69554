//! The arithmetic logic unit: the accumulator and the operations on it.

use vstd::prelude::*;
use vstd::arithmetic::power2::pow2;
use vstd::std_specs::ops::{BitAndSpec, BitOrSpec};
use crate::architecture::WORKING_BITS;
use crate::computer::register::Register;
use crate::un::U;

verus! {

/// The arithmetic logic unit. Its view is the value of the accumulator.
#[derive(Debug, Clone, Copy)]
pub struct ArithmeticLogicUnit {
    accumulator: Register<WORKING_BITS>,
}

impl View for ArithmeticLogicUnit {
    type V = U<WORKING_BITS>;

    closed spec fn view(&self) -> U<WORKING_BITS> {
        self.accumulator@
    }
}

impl ArithmeticLogicUnit {
    /// A unit whose accumulator holds zero.
    pub fn new() -> (r: Self)
        ensures
            r@@ == 0,
    {
        ArithmeticLogicUnit { accumulator: Register::new() }
    }

    /// The accumulator.
    pub fn accumulator(&self) -> (r: &Register<WORKING_BITS>)
        ensures
            r@ == self@,
    {
        &self.accumulator
    }

    /// The accumulator, to be written.
    pub fn accumulator_mut(&mut self) -> (r: &mut Register<WORKING_BITS>)
        ensures
            r@ == old(self)@,
            final(self)@ == final(r)@,
    {
        &mut self.accumulator
    }

    /// Adds `value` to the accumulator, wrapping.
    pub fn add(&mut self, value: U<WORKING_BITS>)
        ensures
            final(self)@@ == (old(self)@@ + value@) % pow2(WORKING_BITS as nat),
            final(self)@ == U::<WORKING_BITS>::of_nat(old(self)@@ + value@),
    {
        let current = self.accumulator.load();
        self.accumulator.store(current + value)
    }

    /// Subtracts `value` from the accumulator, wrapping.
    pub fn sub(&mut self, value: U<WORKING_BITS>)
        ensures
            final(self)@@ == (old(self)@@ - value@) % (pow2(WORKING_BITS as nat) as int),
            final(self)@ == U::<WORKING_BITS>::of_nat(
                ((old(self)@@ - value@) % (pow2(WORKING_BITS as nat) as int)) as nat,
            ),
    {
        let current = self.accumulator.load();
        self.accumulator.store(current - value)
    }

    /// Replaces the accumulator by its bitwise or with `value`.
    pub fn bor(&mut self, value: U<WORKING_BITS>)
        ensures
            final(self)@ == old(self)@.bitor_spec(value),
            forall|i: int|
                0 <= i < WORKING_BITS ==> final(self)@.bits()[i] == (old(self)@.bits()[i]
                    || value.bits()[i]),
    {
        let current = self.accumulator.load();
        self.accumulator.store(current | value)
    }

    /// Replaces the accumulator by its bitwise and with `value`.
    pub fn and(&mut self, value: U<WORKING_BITS>)
        ensures
            final(self)@ == old(self)@.bitand_spec(value),
            forall|i: int|
                0 <= i < WORKING_BITS ==> final(self)@.bits()[i] == (old(self)@.bits()[i]
                    && value.bits()[i]),
    {
        let current = self.accumulator.load();
        self.accumulator.store(current & value)
    }

    /// Whether the accumulator equals `value`.
    pub fn cmp(&self, value: U<WORKING_BITS>) -> (r: bool)
        ensures
            r == (self@@ == value@),
    {
        let current = self.accumulator.load();
        current == value
    }

    /// Whether the accumulator is greater than `value`.
    pub fn grt(&self, value: U<WORKING_BITS>) -> (r: bool)
        ensures
            r == (self@@ > value@),
    {
        let current = self.accumulator.load();
        current > value
    }

    /// Whether the accumulator is less than `value`.
    pub fn les(&self, value: U<WORKING_BITS>) -> (r: bool)
        ensures
            r == (self@@ < value@),
    {
        let current = self.accumulator.load();
        current < value
    }
}

} // verus!
