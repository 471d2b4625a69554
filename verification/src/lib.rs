//! An emulated 8-bit microcontroller with its tools.
//!
//! - [`un`] and [`bit_array`] hold the unsigned integers of any bit width
//!   that the machine is built from, over the arithmetic of [`bits`].
//! - [`architecture`] fixes the widths and sizes of the machine.
//! - [`instruction`] holds the instruction set with its encoder and decoder,
//!   and [`instruction_set`] the instruction table as text.
//! - [`computer`] is the processor core, [`device`] the peripheral bus with
//!   its ports, pins, splitters and the console, and [`simulation`] the
//!   harness that ticks them.
//! - [`assembler`] is the front end of the assembler, over the byte texts
//!   of [`text`].

pub mod architecture;
pub mod assembler;
pub mod bit_array;
pub mod bits;
pub mod computer;
pub mod device;
pub mod instruction;
pub mod instruction_set;
pub mod simulation;
pub mod text;
pub mod un;
