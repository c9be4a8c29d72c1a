//! A cycle-stepped virtual machine for a classic 8-bit instruction set:
//! a processor with sixteen registers and 4096 bytes of memory, a
//! monochrome XOR-sprite framebuffer, and a sixteen-key input device.
//! The host drives it one fetch-decode-execute step at a time, ticks the
//! timers at its own cadence, and reads state back through accessors;
//! every state change is specified against the ghost machine state in
//! [`cpu::St`] and proved.

use vstd::prelude::*;

pub mod cpu;
pub mod display;
pub mod instr;
pub mod keyboard;

verus! {

} // verus!
