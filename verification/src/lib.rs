//! A verified emulator for a simple 32-bit word-oriented virtual processor:
//! bit-field packing and unpacking primitives, a segmented memory store with
//! reusable integer handles, and an instruction decoder and execution engine.

pub mod bitpack;
pub mod machine;
pub mod memory;
