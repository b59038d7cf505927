//! A CHIP-8 virtual machine: 4KB of RAM, sixteen 8-bit registers, a call
//! stack, a 64x32 monochrome framebuffer and two 60Hz countdown timers.
//!
//! The execution engine, memory model, instruction semantics and timer
//! arithmetic live here, each with a verified contract.  Rendering, keyboard
//! input and the command line are host concerns and stay outside.

pub mod keypad;
pub mod mem;
pub mod system;
pub mod timer;

pub use keypad::translate_keypad;
pub use mem::Memory;
pub use system::Fault;
pub use system::InstHelper;
pub use system::Step;
pub use system::System;
pub use timer::Timer60Hz;
