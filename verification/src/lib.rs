//! A CHIP-8 virtual machine with verified interpreter semantics.
//!
//! The machine owns all interpreter state: 4096 bytes of memory, sixteen
//! 8-bit registers, the index register, the program counter, a bounded call
//! stack, two 60 Hz timers, the monochrome display, and the 16-key input
//! vector. A host constructs a [`Chip8`], loads a ROM, and calls
//! [`Chip8::tick`] once per frame; rendering, audio and keyboard handling
//! stay with the host.

pub mod cycle;
pub mod fault;
pub mod instr;
pub mod laws;
pub mod machine;
mod rng;
pub mod screen;

pub use fault::Fault;
pub use fault::FaultKind;
pub use machine::Chip8;
pub use machine::Config;
pub use screen::Screen;
