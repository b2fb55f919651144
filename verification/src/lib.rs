//! Interpreter core for a classic fixed 35-instruction 8-bit virtual machine:
//! a 4 KiB memory, sixteen 8-bit registers, an address register, a bounded
//! call stack, two 60 Hz timers, a 64x32 monochrome framebuffer and a 16-key
//! input device. The core never performs I/O itself: it consumes a program
//! byte buffer and a key-state snapshot, and produces a framebuffer and an
//! audio-active flag for external collaborators.

pub mod decode;
pub mod display;
pub mod exec;
pub mod laws;
mod rng;
pub mod run;
pub mod state;
pub mod timer;

pub use decode::Instr;
pub use state::Chip8State;
pub use state::StateView;
pub use state::get_codes;
