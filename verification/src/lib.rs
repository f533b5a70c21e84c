//! A verified interpreter for a small 8-bit teaching virtual machine:
//! 4096 bytes of memory, sixteen 8-bit registers, a 16-slot call stack,
//! two 60 Hz countdown timers, a 64x32 monochrome display and a 16-key
//! input surface.

pub mod display;
pub mod draw;
pub mod laws;
pub mod semantics;
pub mod step;
pub mod state;
pub mod timer;
