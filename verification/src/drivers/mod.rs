//! The logic of the device drivers, apart from the port accesses.

pub mod keyboard;
pub mod mouse;
pub mod vga;
