//! Small helpers of the kernel that need no hardware.

pub mod cmd;
pub mod helpers;
pub mod memory;
pub mod string;
