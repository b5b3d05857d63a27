//! The commands that the shell knows by itself.

pub mod dmesg;
pub mod echo;
