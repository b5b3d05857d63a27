//! The command shell.

pub mod builtin;
pub mod console;
pub mod shell;
