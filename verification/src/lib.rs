//! Core data structures of a small single-address-space kernel, with the
//! memory-management services at the centre: a physical frame allocator, a
//! two-level page-table manager, a kernel heap and a virtually contiguous
//! allocator.  Every component is an owned value that callers pass explicitly,
//! so that each can be exercised in isolation.

pub mod memory;
pub mod klib;
pub mod io;
pub mod gdt;
pub mod drivers;
pub mod panic;
pub mod shell;
pub mod ui;
