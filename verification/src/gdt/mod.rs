//! Segment descriptors.

pub mod gdt;
