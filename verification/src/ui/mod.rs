//! A plain input line that is drawn while it is typed.

pub mod display;
pub mod input;
