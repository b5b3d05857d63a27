//! Console input and output that is independent of the hardware.

pub mod console;
pub mod cursor;
pub mod display;
pub mod history;
pub mod input_buffer;
pub mod io_manager;
pub mod klog;
pub mod print_engine;
pub mod scrollback;
