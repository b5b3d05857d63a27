//! Reports of the kernel about things that went wrong.
//!
//! A warning is put out in yellow and the kernel goes on.  A panic is put
//! out in white on red, after which the caller halts the machine.

use vstd::prelude::*;
use vstd::string::StringSliceAdditionalSpecFns;
use crate::io::display::Display;
use crate::io::display::get_color;
use crate::io::display::set_color;
use crate::io::klog::Klog;
use crate::io::print_engine::Emit;
use crate::io::print_engine::PrintArg;
use crate::io::print_engine::Sink;
use crate::io::print_engine::format_ops;
use crate::io::print_engine::out_of;
use crate::io::print_engine::write_kernel;

verus! {

/// The colour of a panic: white on red.
pub const PANIC_COLOR: u8 = 0x4F;

/// The colour of a warning: yellow on black.
pub const WARN_COLOR: u8 = 0x0E;

/// The output of a warning with the message `msg`, raised at line `line` of
/// the file `file`.
pub open spec fn warn_ops(msg: &str, file: &str, line: u32) -> Seq<Emit> {
    format_ops(
        "[WARN] {} ({}:{})\n".spec_bytes(),
        seq![PrintArg::Str(msg), PrintArg::Str(file), PrintArg::U32(line)],
        0,
        0,
    )
}

/// Puts out a warning in yellow, to the screen and to the kernel log, and
/// sets the colour back to what it was.
pub fn _kernel_warn(msg: &str, file: &str, line: u32, display: &mut Display, klog: &mut Klog)
    requires
        old(display).wf(),
        old(klog).wf(),
    ensures
        final(display).wf(),
        final(klog).wf(),
        final(display).color == old(display).color,
        out_of(final(display), final(klog)) == out_of(old(display), old(klog)).sent(
            warn_ops(msg, file, line),
            Sink::Kernel,
            WARN_COLOR,
        ),
{
    let prev_color: u8 = get_color(display);
    set_color(display, WARN_COLOR);
    let args: [PrintArg; 3] = [PrintArg::Str(msg), PrintArg::Str(file), PrintArg::U32(line)];
    proof {
        assert(args@ =~= seq![PrintArg::Str(msg), PrintArg::Str(file), PrintArg::U32(line)]);
    }
    write_kernel("[WARN] {} ({}:{})\n", args.as_slice(), display, klog);
    set_color(display, prev_color);
}

/// The output of a panic with the message `msg`, raised at line `line` of
/// the file `file`, up to the place where the stack is shown.
pub open spec fn panic_ops(msg: &str, file: &str, line: u32) -> Seq<Emit> {
    format_ops(
        "\n!!!!!!!!!!!!!!!!!!!!!!!!!!!!!!!!!!!!!!!\n!!!        KERNEL PANIC             !!!\n!!!!!!!!!!!!!!!!!!!!!!!!!!!!!!!!!!!!!!!\n\n  {}\n  at {}:{}\n\n".spec_bytes(),
        seq![PrintArg::Str(msg), PrintArg::Str(file), PrintArg::U32(line)],
        0,
        0,
    )
}

/// Puts out the head of a panic report in white on red, to the screen and
/// to the kernel log.  The colour stays.
pub fn panic_report(msg: &str, file: &str, line: u32, display: &mut Display, klog: &mut Klog)
    requires
        old(display).wf(),
        old(klog).wf(),
    ensures
        final(display).wf(),
        final(klog).wf(),
        final(display).color == PANIC_COLOR,
        out_of(final(display), final(klog)) == out_of(old(display), old(klog)).sent(
            panic_ops(msg, file, line),
            Sink::Kernel,
            PANIC_COLOR,
        ),
{
    set_color(display, PANIC_COLOR);
    let args: [PrintArg; 3] = [PrintArg::Str(msg), PrintArg::Str(file), PrintArg::U32(line)];
    proof {
        assert(args@ =~= seq![PrintArg::Str(msg), PrintArg::Str(file), PrintArg::U32(line)]);
    }
    write_kernel(
        "\n!!!!!!!!!!!!!!!!!!!!!!!!!!!!!!!!!!!!!!!\n!!!        KERNEL PANIC             !!!\n!!!!!!!!!!!!!!!!!!!!!!!!!!!!!!!!!!!!!!!\n\n  {}\n  at {}:{}\n\n",
        args.as_slice(),
        display,
        klog,
    );
}

/// The output of the last line of a panic report.
pub open spec fn halted_ops() -> Seq<Emit> {
    format_ops("\nSystem halted.\n".spec_bytes(), Seq::empty(), 0, 0)
}

/// Puts out the last line of a panic report in white on red.
pub fn panic_halted(display: &mut Display, klog: &mut Klog)
    requires
        old(display).wf(),
        old(klog).wf(),
    ensures
        final(display).wf(),
        final(klog).wf(),
        final(display).color == PANIC_COLOR,
        out_of(final(display), final(klog)) == out_of(old(display), old(klog)).sent(
            halted_ops(),
            Sink::Kernel,
            PANIC_COLOR,
        ),
{
    set_color(display, PANIC_COLOR);
    let none: [PrintArg; 0] = [];
    proof {
        assert(none@ =~= Seq::empty());
    }
    write_kernel("\nSystem halted.\n", none.as_slice(), display, klog);
}

} // verus!
