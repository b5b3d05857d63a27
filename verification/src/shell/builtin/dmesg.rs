//! `dmesg`: shows the kernel log.

use vstd::prelude::*;
use vstd::string::StringSliceAdditionalSpecFns;
use crate::drivers::vga::VgaView;
use crate::io::display::Display;
use crate::io::klog::Klog;
use crate::io::klog::KlogView;
use crate::io::klog::clear;
use crate::io::klog::dump;
use crate::io::print_engine::Out;
use crate::io::print_engine::Sink;
use crate::io::print_engine::format_ops;
use crate::io::print_engine::out_of;
use crate::io::print_engine::write_display;
use crate::klib::cmd::bytes_equal_range;

verus! {

/// The option that asks for the log to be cleared: `-c`.
pub open spec fn clear_option() -> Seq<u8> {
    seq![45u8, 99u8]
}

/// The second word of `argv` is the option `-c`.
pub open spec fn wants_clear(argv: Seq<&[u8]>) -> bool {
    argv.len() > 1 && argv[1]@ == clear_option()
}

/// The screen after the log has been drawn on it.
pub open spec fn dumped(screen: VgaView, log: KlogView, color: u8) -> VgaView {
    screen.glyphs(log.dump(), log.dump().len() as int, color)
}

/// Runs `dmesg` with the words `argv` of its line: draws the log on the
/// screen and, with `-c`, clears the log and says so.
pub fn dmesg(argv: &[&[u8]], klog: &mut Klog, display: &mut Display)
    requires
        old(klog).wf(),
        old(display).wf(),
    ensures
        final(klog).wf(),
        final(display).wf(),
        final(display).color == old(display).color,
        if wants_clear(argv@) {
            out_of(final(display), final(klog)) == (Out {
                screen: dumped(old(display).vga@, old(klog)@, old(display).color),
                log: old(klog)@.cleared(),
            }).sent(format_ops("[klog cleared]\n".spec_bytes(), Seq::empty(), 0, 0), Sink::Display, old(display).color)
        } else {
            &&& final(klog)@ == old(klog)@
            &&& final(display).vga@ == dumped(old(display).vga@, old(klog)@, old(display).color)
        },
{
    let mut want: bool = false;
    if argv.len() > 1 {
        let option: [u8; 2] = [45, 99];
        let word: &[u8] = argv[1];
        want = bytes_equal_range(word, 0, word.len(), option.as_slice());
        proof {
            assert(option@ =~= clear_option());
            assert(word@.subrange(0, word@.len() as int) =~= word@);
        }
    }
    dump(klog, display);
    if want {
        clear(klog);
        let none: [crate::io::print_engine::PrintArg; 0] = [];
        proof {
            assert(none@ =~= Seq::empty());
        }
        write_display("[klog cleared]\n", none.as_slice(), display, klog);
    }
}

} // verus!
