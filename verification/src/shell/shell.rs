//! The commands that the shell runs by name.

use vstd::prelude::*;
use vstd::string::StringSliceAdditionalSpecFns;
use crate::drivers::vga::DEFAULT_COLOR;
use crate::drivers::vga::Vga;
use crate::io::console::error_color;
use crate::io::console::on_screen;
use crate::io::console::show_error;
use crate::io::console::write_colored_line;
use crate::io::cursor::Cursor;
use crate::io::cursor::Tty;
use crate::io::cursor::tty;
use crate::io::print_engine::digits;
use crate::io::print_engine::lemma_div_shrinks;
use crate::klib::cmd::bytes_equal_range;
use crate::klib::string::c_strlen;

verus! {

/// What the caller has to do after a command.
#[derive(Clone, Copy, Debug, PartialEq, Eq, Structural)]
pub enum ShellAction {
    /// Read the next command.
    Continue,
    /// Power off the machine.
    Shutdown,
}

/// What the shell remembers from command to command.
pub struct Shell {
    tacos_counter: u8,
}

impl Shell {
    /// How often `tacos` was run, as far as a byte counts.
    pub closed spec fn tacos_count(&self) -> int {
        self.tacos_counter as int
    }

    /// A shell in which nothing was run yet.
    pub fn new() -> (s: Shell)
        ensures
            s.tacos_count() == 0,
    {
        Shell { tacos_counter: 0 }
    }
}

/// The console after the line `s` has been typed in the default colour and
/// ended.
pub open spec fn said(t: Tty, s: Seq<u8>) -> Tty {
    t.typed(s, c_strlen(s, s.len() as int), DEFAULT_COLOR).line()
}

/// What `tacos` says when it is run for the `n`-th time.
pub open spec fn tacos_line(n: int) -> Seq<u8> {
    if n == 21 {
        "Still loving those tacos!".spec_bytes()
    } else if n == 42 {
        "Why are you still here? Go eat tacos!".spec_bytes()
    } else {
        "Yum! Tacos are delicious!".spec_bytes()
    }
}

/// The decimal digits of `num`, followed by a zero byte.
pub open spec fn itoa_bytes(num: u8) -> Seq<u8> {
    digits(num as int, 10, false).push(0u8)
}

/// A number below 256 has three decimal digits at most.
pub proof fn lemma_digits_len(num: int)
    requires
        0 <= num < 256,
    ensures
        1 <= digits(num, 10, false).len() <= 3,
        num < 10 ==> digits(num, 10, false).len() == 1,
        10 <= num < 100 ==> digits(num, 10, false).len() == 2,
        100 <= num ==> digits(num, 10, false).len() == 3,
{
    if num >= 10 {
        lemma_div_shrinks(num, 10);
        let q = num / 10;
        if q >= 10 {
            lemma_div_shrinks(q, 10);
            assert(digits(q / 10, 10, false).len() == 1);
            assert(digits(q, 10, false).len() == 2);
        } else {
            assert(digits(q, 10, false).len() == 1);
        }
    }
}

/// Writes the decimal digits of `num` and a zero byte at the start of
/// `buffer`, and returns that part of the buffer.
pub fn u8_itoa(num: u8, buffer: &mut [u8]) -> (r: &[u8])
    requires
        old(buffer)@.len() >= 4,
    ensures
        r@ == itoa_bytes(num),
        final(buffer)@.len() == old(buffer)@.len(),
        final(buffer)@.subrange(0, r@.len() as int) == r@,
        forall|k: int| r@.len() <= k < old(buffer)@.len() ==> final(buffer)@[k] == old(buffer)@[k],
{
    proof {
        lemma_digits_len(num as int);
        if num >= 10 {
            lemma_div_shrinks(num as int, 10);
            if num >= 100 {
                lemma_div_shrinks(num as int / 10, 10);
            }
        }
    }
    let n: usize = if num >= 100 {
        3
    } else if num >= 10 {
        2
    } else {
        1
    };
    let mut v: u8 = num;
    let mut i: usize = n;
    while i > 0
        invariant
            i <= n <= 3,
            buffer@.len() == old(buffer)@.len(),
            buffer@.len() >= 4,
            digits(num as int, 10, false).len() == n,
            i > 0 ==> digits(v as int, 10, false).len() == i,
            i > 0 ==> digits(num as int, 10, false) == digits(v as int, 10, false) + buffer@.subrange(
                i as int,
                n as int,
            ),
            i == 0 ==> digits(num as int, 10, false) == buffer@.subrange(0, n as int),
            forall|k: int| n <= k < buffer@.len() ==> buffer@[k] == old(buffer)@[k],
        decreases i,
    {
        let ghost before = buffer@;
        let ghost prev = v;
        proof {
            if prev >= 10 {
                lemma_div_shrinks(prev as int, 10);
            }
            lemma_digits_len(prev as int / 10);
        }
        i -= 1;
        buffer[i] = 48 + v % 10;
        v = v / 10;
        proof {
            let c = (48 + prev % 10) as u8;
            assert(buffer@.subrange(i as int, n as int) =~= seq![c] + before.subrange(i + 1, n as int));
            if prev < 10 {
                assert(digits(prev as int, 10, false) =~= seq![c]);
                assert(i == 0);
                assert(digits(num as int, 10, false) =~= buffer@.subrange(0, n as int));
            } else {
                assert(digits(prev as int, 10, false) =~= digits(v as int, 10, false).push(c));
                assert(digits(num as int, 10, false) =~= digits(v as int, 10, false) + buffer@.subrange(
                    i as int,
                    n as int,
                ));
            }
        }
    }
    buffer[n] = 0;
    proof {
        assert(buffer@.subrange(0, n + 1) =~= itoa_bytes(num));
    }
    &buffer[0..n + 1]
}

/// What the command `command` does to the console and to the shell, and
/// what the caller has to do then.
pub open spec fn command_outcome(t: Tty, count: int, command: Seq<u8>) -> (Tty, int, ShellAction) {
    if command.len() == 0 {
        (t, count, ShellAction::Continue)
    } else if command == "help".spec_bytes() {
        (said(t, "Available commands: help, tacos, shutdown".spec_bytes()), count, ShellAction::Continue)
    } else if command == "shutdown".spec_bytes() {
        (t, count, ShellAction::Shutdown)
    } else if command == "six".spec_bytes() {
        (said(t, itoa_bytes(6)), count, ShellAction::Continue)
    } else if command == "tacos".spec_bytes() {
        (said(t, tacos_line((count + 1) % 256)), (count + 1) % 256, ShellAction::Continue)
    } else {
        (
            t.typed(
                "Command not found".spec_bytes(),
                "Command not found".spec_bytes().len() as int,
                error_color(),
            ).draw(10, DEFAULT_COLOR).line(),
            count,
            ShellAction::Continue,
        )
    }
}

/// Whether `command` is the word `word`.
fn is_word(command: &[u8], word: &str) -> (r: bool)
    ensures
        r == (command@ == word.spec_bytes()),
{
    proof {
        assert(command@.subrange(0, command@.len() as int) =~= command@);
    }
    bytes_equal_range(command, 0, command.len(), word.as_bytes())
}

fn tacos(shell: &mut Shell, vga: &mut Vga, cursor: &mut Cursor)
    requires
        old(vga).wf(),
        on_screen(tty(old(vga), old(cursor))),
    ensures
        final(vga).wf(),
        on_screen(tty(final(vga), final(cursor))),
        final(shell).tacos_count() == (old(shell).tacos_count() + 1) % 256,
        tty(final(vga), final(cursor)) == said(tty(old(vga), old(cursor)), tacos_line(final(shell).tacos_count())),
{
    shell.tacos_counter = shell.tacos_counter.wrapping_add(1);
    if shell.tacos_counter == 21 {
        write_colored_line(vga, cursor, "Still loving those tacos!".as_bytes(), DEFAULT_COLOR);
    } else if shell.tacos_counter == 42 {
        write_colored_line(vga, cursor, "Why are you still here? Go eat tacos!".as_bytes(), DEFAULT_COLOR);
    } else {
        write_colored_line(vga, cursor, "Yum! Tacos are delicious!".as_bytes(), DEFAULT_COLOR);
    }
}

/// Runs the command `command` and says what the caller has to do then.
///
/// `help` lists the commands, `six` says six, `tacos` praises tacos, and
/// `shutdown` asks the caller to power off.  The empty command does nothing.
/// For anything else an error is shown.
pub fn handle_command(command: &[u8], shell: &mut Shell, vga: &mut Vga, cursor: &mut Cursor) -> (r: ShellAction)
    requires
        old(vga).wf(),
        on_screen(tty(old(vga), old(cursor))),
    ensures
        final(vga).wf(),
        on_screen(tty(final(vga), final(cursor))),
        tty(final(vga), final(cursor)) == command_outcome(
            tty(old(vga), old(cursor)),
            old(shell).tacos_count(),
            command@,
        ).0,
        final(shell).tacos_count() == command_outcome(
            tty(old(vga), old(cursor)),
            old(shell).tacos_count(),
            command@,
        ).1,
        r == command_outcome(tty(old(vga), old(cursor)), old(shell).tacos_count(), command@).2,
{
    if command.len() == 0 {
        return ShellAction::Continue;
    }
    if is_word(command, "help") {
        write_colored_line(vga, cursor, "Available commands: help, tacos, shutdown".as_bytes(), DEFAULT_COLOR);
        ShellAction::Continue
    } else if is_word(command, "shutdown") {
        ShellAction::Shutdown
    } else if is_word(command, "six") {
        let mut buffer: Vec<u8> = vec![0u8; 64];
        let message: &[u8] = u8_itoa(6, buffer.as_mut_slice());
        write_colored_line(vga, cursor, message, DEFAULT_COLOR);
        ShellAction::Continue
    } else if is_word(command, "tacos") {
        tacos(shell, vga, cursor);
        ShellAction::Continue
    } else {
        show_error(vga, cursor, "Command not found");
        ShellAction::Continue
    }
}

} // verus!
