//! The console of the shell: the greeting, the prompt, and the room that
//! the input line has behind the prompt.

use vstd::prelude::*;
use vstd::string::StringSliceAdditionalSpecFns;
use crate::drivers::vga::Color;
use crate::drivers::vga::VGA_WIDTH;
use crate::drivers::vga::VgaView;
use crate::drivers::vga::get_color_code;
use crate::io::console::plain_color;
use crate::io::display::Display;
use crate::io::display::get_pos;
use crate::io::display::put_str;
use crate::io::display::put_str_colored;

verus! {

/// Line `i` of the greeting, with its line feed.
pub open spec fn banner_line(i: int) -> Seq<u8> {
    if i == 0 {
        "  _/  _/      _/_/      _/_/_/_/_/                      _/_/      _/_/_/    _/\n".spec_bytes()
    }
    else if i == 1 {
        " _/  _/    _/    _/        _/      _/_/_/    _/_/_/  _/    _/  _/          _/ \n".spec_bytes()
    }
    else if i == 2 {
        "_/_/_/_/      _/          _/    _/    _/  _/        _/    _/    _/_/      _/  \n".spec_bytes()
    }
    else if i == 3 {
        "   _/      _/            _/    _/    _/  _/        _/    _/        _/         \n".spec_bytes()
    }
    else if i == 4 {
        "  _/    _/_/_/_/        _/      _/_/_/    _/_/_/    _/_/    _/_/_/      _/    \n".spec_bytes()
    } else {
        Seq::empty()
    }
}

/// The screen after the bytes of `s` have been put out in colour `color`.
pub open spec fn shown(v: VgaView, s: Seq<u8>, color: u8) -> VgaView {
    v.put_all(s, s.len() as int, color)
}

/// The screen after the greeting: its five lines in light gray, and three
/// empty lines in colour `color`.
pub open spec fn welcomed(v: VgaView, color: u8) -> VgaView {
    let c = plain_color();
    shown(
        shown(shown(shown(shown(shown(v, banner_line(0), c), banner_line(1), c), banner_line(2), c), banner_line(3), c), banner_line(4), c),
        "\n\n\n".spec_bytes(),
        color,
    )
}

/// Shows the greeting.
pub fn show_welcome_message(display: &mut Display)
    requires
        old(display).wf(),
    ensures
        final(display).wf(),
        final(display).color == old(display).color,
        final(display).vga@ == welcomed(old(display).vga@, old(display).color),
{
    let c: u8 = get_color_code(Color::LightGray, Color::Black);
    put_str_colored(display, "  _/  _/      _/_/      _/_/_/_/_/                      _/_/      _/_/_/    _/\n", c);
    put_str_colored(display, " _/  _/    _/    _/        _/      _/_/_/    _/_/_/  _/    _/  _/          _/ \n", c);
    put_str_colored(display, "_/_/_/_/      _/          _/    _/    _/  _/        _/    _/    _/_/      _/  \n", c);
    put_str_colored(display, "   _/      _/            _/    _/    _/  _/        _/    _/        _/         \n", c);
    put_str_colored(display, "  _/    _/_/_/_/        _/      _/_/_/    _/_/_/    _/_/    _/_/_/      _/    \n", c);
    put_str(display, "\n\n\n");
}

/// Where the prompt of the current input line starts.
pub struct ShellConsole {
    prompt_start_col: usize,
}

impl ShellConsole {
    /// The column in which the prompt starts.
    pub closed spec fn prompt_col(&self) -> int {
        self.prompt_start_col as int
    }

    /// The prompt starts on the screen.
    pub open spec fn wf(&self) -> bool {
        0 <= self.prompt_col() < VGA_WIDTH
    }

    /// A console whose prompt starts in the first column.
    pub fn new() -> (c: ShellConsole)
        ensures
            c.wf(),
            c.prompt_col() == 0,
    {
        ShellConsole { prompt_start_col: 0 }
    }
}

/// Shows the prompt in light gray at the cursor and remembers the column in
/// which it starts.
pub fn show_prompt(console: &mut ShellConsole, display: &mut Display)
    requires
        old(display).wf(),
    ensures
        final(display).wf(),
        final(console).wf(),
        final(console).prompt_col() == old(display).vga@.x,
        final(display).color == old(display).color,
        final(display).vga@ == shown(old(display).vga@, "$ ".spec_bytes(), plain_color()),
{
    let (x, _y) = get_pos(display);
    console.prompt_start_col = x;
    let color: u8 = get_color_code(Color::LightGray, Color::Black);
    put_str_colored(display, "$ ", color);
}

/// The column in which the input starts: behind the prompt.
pub fn input_start_col(console: &ShellConsole) -> (r: usize)
    requires
        console.wf(),
    ensures
        r == console.prompt_col() + 2,
{
    console.prompt_start_col + 2
}

/// How many bytes of input fit on the line behind the prompt.
pub fn max_input_len(console: &ShellConsole) -> (r: usize)
    requires
        console.wf(),
    ensures
        r == if console.prompt_col() + 2 >= VGA_WIDTH {
            0
        } else {
            VGA_WIDTH - (console.prompt_col() + 2)
        },
{
    let start: usize = input_start_col(console);
    if start >= VGA_WIDTH {
        0
    } else {
        VGA_WIDTH - start
    }
}

} // verus!
