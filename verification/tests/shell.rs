use tacos::drivers::vga::Vga;
use tacos::io::cursor::{get_pos, Cursor};
use tacos::io::display::{set_color, Display};
use tacos::io::klog::{contents, log_str, Klog};
use tacos::klib::helpers::{print_hex, to_hex_char};
use tacos::klib::memory::memset;
use tacos::panic::{_kernel_warn, panic_halted, panic_report};
use tacos::shell::builtin::dmesg::dmesg;
use tacos::shell::builtin::echo::{echo, hex_digit, print_with_escapes};
use tacos::shell::console::{input_start_col, max_input_len, show_prompt, show_welcome_message, ShellConsole};
use tacos::shell::shell::{handle_command, u8_itoa, Shell, ShellAction};

fn screen(d: &Display, rows: usize) -> Vec<String> {
    (0..rows)
        .map(|r| (0..80).map(|c| d.vga.cell(r, c).ch as char).collect::<String>().trim_end().to_string())
        .collect()
}

fn vga_row(v: &Vga, row: usize) -> String {
    (0..80).map(|c| v.cell(row, c).ch as char).collect::<String>().trim_end().to_string()
}

fn echoed(line: &[u8]) -> (Vec<String>, (usize, usize)) {
    let mut d = Display::new();
    let mut k = Klog::new();
    echo(line, &mut d, &mut k);
    assert_eq!(contents(&k), b"");
    (screen(&d, 3), d.vga.cursor())
}

#[test]
fn echo_puts_out_its_arguments() {
    assert_eq!(echoed(b"echo hello world"), (vec!["hello world".into(), "".into(), "".into()], (0, 1)));
    assert_eq!(echoed(b"echo"), (vec!["".into(), "".into(), "".into()], (0, 1)));
    assert_eq!(echoed(b"echo -n hi"), (vec!["hi".into(), "".into(), "".into()], (2, 0)));
    assert_eq!(echoed(b"echo -n"), (vec!["".into(), "".into(), "".into()], (0, 0)));
}

#[test]
fn echo_escapes_need_the_flag() {
    assert_eq!(echoed(b"echo a\\nb").0[0], "a\\nb");
    assert_eq!(echoed(b"echo -e a\\nb").0, vec!["a", "b", ""]);
    assert_eq!(echoed(b"echo -eE a\\nb").0[0], "a\\nb");
    assert_eq!(echoed(b"echo -E -e a\\nb").0[0], "a\\nb");
    assert_eq!(echoed(b"echo -ne a\\nb"), (vec!["a".into(), "b".into(), "".into()], (1, 1)));
    assert_eq!(echoed(b"echo -x a").0[0], "-x a");
}

#[test]
fn escapes() {
    let mut d = Display::new();
    let mut k = Klog::new();
    print_with_escapes(b"a\\\\b\\x41\\x4\\x\\101\\0\\q\\", &mut d, &mut k);
    let cells: Vec<u8> = (0..14).map(|c| d.vga.cell(0, c).ch).collect();
    // `\x4` takes one digit, `\x` without a digit stands for nothing, and
    // `\1` is no escape: octal numbers start with `\0`.
    assert_eq!(cells, b"a\\bA\x04\\101\0\\q\\ ");
    assert_eq!(d.vga.cursor(), (13, 0));
}

#[test]
fn escape_c_ends_the_output() {
    assert_eq!(echoed(b"echo -e one\\ctwo"), (vec!["one".into(), "".into(), "".into()], (0, 1)));
    assert_eq!(echoed(b"echo -ne one\\ctwo"), (vec!["one".into(), "".into(), "".into()], (3, 0)));
}

#[test]
fn escapes_of_numbers() {
    let mut d = Display::new();
    let mut k = Klog::new();
    print_with_escapes(b"\\0101\\x414\\0777\\xfg\\08", &mut d, &mut k);
    let cells: Vec<u8> = (0..8).map(|c| d.vga.cell(0, c).ch).collect();
    // Three octal digits at most, two hexadecimal; 0777 is taken modulo 256.
    assert_eq!(cells, b"AA4\xFF\x0Fg\08");
    assert_eq!(d.vga.cursor(), (8, 0));
}

#[test]
fn control_escapes_act_on_the_cursor() {
    let mut d = Display::new();
    let mut k = Klog::new();
    print_with_escapes(b"ab\\rc\\nd\\te", &mut d, &mut k);
    assert_eq!(screen(&d, 2)[0], "cb");
    assert_eq!(d.vga.cell(1, 0).ch, b'd');
    assert_eq!(d.vga.cell(1, 1).ch, 9);
    assert_eq!(d.vga.cell(1, 2).ch, b'e');
}

#[test]
fn hex_digits() {
    assert_eq!(hex_digit(b'0'), 0);
    assert_eq!(hex_digit(b'9'), 9);
    assert_eq!(hex_digit(b'a'), 10);
    assert_eq!(hex_digit(b'f'), 15);
    assert_eq!(hex_digit(b'A'), 10);
    assert_eq!(hex_digit(b'F'), 15);
    assert_eq!(hex_digit(b'g'), 0xFF);
    assert_eq!(hex_digit(b'/'), 0xFF);
    assert_eq!(hex_digit(b':'), 0xFF);
    assert_eq!(hex_digit(b'G'), 0xFF);
}

#[test]
fn dmesg_shows_and_clears_the_log() {
    let mut d = Display::new();
    let mut k = Klog::new();
    log_str(&mut k, "boot");
    dmesg(&[b"dmesg"], &mut k, &mut d);
    assert_eq!(screen(&d, 1)[0], "boot");
    assert_eq!(contents(&k), b"boot");
    dmesg(&[b"dmesg", b"-x"], &mut k, &mut d);
    assert_eq!(screen(&d, 1)[0], "bootboot");
    dmesg(&[b"dmesg", b"-c", b"more"], &mut k, &mut d);
    assert_eq!(screen(&d, 2), vec!["bootbootboot[klog cleared]", ""]);
    assert_eq!(contents(&k), b"");
    assert_eq!(d.vga.cursor(), (0, 1));
    dmesg(&[], &mut k, &mut d);
    assert_eq!(d.vga.cursor(), (0, 1));
}

#[test]
fn warning_is_yellow_and_logged() {
    let mut d = Display::new();
    let mut k = Klog::new();
    set_color(&mut d, 0x07);
    _kernel_warn("Low memory", "heap.rs", 42, &mut d, &mut k);
    assert_eq!(screen(&d, 1)[0], "[WARN] Low memory (heap.rs:42)");
    assert_eq!(contents(&k), b"[WARN] Low memory (heap.rs:42)\n");
    // Arguments are in yellow, the text of the format in the default colour.
    assert_eq!(d.vga.cell(0, 7).color, 0x0E);
    assert_eq!(d.vga.cell(0, 0).color, 0x0B);
    assert_eq!(d.color, 0x07);
    assert_eq!(d.vga.cursor(), (0, 1));
}

#[test]
fn panic_report_names_the_place() {
    let mut d = Display::new();
    let mut k = Klog::new();
    panic_report("kfree: double free detected", "heap.rs", 248, &mut d, &mut k);
    let rows = screen(&d, 8);
    assert_eq!(rows[0], "");
    assert_eq!(rows[1], "!!!!!!!!!!!!!!!!!!!!!!!!!!!!!!!!!!!!!!!");
    assert_eq!(rows[2], "!!!        KERNEL PANIC             !!!");
    assert_eq!(rows[5], "  kfree: double free detected");
    assert_eq!(rows[6], "  at heap.rs:248");
    assert_eq!(d.vga.cell(5, 2).color, 0x4F);
    assert_eq!(d.color, 0x4F);
    panic_halted(&mut d, &mut k);
    assert_eq!(screen(&d, 10)[9], "System halted.");
    assert!(contents(&k).ends_with(b"\nSystem halted.\n"));
}

#[test]
fn shell_commands() {
    let mut v = Vga::new();
    let mut c = Cursor::new();
    let mut s = Shell::new();
    assert_eq!(handle_command(b"", &mut s, &mut v, &mut c), ShellAction::Continue);
    assert_eq!(get_pos(&c), (0, 0));
    assert_eq!(handle_command(b"help", &mut s, &mut v, &mut c), ShellAction::Continue);
    assert_eq!(vga_row(&v, 0), "Available commands: help, tacos, shutdown");
    assert_eq!(handle_command(b"six", &mut s, &mut v, &mut c), ShellAction::Continue);
    assert_eq!(vga_row(&v, 1), "6");
    assert_eq!(handle_command(b"shutdown", &mut s, &mut v, &mut c), ShellAction::Shutdown);
    assert_eq!(get_pos(&c), (0, 2));
    assert_eq!(handle_command(b"helpx", &mut s, &mut v, &mut c), ShellAction::Continue);
    assert_eq!(&vga_row(&v, 2)[..17], "Command not found");
    assert_eq!(v.cell(2, 0).color, 0x04);
    assert_eq!(get_pos(&c), (0, 3));
}

#[test]
fn tacos_counts() {
    let mut v = Vga::new();
    let mut c = Cursor::new();
    let mut s = Shell::new();
    let mut said: Vec<String> = Vec::new();
    for n in 1..=300 {
        handle_command(b"tacos", &mut s, &mut v, &mut c);
        let (_, y) = get_pos(&c);
        let line = vga_row(&v, y - 1);
        if line != "Yum! Tacos are delicious!" {
            said.push(format!("{}: {}", n, line));
        }
    }
    assert_eq!(said, vec![
        "21: Still loving those tacos!",
        "42: Why are you still here? Go eat tacos!",
        "277: Still loving those tacos!",
        "298: Why are you still here? Go eat tacos!",
    ]);
}

#[test]
fn itoa_of_a_byte() {
    let mut buf = [b'#'; 8];
    assert_eq!(u8_itoa(0, &mut buf), b"0\0");
    assert_eq!(u8_itoa(6, &mut buf), b"6\0");
    assert_eq!(u8_itoa(10, &mut buf), b"10\0");
    assert_eq!(u8_itoa(99, &mut buf), b"99\0");
    assert_eq!(u8_itoa(100, &mut buf), b"100\0");
    assert_eq!(u8_itoa(255, &mut buf), b"255\0");
    assert_eq!(&buf, b"255\0####");
}

#[test]
fn shell_console_prompt() {
    let mut d = Display::new();
    let mut con = ShellConsole::new();
    assert_eq!(input_start_col(&con), 2);
    assert_eq!(max_input_len(&con), 78);
    show_welcome_message(&mut d);
    assert_eq!(d.vga.cursor(), (0, 8));
    assert_eq!(screen(&d, 1)[0], "  _/  _/      _/_/      _/_/_/_/_/                      _/_/      _/_/_/    _/");
    assert_eq!(d.vga.cell(0, 2).color, 0x07);
    tacos::io::display::put_str(&mut d, "abc");
    show_prompt(&mut con, &mut d);
    assert_eq!(screen(&d, 9)[8], "abc$");
    assert_eq!(input_start_col(&con), 5);
    assert_eq!(max_input_len(&con), 75);
    tacos::io::display::put_str(&mut d, &"x".repeat(74));
    show_prompt(&mut con, &mut d);
    assert_eq!(input_start_col(&con), 81);
    assert_eq!(max_input_len(&con), 0);
}

#[test]
fn hex_output() {
    assert_eq!(to_hex_char(0), b'0');
    assert_eq!(to_hex_char(9), b'9');
    assert_eq!(to_hex_char(10), b'a');
    assert_eq!(to_hex_char(15), b'f');
    assert_eq!(to_hex_char(16), b'?');
    let mut v = Vga::new();
    print_hex(&mut v, 0x3F);
    print_hex(&mut v, 0xA0);
    assert_eq!(vga_row(&v, 0), "3f a0");
    assert_eq!(v.cursor(), (6, 0));
}

#[test]
fn memset_fills_the_first_bytes() {
    let mut b = [1u8; 6];
    memset(&mut b, 0xAB, 4);
    assert_eq!(b, [0xAB, 0xAB, 0xAB, 0xAB, 1, 1]);
    memset(&mut b, 0x1_02, 1);
    assert_eq!(b[0], 2);
    memset(&mut b, -1, 2);
    assert_eq!(b, [0xFF, 0xFF, 0xAB, 0xAB, 1, 1]);
    memset(&mut b, -256, 1);
    assert_eq!(b[0], 0);
    memset(&mut b, i32::MIN, 1);
    assert_eq!(b[0], 0);
    memset(&mut b, 7, 0);
    assert_eq!(b[0], 0);
}
