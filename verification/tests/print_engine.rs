use tacos::io::print_engine::{emit_buf, emit_byte, emit_bytes, emit_raw, emit_str};
use tacos::drivers::vga::DEFAULT_COLOR;
use tacos::io::display::{
    get_color, get_pos, put_bytes, put_char, put_str, put_str_colored, set_color, write_byte, Display,
};
use tacos::io::klog::{contents, Klog};
use tacos::io::print_engine::{
    parse_spec, u32_to_base, write_arg, write_display, write_i32, write_kernel, write_klog, write_u32,
    FmtSpec, PrintArg, Sink,
};

fn logged(fmt: &str, args: &[PrintArg]) -> String {
    let mut d = Display::new();
    let mut k = Klog::new();
    write_klog(fmt, args, &mut d, &mut k);
    assert_eq!(d.vga.cursor(), (0, 0));
    String::from_utf8(contents(&k)).unwrap()
}

fn row_text(d: &Display, row: usize, len: usize) -> String {
    (0..len).map(|c| d.vga.cell(row, c).ch as char).collect()
}

#[test]
fn sinks() {
    assert!(Sink::Display.to_display() && !Sink::Display.to_klog());
    assert!(!Sink::Klog.to_display() && Sink::Klog.to_klog());
    assert!(Sink::Kernel.to_display() && Sink::Kernel.to_klog());
}

#[test]
fn spec_params() {
    assert_eq!(FmtSpec::Default.params(), (10, false, b"".to_vec()));
    assert_eq!(FmtSpec::Hex.params(), (16, false, b"".to_vec()));
    assert_eq!(FmtSpec::HexUpper.params(), (16, true, b"".to_vec()));
    assert_eq!(FmtSpec::Binary.params(), (2, false, b"".to_vec()));
    assert_eq!(FmtSpec::Octal.params(), (8, false, b"".to_vec()));
    assert_eq!(FmtSpec::HexAlt.params(), (16, false, b"0x".to_vec()));
    assert_eq!(FmtSpec::HexUpperAlt.params(), (16, true, b"0X".to_vec()));
    assert_eq!(FmtSpec::BinaryAlt.params(), (2, false, b"0b".to_vec()));
    assert_eq!(FmtSpec::OctalAlt.params(), (8, false, b"0o".to_vec()));
}

#[test]
fn digits_of_numbers() {
    let mut buf = [b'#'; 34];
    let s = u32_to_base(0, 10, false, &mut buf);
    assert_eq!(&buf[s..], b"0");
    let s = u32_to_base(4_294_967_295, 10, false, &mut buf);
    assert_eq!(&buf[s..], b"4294967295");
    let s = u32_to_base(0xDEAD_BEEF, 16, false, &mut buf);
    assert_eq!(&buf[s..], b"deadbeef");
    let s = u32_to_base(0xDEAD_BEEF, 16, true, &mut buf);
    assert_eq!(&buf[s..], b"DEADBEEF");
    let s = u32_to_base(u32::MAX, 2, false, &mut buf);
    assert_eq!(s, 2);
    assert_eq!(&buf[s..], &[b'1'; 32]);
    assert_eq!(&buf[..2], b"##");
    let s = u32_to_base(8, 8, false, &mut buf);
    assert_eq!(&buf[s..], b"10");
    let s = u32_to_base(35, 36, false, &mut buf);
    assert_eq!(&buf[s..], b"z");
}

#[test]
fn placeholder_specs() {
    let f = b"{:x}{:#X}{}{:q}{:#q}{:##}{x}";
    assert_eq!(parse_spec(f, 1, 3), FmtSpec::Hex);
    assert_eq!(parse_spec(f, 5, 8), FmtSpec::HexUpperAlt);
    assert_eq!(parse_spec(f, 10, 10), FmtSpec::Default);
    assert_eq!(parse_spec(f, 12, 14), FmtSpec::Default);
    assert_eq!(parse_spec(f, 16, 19), FmtSpec::Default);
    assert_eq!(parse_spec(f, 21, 24), FmtSpec::Default);
    assert_eq!(parse_spec(f, 26, 27), FmtSpec::Default);
    assert_eq!(parse_spec(b":b", 0, 2), FmtSpec::Binary);
    assert_eq!(parse_spec(b":o", 0, 2), FmtSpec::Octal);
    assert_eq!(parse_spec(b":X", 0, 2), FmtSpec::HexUpper);
    assert_eq!(parse_spec(b":#x", 0, 3), FmtSpec::HexAlt);
    assert_eq!(parse_spec(b":#b", 0, 3), FmtSpec::BinaryAlt);
    assert_eq!(parse_spec(b":#o", 0, 3), FmtSpec::OctalAlt);
    assert_eq!(parse_spec(b"x:", 0, 2), FmtSpec::Default);
}

#[test]
fn formats_arguments() {
    assert_eq!(logged("Hello, {}!\n", &[PrintArg::Str("TacOS")]), "Hello, TacOS!\n");
    assert_eq!(
        logged("Dec: {}, Hex: {:#x}, Bin: {:#b}", &[PrintArg::U32(42), PrintArg::U32(255), PrintArg::U32(10)]),
        "Dec: 42, Hex: 0xff, Bin: 0b1010"
    );
    assert_eq!(logged("{:X} {:#X} {:o} {:#o} {:b}", &[
        PrintArg::U32(0xBEEF), PrintArg::U32(0xBEEF), PrintArg::U32(8), PrintArg::U32(8), PrintArg::U32(5),
    ]), "BEEF 0XBEEF 10 0o10 101");
    assert_eq!(logged("{} {} {}", &[PrintArg::Bool(true), PrintArg::Bool(false), PrintArg::Char(b'c')]), "true false c");
    assert_eq!(logged("{}|{}", &[PrintArg::Bytes(b"raw"), PrintArg::Usize(77)]), "raw|77");
    assert_eq!(logged("{} {} {}", &[PrintArg::I32(-5), PrintArg::I32(0), PrintArg::I32(i32::MAX)]), "-5 0 2147483647");
    assert_eq!(logged("{} {:x}", &[PrintArg::I32(i32::MIN), PrintArg::I32(-255)]), "-2147483648 -ff");
}

#[test]
fn wide_numbers_keep_their_low_half() {
    if usize::BITS > 32 {
        let v: usize = (7usize << 32) | 9;
        assert_eq!(logged("{}", &[PrintArg::Usize(v)]), "9");
    }
    assert_eq!(logged("{}", &[PrintArg::Usize(0xFFFF_FFFF)]), "4294967295");
}

#[test]
fn braces() {
    assert_eq!(logged("{{}} {{{}}}", &[PrintArg::U32(1)]), "{} {1}");
    assert_eq!(logged("a } b }} c", &[]), "a } b } c");
    assert_eq!(logged("}", &[]), "}");
}

#[test]
fn placeholders_without_arguments_vanish() {
    assert_eq!(logged("a{}b{:x}c", &[]), "abc");
    assert_eq!(logged("{}{}", &[PrintArg::U32(1)]), "1");
    assert_eq!(logged("{}", &[PrintArg::U32(1), PrintArg::U32(2)]), "1");
}

#[test]
fn unclosed_placeholder_takes_the_rest() {
    assert_eq!(logged("a{:x", &[PrintArg::U32(255)]), "aff");
    assert_eq!(logged("a{", &[PrintArg::U32(255)]), "a255");
    assert_eq!(logged("{whatever}!", &[PrintArg::U32(3)]), "3!");
    assert_eq!(logged("", &[PrintArg::U32(3)]), "");
}

#[test]
fn display_sink_interprets_line_ends_of_the_format_only() {
    let mut d = Display::new();
    let mut k = Klog::new();
    write_display("ab\n{}\n", &[PrintArg::Char(b'\n')], &mut d, &mut k);
    assert_eq!(contents(&k), b"");
    assert_eq!(row_text(&d, 0, 3), "ab ");
    // The character argument is drawn as it is.
    assert_eq!(d.vga.cell(1, 0).ch, b'\n');
    assert_eq!(d.vga.cursor(), (0, 2));
}

#[test]
fn kernel_sink_writes_to_both() {
    let mut d = Display::new();
    let mut k = Klog::new();
    write_kernel("x={}", &[PrintArg::U32(7)], &mut d, &mut k);
    assert_eq!(contents(&k), b"x=7");
    assert_eq!(row_text(&d, 0, 4), "x=7 ");
    tacos::io::print_engine::format("!", &[], Sink::Klog, &mut d, &mut k);
    assert_eq!(contents(&k), b"x=7!");
    assert_eq!(row_text(&d, 0, 4), "x=7 ");
}

#[test]
fn colours_of_formatted_text() {
    let mut d = Display::new();
    let mut k = Klog::new();
    set_color(&mut d, 0x0E);
    write_display("a{}{}", &[PrintArg::Str("b"), PrintArg::U32(1)], &mut d, &mut k);
    // Text of the format string itself is in the default colour.
    assert_eq!(d.vga.cell(0, 0).color, DEFAULT_COLOR);
    assert_eq!(d.vga.cell(0, 1).color, 0x0E);
    assert_eq!(d.vga.cell(0, 2).color, 0x0E);
    assert_eq!(get_color(&d), 0x0E);
}

#[test]
fn numbers_and_arguments_directly() {
    let mut d = Display::new();
    let mut k = Klog::new();
    write_u32(255, FmtSpec::HexAlt, Sink::Klog, &mut d, &mut k);
    write_i32(-8, FmtSpec::Octal, Sink::Klog, &mut d, &mut k);
    write_arg(&PrintArg::Str("s"), FmtSpec::Hex, Sink::Klog, &mut d, &mut k);
    assert_eq!(contents(&k), b"0xff-10s");
}

#[test]
fn display_primitives() {
    let mut d = Display::new();
    put_char(&mut d, b'\n');
    assert_eq!(d.vga.cell(0, 0).ch, b'\n');
    assert_eq!(get_pos(&d), (1, 0));
    write_byte(&mut d, b'\n', 0x07);
    assert_eq!(get_pos(&d), (0, 1));
    put_str(&mut d, "ab\rc");
    assert_eq!(row_text(&d, 1, 3), "cb ");
    put_bytes(&mut d, b"\nxy");
    assert_eq!(row_text(&d, 2, 3), "xy ");
    put_str_colored(&mut d, "z", 0x4F);
    assert_eq!(d.vga.cell(2, 2).color, 0x4F);
    assert_eq!(d.vga.cell(2, 1).color, DEFAULT_COLOR);
}

#[test]
fn single_emissions() {
    let mut d = Display::new();
    let mut k = Klog::new();
    set_color(&mut d, 0x0E);
    emit_raw(b'\n', Sink::Kernel, &mut d, &mut k);
    emit_byte(b'a', Sink::Kernel, &mut d, &mut k);
    emit_byte(b'\n', Sink::Display, &mut d, &mut k);
    emit_bytes(b"bc", Sink::Kernel, &mut d, &mut k);
    emit_str("d\n", Sink::Klog, &mut d, &mut k);
    let mut buf = [b'0'; 34];
    buf[32] = b'4';
    buf[33] = b'2';
    emit_buf(&buf, 32, Sink::Kernel, &mut d, &mut k);
    emit_buf(&buf, 34, Sink::Kernel, &mut d, &mut k);
    assert_eq!(contents(&k), b"\nabcd\n42");
    assert_eq!(d.vga.cell(0, 0).ch, b'\n');
    assert_eq!(d.vga.cell(0, 0).color, 0x0E);
    assert_eq!(d.vga.cell(0, 1).ch, b'a');
    assert_eq!(d.vga.cell(0, 1).color, DEFAULT_COLOR);
    assert_eq!(row_text(&d, 1, 5), "bc42 ");
    assert_eq!(d.vga.cell(1, 0).color, 0x0E);
}
