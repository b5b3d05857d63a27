use tacos::drivers::vga::{Cell, Vga, DEFAULT_COLOR};
use tacos::io::cursor::{get_pos, set_pos, Cursor};
use tacos::ui::display::{write_char, write_char_core, write_colored_char};
use tacos::ui::input::{clear, insert_char, remove_char, Input};

fn row_text(v: &Vga, row: usize, len: usize) -> String {
    (0..len).map(|c| v.cell(row, c).ch as char).collect()
}

#[test]
fn characters_are_drawn_under_the_cursor() {
    let mut v = Vga::new();
    let mut c = Cursor::new();
    set_pos(&mut c, &mut v, 3, 1);
    write_char(&mut v, &c, b'a');
    assert_eq!(v.cell(1, 3), Cell { ch: b'a', color: DEFAULT_COLOR });
    write_colored_char(&mut v, &c, b'b', 0x4F);
    assert_eq!(v.cell(1, 3), Cell { ch: b'b', color: 0x4F });
    write_char_core(&mut v, &c, b'c', 0x07);
    assert_eq!(v.cell(1, 3), Cell { ch: b'c', color: 0x07 });
    assert_eq!(get_pos(&c), (3, 1));
}

#[test]
fn typing_draws_the_line() {
    let mut v = Vga::new();
    let mut c = Cursor::new();
    let mut input = Input::new();
    for &b in b"abc" {
        insert_char(&mut input, &mut v, &mut c, b);
    }
    assert_eq!(input.as_slice(), b"abc");
    assert_eq!(row_text(&v, 0, 4), "abc ");
    assert_eq!(get_pos(&c), (3, 0));
    remove_char(&mut input, &mut v, &mut c);
    assert_eq!(input.as_slice(), b"ab");
    assert_eq!(row_text(&v, 0, 4), "ab  ");
    assert_eq!(get_pos(&c), (2, 0));
    remove_char(&mut input, &mut v, &mut c);
    remove_char(&mut input, &mut v, &mut c);
    remove_char(&mut input, &mut v, &mut c);
    assert_eq!(input.as_slice(), b"");
    assert_eq!(get_pos(&c), (0, 0));
}

#[test]
fn the_line_holds_255_bytes() {
    let mut v = Vga::new();
    let mut c = Cursor::new();
    let mut input = Input::new();
    for _ in 0..300 {
        insert_char(&mut input, &mut v, &mut c, b'x');
    }
    assert_eq!(input.as_slice().len(), 255);
    assert_eq!(get_pos(&c), (255 % 80, 3));
    clear(&mut input);
    assert_eq!(input.as_slice(), b"");
    insert_char(&mut input, &mut v, &mut c, b'y');
    assert_eq!(input.as_slice(), b"y");
}
