use tacos::drivers::keyboard::KeyEvent;
use tacos::drivers::vga::{draw_char_at, scroll_buffer_up, update_cursor, Cell, Vga, DEFAULT_COLOR};
use tacos::io::console::{show_error, show_prompt, show_welcome_message, write_colored_line, write_line};
use tacos::io::cursor::{get_pos, move_left, move_right, new_line, set_pos, sync_to_hardware, Cursor};
use tacos::io::display::{
    refresh_after_delete, refresh_after_insert, write_char, write_char_at, write_colored_char,
    write_colored_char_at,
};
use tacos::io::input_buffer::InputBuffer;
use tacos::io::io_manager::handle_key_event;

fn row_text(v: &Vga, row: usize, len: usize) -> String {
    (0..len).map(|c| v.cell(row, c).ch as char).collect()
}

#[test]
fn cursor_moves_and_wraps() {
    let mut v = Vga::new();
    let mut c = Cursor::new();
    assert_eq!(get_pos(&c), (0, 0));
    move_left(&mut c, &mut v);
    assert_eq!(get_pos(&c), (0, 0));
    move_right(&mut c, &mut v);
    assert_eq!(get_pos(&c), (1, 0));
    assert_eq!(v.hardware_cursor(), 1);
    set_pos(&mut c, &mut v, 79, 3);
    assert_eq!(v.hardware_cursor(), 3 * 80 + 79);
    move_right(&mut c, &mut v);
    assert_eq!(get_pos(&c), (0, 4));
    move_left(&mut c, &mut v);
    assert_eq!(get_pos(&c), (79, 3));
    new_line(&mut c, &mut v);
    assert_eq!(get_pos(&c), (0, 4));
    assert_eq!(v.hardware_cursor(), 4 * 80);
}

#[test]
fn cursor_scrolls_at_the_bottom() {
    let mut v = Vga::new();
    let mut c = Cursor::new();
    draw_char_at(&mut v, 0, 24, b'x', 7);
    draw_char_at(&mut v, 0, 1, b'y', 7);
    set_pos(&mut c, &mut v, 5, 24);
    new_line(&mut c, &mut v);
    assert_eq!(get_pos(&c), (0, 24));
    assert_eq!(v.cell(23, 0).ch, b'x');
    assert_eq!(v.cell(0, 0).ch, b'y');
    assert_eq!(v.cell(24, 0), Cell { ch: b' ', color: DEFAULT_COLOR });
    set_pos(&mut c, &mut v, 79, 24);
    move_right(&mut c, &mut v);
    assert_eq!(get_pos(&c), (0, 24));
    assert_eq!(v.cell(22, 0).ch, b'x');
    // The screen's own cursor is not touched.
    assert_eq!(v.cursor(), (0, 0));
}

#[test]
fn hardware_cursor_takes_sixteen_bits() {
    let mut v = Vga::new();
    update_cursor(&mut v, 80, 25);
    assert_eq!(v.hardware_cursor(), 2080);
    update_cursor(&mut v, 0, 820);
    assert_eq!(v.hardware_cursor(), (820 * 80 % 65536) as u16);
    let mut c = Cursor::new();
    set_pos(&mut c, &mut v, 3, 2);
    update_cursor(&mut v, 0, 0);
    sync_to_hardware(&c, &mut v);
    assert_eq!(v.hardware_cursor(), 163);
}

#[test]
fn drawing_outside_the_screen_does_nothing() {
    let mut v = Vga::new();
    draw_char_at(&mut v, 80, 0, b'x', 1);
    draw_char_at(&mut v, 0, 25, b'x', 1);
    draw_char_at(&mut v, usize::MAX, usize::MAX, b'x', 1);
    for row in 0..25 {
        for col in 0..80 {
            assert_eq!(v.cell(row, col).ch, b' ');
        }
    }
    scroll_buffer_up(&mut v);
    assert_eq!(v.cursor(), (0, 0));
}

#[test]
fn write_char_draws_under_the_cursor() {
    let mut v = Vga::new();
    let mut c = Cursor::new();
    set_pos(&mut c, &mut v, 4, 2);
    write_char(&mut v, &c, b'a');
    assert_eq!(v.cell(2, 4), Cell { ch: b'a', color: DEFAULT_COLOR });
    write_colored_char(&mut v, &c, b'b', 0x4F);
    assert_eq!(v.cell(2, 4), Cell { ch: b'b', color: 0x4F });
    assert_eq!(get_pos(&c), (4, 2));
    write_char_at(&mut v, b'c', 3, 1);
    assert_eq!(v.cell(1, 5).ch, b'c');
    write_colored_char_at(&mut v, b'd', 0x07, 3, 1);
    assert_eq!(v.cell(1, 3), Cell { ch: b'd', color: 0x07 });
}

#[test]
fn refresh_draws_the_line_behind_the_prompt() {
    let mut v = Vga::new();
    refresh_after_insert(&mut v, b"hello", 5, 1, 7);
    assert_eq!(row_text(&v, 7, 8), "   ello ");
    refresh_after_insert(&mut v, b"HELLO", 99, 0, 7);
    assert_eq!(row_text(&v, 7, 8), "  HELLO ");
    refresh_after_delete(&mut v, b"HEL", 3, 2, 7);
    assert_eq!(row_text(&v, 7, 8), "  HEL O ");
    refresh_after_delete(&mut v, b"HELXO", 4, usize::MAX, 7);
    assert_eq!(row_text(&v, 7, 8), "  HEL   ");
}

#[test]
fn write_line_draws_on_one_cell() {
    let mut v = Vga::new();
    let mut c = Cursor::new();
    write_line(&mut v, &mut c, "abc");
    assert_eq!(v.cell(0, 0).ch, b'c');
    assert_eq!(v.cell(0, 1).ch, b' ');
    assert_eq!(get_pos(&c), (0, 1));
}

#[test]
fn coloured_line_is_typed() {
    let mut v = Vga::new();
    let mut c = Cursor::new();
    write_colored_line(&mut v, &mut c, b"hi there\0junk", 0x07);
    assert_eq!(row_text(&v, 0, 10), "hi there  ");
    assert_eq!(v.cell(0, 3).color, 0x07);
    assert_eq!(get_pos(&c), (0, 1));
}

#[test]
fn prompt_and_error() {
    let mut v = Vga::new();
    let mut c = Cursor::new();
    show_prompt(&mut v, &mut c);
    assert_eq!(v.cell(0, 0), Cell { ch: b'$', color: 0x07 });
    assert_eq!(v.cell(0, 1), Cell { ch: b' ', color: 0x07 });
    assert_eq!(get_pos(&c), (2, 0));
    show_error(&mut v, &mut c, "bad");
    assert_eq!(row_text(&v, 0, 5), "$ bad");
    assert_eq!(v.cell(0, 2).color, 0x04);
    // The line feed is drawn as a character behind the message.
    assert_eq!(v.cell(0, 5), Cell { ch: b'\n', color: DEFAULT_COLOR });
    assert_eq!(get_pos(&c), (0, 1));
}

#[test]
fn greeting_takes_eight_rows() {
    let mut v = Vga::new();
    let mut c = Cursor::new();
    show_welcome_message(&mut v, &mut c);
    assert_eq!(get_pos(&c), (0, 8));
    assert_eq!(row_text(&v, 0, 10), "_/_/_/_/_/");
    assert_eq!(row_text(&v, 4, 8), "_/      ");
    assert_eq!(v.cell(0, 0).color, 0x07);
    assert_eq!(row_text(&v, 5, 4), "    ");
}

#[test]
fn keys_edit_the_line() {
    let mut v = Vga::new();
    let mut c = Cursor::new();
    let mut input = InputBuffer::new();
    show_prompt(&mut v, &mut c);
    for ch in "helo".chars() {
        handle_key_event(KeyEvent::Char(ch), &mut input, &mut v, &mut c);
    }
    assert_eq!(input.get_buffer(), b"helo");
    assert_eq!(row_text(&v, 0, 7), "$ helo ");
    assert_eq!(get_pos(&c), (6, 0));
    handle_key_event(KeyEvent::ArrowLeft, &mut input, &mut v, &mut c);
    handle_key_event(KeyEvent::Char('l'), &mut input, &mut v, &mut c);
    assert_eq!(input.get_buffer(), b"hello");
    assert_eq!(row_text(&v, 0, 8), "$ hello ");
    assert_eq!((input.get_pos(), get_pos(&c)), (4, (6, 0)));
    handle_key_event(KeyEvent::ArrowRight, &mut input, &mut v, &mut c);
    handle_key_event(KeyEvent::ArrowRight, &mut input, &mut v, &mut c);
    assert_eq!((input.get_pos(), get_pos(&c)), (5, (7, 0)));
    handle_key_event(KeyEvent::Backspace, &mut input, &mut v, &mut c);
    assert_eq!(input.get_buffer(), b"hell");
    assert_eq!(row_text(&v, 0, 8), "$ hell  ");
    assert_eq!(get_pos(&c), (6, 0));
    handle_key_event(KeyEvent::Tab, &mut input, &mut v, &mut c);
    handle_key_event(KeyEvent::ArrowUp, &mut input, &mut v, &mut c);
    handle_key_event(KeyEvent::Unknown, &mut input, &mut v, &mut c);
    assert_eq!(input.get_buffer(), b"hell");
    handle_key_event(KeyEvent::Enter, &mut input, &mut v, &mut c);
    assert_eq!(input.get_len(), 0);
    assert_eq!(get_pos(&c), (2, 1));
    assert_eq!(row_text(&v, 1, 3), "$  ");
    // The entered line was drawn on the cell under the cursor.
    assert_eq!(row_text(&v, 0, 8), "$ helll ");
}

#[test]
fn backspace_at_the_start_of_the_line_draws_nothing_again() {
    let mut v = Vga::new();
    let mut c = Cursor::new();
    let mut input = InputBuffer::new();
    handle_key_event(KeyEvent::Backspace, &mut input, &mut v, &mut c);
    assert_eq!(get_pos(&c), (0, 0));
    handle_key_event(KeyEvent::Char('a'), &mut input, &mut v, &mut c);
    handle_key_event(KeyEvent::Char('b'), &mut input, &mut v, &mut c);
    handle_key_event(KeyEvent::ArrowLeft, &mut input, &mut v, &mut c);
    handle_key_event(KeyEvent::Backspace, &mut input, &mut v, &mut c);
    assert_eq!(input.get_buffer(), b"b");
    assert_eq!(input.get_pos(), 0);
    // Only the cell behind the line is blanked; the line is not drawn again.
    assert_eq!(row_text(&v, 0, 5), "  a  ");
}

#[test]
fn characters_are_stored_as_their_low_byte() {
    let mut v = Vga::new();
    let mut c = Cursor::new();
    let mut input = InputBuffer::new();
    handle_key_event(KeyEvent::Char('\u{141}'), &mut input, &mut v, &mut c);
    assert_eq!(input.get_buffer(), &[0x41]);
    for _ in 0..200 {
        handle_key_event(KeyEvent::Char('x'), &mut input, &mut v, &mut c);
    }
    assert_eq!(input.get_len(), 127);
}
