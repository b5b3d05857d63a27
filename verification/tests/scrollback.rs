use tacos::drivers::vga::{draw_char_at, putchar, Cell, Vga, DEFAULT_COLOR};
use tacos::io::cursor::{set_pos, Cursor};
use tacos::io::scrollback::{
    is_scrolled_back, save_live_screen, save_top_line, scroll_down, scroll_up, Scrollback,
};

fn label(v: &mut Vga, row: usize, ch: u8) {
    draw_char_at(v, 0, row, ch, 0x07);
}

fn first_column(v: &Vga) -> Vec<u8> {
    (0..25).map(|r| v.cell(r, 0).ch).collect()
}

/// Lets `n` rows scroll off a screen whose top row is labelled by the
/// number of the row.
fn scrolled_off(n: u8) -> (Scrollback, Vga) {
    let mut sb = Scrollback::new();
    let mut v = Vga::new();
    for i in 0..n {
        label(&mut v, 0, b'A' + i);
        save_top_line(&mut sb, &v);
    }
    for r in 0..25 {
        label(&mut v, r, b'a' + r as u8);
    }
    (sb, v)
}

#[test]
fn nothing_to_scroll_back_to() {
    let mut sb = Scrollback::new();
    let mut v = Vga::new();
    let c = Cursor::new();
    assert!(!scroll_up(&mut sb, &mut v, 3));
    assert!(!scroll_down(&mut sb, &mut v, &c, 3));
    assert!(!is_scrolled_back(&sb));
}

#[test]
fn scroll_up_shows_old_rows_at_the_bottom() {
    let (mut sb, mut v) = scrolled_off(3);
    save_live_screen(&mut sb, &v);
    assert!(scroll_up(&mut sb, &mut v, 1));
    assert!(is_scrolled_back(&sb));
    let col = first_column(&v);
    assert_eq!(&col[22..], b"ABC");
    assert_eq!(&col[..22], &[b' '; 22]);
    assert_eq!(v.cell(24, 0).color, 0x07);
    assert_eq!(v.cell(0, 0), Cell { ch: b' ', color: DEFAULT_COLOR });
    // The hardware cursor is moved off the screen.
    assert_eq!(v.hardware_cursor(), 25 * 80 + 80);
    assert!(scroll_up(&mut sb, &mut v, 1));
    assert_eq!(&first_column(&v)[23..], b"AB");
    assert!(scroll_up(&mut sb, &mut v, 100));
    assert_eq!(first_column(&v)[24], b'A');
    assert!(!scroll_up(&mut sb, &mut v, 1));
    assert!(!scroll_up(&mut sb, &mut v, usize::MAX));
}

#[test]
fn scroll_down_returns_to_the_live_screen() {
    let (mut sb, mut v) = scrolled_off(3);
    let mut c = Cursor::new();
    set_pos(&mut c, &mut v, 7, 9);
    save_live_screen(&mut sb, &v);
    let live = first_column(&v);
    assert!(scroll_up(&mut sb, &mut v, 3));
    assert!(scroll_down(&mut sb, &mut v, &c, 1));
    assert_eq!(&first_column(&v)[23..], b"AB");
    assert!(scroll_down(&mut sb, &mut v, &c, 5));
    assert!(!is_scrolled_back(&sb));
    assert_eq!(first_column(&v), live);
    assert_eq!(v.hardware_cursor(), 9 * 80 + 7);
    assert!(!scroll_down(&mut sb, &mut v, &c, 1));
}

#[test]
fn view_stays_while_rows_scroll_off() {
    let (mut sb, mut v) = scrolled_off(3);
    save_live_screen(&mut sb, &v);
    assert!(scroll_up(&mut sb, &mut v, 1));
    let mut fresh = Vga::new();
    putchar(&mut fresh, b'D');
    save_top_line(&mut sb, &fresh);
    // One row further back now shows the same rows.
    let mut again = Vga::new();
    assert!(scroll_up(&mut sb, &mut again, 0) == false);
    assert!(scroll_up(&mut sb, &mut again, 1));
    assert_eq!(&first_column(&again)[23..], b"AB");
    let c = Cursor::new();
    assert!(scroll_down(&mut sb, &mut again, &c, 2));
    assert_eq!(&first_column(&again)[21..], b"ABCD");
}

#[test]
fn two_hundred_rows_are_kept() {
    let mut sb = Scrollback::new();
    let mut v = Vga::new();
    for i in 0..250u32 {
        label(&mut v, 0, (i % 250) as u8);
        draw_char_at(&mut v, 79, 0, 1 + (i / 100) as u8, 0x07);
        save_top_line(&mut sb, &v);
    }
    assert!(scroll_up(&mut sb, &mut v, 1000));
    // The oldest row that is kept is row 50.
    assert_eq!(v.cell(24, 0).ch, 50);
    assert_eq!(v.cell(24, 79).ch, 1);
    assert_eq!(v.cell(23, 0).ch, b' ');
    let c = Cursor::new();
    assert!(scroll_down(&mut sb, &mut v, &c, 199));
    assert_eq!(v.cell(24, 0).ch, 249);
    assert_eq!(v.cell(0, 0).ch, 225);
    assert_eq!(v.cell(24, 79).ch, 3);
}
