use tacos::io::input_buffer::{InputBuffer, BUFFER_SIZE};

fn typed(text: &[u8]) -> InputBuffer {
    let mut b = InputBuffer::new();
    for &c in text {
        assert!(b.insert_char(c));
    }
    b
}

#[test]
fn new_buffer_is_empty() {
    let b = InputBuffer::new();
    assert_eq!(b.get_len(), 0);
    assert_eq!(b.get_pos(), 0);
    assert_eq!(b.get_buffer(), b"");
    assert!(!b.can_move_left());
    assert!(!b.can_move_right());
    assert!(b.buffer.iter().all(|&c| c == 0));
}

#[test]
fn insert_at_the_end_and_in_the_middle() {
    let mut b = typed(b"held");
    assert_eq!(b.get_buffer(), b"held");
    assert_eq!((b.get_len(), b.get_pos()), (4, 4));
    b.move_left();
    assert!(b.insert_char(b'l'));
    assert_eq!(b.get_buffer(), b"helld");
    assert_eq!((b.get_len(), b.get_pos()), (5, 4));
    b.move_left();
    b.move_left();
    b.move_left();
    b.move_left();
    b.move_left();
    assert_eq!(b.get_pos(), 0);
    assert!(b.insert_char(b'>'));
    assert_eq!(b.get_buffer(), b">helld");
    assert_eq!(b.get_pos(), 1);
}

#[test]
fn insert_fails_when_full() {
    let mut b = InputBuffer::new();
    for i in 0..BUFFER_SIZE - 1 {
        assert!(b.insert_char(b'a' + (i % 26) as u8));
    }
    assert_eq!(b.get_len(), 127);
    let before = b.buffer;
    assert!(!b.insert_char(b'!'));
    assert_eq!(b.get_len(), 127);
    assert_eq!(b.get_pos(), 127);
    assert_eq!(b.buffer, before);
    b.move_left();
    assert!(!b.insert_char(b'!'));
    assert_eq!(b.buffer[127], 0);
}

#[test]
fn remove_takes_the_byte_before_the_cursor() {
    let mut b = typed(b"abcd");
    assert!(b.remove_char());
    assert_eq!(b.get_buffer(), b"abc");
    assert_eq!(b.buffer[3], 0);
    b.move_left();
    assert!(b.remove_char());
    assert_eq!(b.get_buffer(), b"ac");
    assert_eq!((b.get_len(), b.get_pos()), (2, 1));
    assert!(b.remove_char());
    assert_eq!(b.get_buffer(), b"c");
    assert!(!b.remove_char());
    assert_eq!(b.get_buffer(), b"c");
    assert_eq!((b.get_len(), b.get_pos()), (1, 0));
}

#[test]
fn remove_refuses_a_cursor_outside_the_line() {
    let mut b = typed(b"ab");
    b.pos = 3;
    assert!(!b.remove_char());
    assert_eq!((b.len, b.pos), (2, 3));
    let mut e = InputBuffer::new();
    assert!(!e.remove_char());
}

#[test]
fn cursor_moves_inside_the_line() {
    let mut b = typed(b"ab");
    assert!(b.can_move_left());
    assert!(!b.can_move_right());
    b.move_right();
    assert_eq!(b.get_pos(), 2);
    b.move_left();
    assert_eq!(b.get_pos(), 1);
    assert!(b.can_move_right());
    b.move_left();
    b.move_left();
    assert_eq!(b.get_pos(), 0);
    b.move_right();
    b.move_right();
    b.move_right();
    assert_eq!(b.get_pos(), 2);
}

#[test]
fn flush_hands_out_the_line_and_resets() {
    let mut b = typed(b"ls -l");
    b.move_left();
    assert_eq!(b.flush(), b"ls -l");
    assert_eq!((b.get_len(), b.get_pos()), (0, 0));
    assert_eq!(b.get_buffer(), b"");
    assert_eq!(b.flush(), b"");
    // The bytes stay in the buffer until they are overwritten.
    assert_eq!(&b.buffer[..5], b"ls -l");
}

#[test]
fn flush_and_get_buffer_cap_a_wrong_length() {
    let mut b = typed(b"xy");
    b.len = 500;
    assert_eq!(b.get_buffer().len(), 128);
    assert_eq!(b.flush().len(), 128);
    assert_eq!(b.get_len(), 0);
}
