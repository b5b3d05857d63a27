use tacos::io::display::Display;
use tacos::io::klog::{clear, contents, dump, log_byte, log_bytes, log_str, Klog, KLOG_BUF_SIZE};

#[test]
fn log_keeps_bytes_in_order() {
    let mut k = Klog::new();
    assert_eq!(contents(&k), b"");
    log_byte(&mut k, b'a');
    log_str(&mut k, "bc");
    log_bytes(&mut k, b"def");
    assert_eq!(contents(&k), b"abcdef");
}

#[test]
fn log_forgets_the_oldest_bytes() {
    let mut k = Klog::new();
    let all: Vec<u8> = (0..KLOG_BUF_SIZE + 100).map(|i| (i % 251) as u8).collect();
    log_bytes(&mut k, &all[..KLOG_BUF_SIZE - 1]);
    assert_eq!(contents(&k), &all[..KLOG_BUF_SIZE - 1]);
    log_byte(&mut k, all[KLOG_BUF_SIZE - 1]);
    // With exactly as many bytes as the ring holds, the write position is
    // back at the start and the dump shows what lies before it: nothing.
    assert_eq!(contents(&k), b"");
    log_byte(&mut k, all[KLOG_BUF_SIZE]);
    assert_eq!(contents(&k), &all[1..KLOG_BUF_SIZE + 1]);
    log_bytes(&mut k, &all[KLOG_BUF_SIZE + 1..]);
    assert_eq!(contents(&k), &all[100..]);
}

#[test]
fn clear_empties_the_log() {
    let mut k = Klog::new();
    log_bytes(&mut k, &vec![b'x'; 3000]);
    assert_eq!(contents(&k).len(), KLOG_BUF_SIZE);
    clear(&mut k);
    assert_eq!(contents(&k), b"");
    log_str(&mut k, "new");
    assert_eq!(contents(&k), b"new");
}

#[test]
fn dump_draws_the_log_as_glyphs() {
    let mut k = Klog::new();
    log_str(&mut k, "a\nb");
    let mut d = Display::new();
    dump(&k, &mut d);
    assert_eq!(d.vga.cell(0, 0).ch, b'a');
    assert_eq!(d.vga.cell(0, 1).ch, b'\n');
    assert_eq!(d.vga.cell(0, 2).ch, b'b');
    assert_eq!(d.vga.cursor(), (3, 0));
}
