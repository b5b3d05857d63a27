use tacos::klib::string::{
    get_byte, strcat, strchr, strcmp, strcpy, strlen, strncat, strncmp, strncpy, strstr, wrapped_diff,
};

#[test]
fn compare_strings() {
    assert_eq!(strcmp(b"abc\0", b"abc\0"), 0);
    assert_eq!(strcmp(b"abc", b"abc\0junk"), 0);
    assert_eq!(strcmp(b"", b""), 0);
    assert_eq!(strcmp(b"abd\0", b"abc\0"), 1);
    assert_eq!(strcmp(b"abcd\0", b"abc\0"), 100);
    // A difference below zero is taken modulo 256.
    assert_eq!(strcmp(b"abc\0", b"abd\0"), 255);
    assert_eq!(strcmp(b"abc\0", b"abcd\0"), 156);
    assert_eq!(strcmp(b"\0x", b"\0y"), 0);
}

#[test]
fn compare_the_start_of_strings() {
    assert_eq!(strncmp(b"hello\0", b"help\0", 3), 0);
    assert_eq!(strncmp(b"hello\0", b"help\0", 4), 252);
    assert_eq!(strncmp(b"hello\0", b"help\0", 0), 0);
    assert_eq!(strncmp(b"hi\0", b"hi\0", 10), 0);
    assert_eq!(strncmp(b"hi\0", b"hit\0", 10), 256 - b't' as i32);
    assert_eq!(strncmp(b"hit\0", b"hi\0", 10), b't' as i32);
    assert_eq!(strncmp(b"hit", b"hi", 2), 0);
}

#[test]
fn byte_helpers() {
    assert_eq!(wrapped_diff(5, 3), 2);
    assert_eq!(wrapped_diff(3, 5), 254);
    assert_eq!(wrapped_diff(0, 255), 1);
    assert_eq!(get_byte(b"ab", 1), b'b');
    assert_eq!(get_byte(b"ab", 2), 0);
    assert_eq!(get_byte(b"", usize::MAX), 0);
}

#[test]
fn copy_strings() {
    let mut dest = *b"XXXXXXXX";
    strcpy(&mut dest, b"abc\0def");
    assert_eq!(&dest, b"abc\0XXXX");
    strcpy(&mut dest, b"");
    assert_eq!(&dest, b"\0bc\0XXXX");
    strcpy(&mut dest, b"1234567");
    assert_eq!(&dest, b"1234567\0");
    assert_eq!(strlen(&dest), 7);
}

#[test]
fn copy_strings_with_a_limit() {
    let mut dest = *b"XXXXXXXX";
    strncpy(&mut dest, b"abc\0def", 6);
    assert_eq!(&dest, b"abc\0\0\0XX");
    strncpy(&mut dest, b"12345", 3);
    assert_eq!(&dest, b"123\0\0\0XX");
    strncpy(&mut dest, b"abcdefgh", 0);
    assert_eq!(&dest, b"123\0\0\0XX");
    strncpy(&mut dest, b"abcdefghijk", 8);
    assert_eq!(&dest, b"abcdefgh");
}

#[test]
fn append_strings() {
    let mut dest = *b"ab\0XXXXX";
    strcat(&mut dest, b"cd\0ef");
    assert_eq!(&dest, b"abcd\0XXX");
    strcat(&mut dest, b"");
    assert_eq!(&dest, b"abcd\0XXX");
    strncat(&mut dest, b"123456", 2);
    assert_eq!(&dest, b"abcd12\0X");
    strncat(&mut dest, b"z\0zz", 5);
    assert_eq!(&dest, b"abcd12z\0");
    strncat(&mut dest, b"zzz", 0);
    assert_eq!(&dest, b"abcd12z\0");
}

#[test]
fn find_a_byte() {
    assert_eq!(strchr(b"hello\0world", b'l'), Some(2));
    assert_eq!(strchr(b"hello\0world", b'h'), Some(0));
    assert_eq!(strchr(b"hello\0world", b'w'), None);
    assert_eq!(strchr(b"hello\0", 0), None);
    assert_eq!(strchr(b"", b'a'), None);
}

#[test]
fn find_a_string() {
    assert_eq!(strstr(b"hello world\0", b"o w\0"), Some(4));
    assert_eq!(strstr(b"hello world\0", b"hello world\0"), Some(0));
    assert_eq!(strstr(b"hello world\0", b"world!\0"), None);
    assert_eq!(strstr(b"aaab\0", b"ab\0"), Some(2));
    assert_eq!(strstr(b"abc\0def\0", b"def\0"), None);
    assert_eq!(strstr(b"abc\0", b"\0"), Some(0));
    assert_eq!(strstr(b"\0", b"\0"), None);
    assert_eq!(strstr(b"abc", b"c"), Some(2));
}
