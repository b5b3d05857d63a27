use tacos::io::history::{down, push, reset_browse, up, History};

#[test]
fn empty_history_has_nothing() {
    let mut h = History::new();
    assert_eq!(up(&mut h), None);
    assert_eq!(down(&mut h), None);
}

#[test]
fn up_and_down_walk_the_commands() {
    let mut h = History::new();
    push(&mut h, b"one");
    push(&mut h, b"two");
    push(&mut h, b"three");
    assert_eq!(up(&mut h), Some(&b"three"[..]));
    assert_eq!(up(&mut h), Some(&b"two"[..]));
    assert_eq!(up(&mut h), Some(&b"one"[..]));
    assert_eq!(up(&mut h), None);
    assert_eq!(down(&mut h), Some(&b"two"[..]));
    assert_eq!(down(&mut h), Some(&b"three"[..]));
    assert_eq!(down(&mut h), Some(&b""[..]));
    assert_eq!(down(&mut h), None);
    assert_eq!(up(&mut h), Some(&b"three"[..]));
}

#[test]
fn push_ignores_empty_and_repeated_commands() {
    let mut h = History::new();
    push(&mut h, b"ls");
    push(&mut h, b"");
    push(&mut h, b"ls");
    push(&mut h, b"lsx");
    push(&mut h, b"ls");
    assert_eq!(up(&mut h), Some(&b"ls"[..]));
    assert_eq!(up(&mut h), Some(&b"lsx"[..]));
    assert_eq!(up(&mut h), Some(&b"ls"[..]));
    assert_eq!(up(&mut h), None);
}

#[test]
fn push_starts_browsing_anew() {
    let mut h = History::new();
    push(&mut h, b"a");
    push(&mut h, b"b");
    assert_eq!(up(&mut h), Some(&b"b"[..]));
    assert_eq!(up(&mut h), Some(&b"a"[..]));
    push(&mut h, b"b");
    assert_eq!(up(&mut h), Some(&b"b"[..]));
    assert_eq!(up(&mut h), Some(&b"a"[..]));
    // An empty command leaves the place.
    push(&mut h, b"");
    assert_eq!(down(&mut h), Some(&b"b"[..]));
    reset_browse(&mut h);
    assert_eq!(down(&mut h), None);
    assert_eq!(up(&mut h), Some(&b"b"[..]));
}

#[test]
fn only_five_commands_are_kept() {
    let mut h = History::new();
    for c in [b"1", b"2", b"3", b"4", b"5", b"6", b"7"] {
        push(&mut h, c);
    }
    for c in [b"7", b"6", b"5", b"4", b"3"] {
        assert_eq!(up(&mut h), Some(&c[..]));
    }
    assert_eq!(up(&mut h), None);
}

#[test]
fn long_commands_are_cut() {
    let mut h = History::new();
    let long: Vec<u8> = (0..100u8).collect();
    push(&mut h, &long);
    assert_eq!(up(&mut h), Some(&long[..78]));
    // The cut command never equals the long one, so it is remembered again.
    push(&mut h, &long);
    assert_eq!(up(&mut h), Some(&long[..78]));
    assert_eq!(up(&mut h), Some(&long[..78]));
    assert_eq!(up(&mut h), None);
    push(&mut h, &long[..78]);
    assert_eq!(up(&mut h), Some(&long[..78]));
    assert_eq!(up(&mut h), Some(&long[..78]));
    assert_eq!(up(&mut h), None);
}
