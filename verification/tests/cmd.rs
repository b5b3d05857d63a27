use tacos::klib::cmd::{bytes_equal_range, Cmd, Flag};
use tacos::klib::string::strlen;

fn flags() -> Vec<Flag> {
    vec![Flag::short(b'n'), Flag::short(b'e'), Flag::long(b"verbose"), Flag::both(b'h', b"help")]
}

fn set_of(flags: &[Flag]) -> Vec<bool> {
    flags.iter().map(|f| f.set).collect()
}

#[test]
fn flag_constructors() {
    let f = Flag::short(b'x');
    assert_eq!((f.short, f.long, f.set), (b'x', &b""[..], false));
    let f = Flag::long(b"name");
    assert_eq!((f.short, f.long, f.set), (0, &b"name"[..], false));
    let f = Flag::both(b'q', b"quiet");
    assert_eq!((f.short, f.long, f.set), (b'q', &b"quiet"[..], false));
    let f = Flag::new(b'z');
    assert_eq!((f.short, f.long, f.set), (b'z', &b""[..], false));
}

#[test]
fn parse_skips_the_command_name() {
    let mut fl = flags();
    let cmd = Cmd::parse(b"echo hello world", &mut fl);
    assert_eq!(cmd.args(), b"hello world");
    assert!(!cmd.get(b'n'));
    assert_eq!(set_of(&fl), [false, false, false, false]);
}

#[test]
fn parse_of_a_bare_command() {
    let mut fl = flags();
    let cmd = Cmd::parse(b"echo", &mut fl);
    assert_eq!(cmd.args(), b"");
    let mut fl = flags();
    let cmd = Cmd::parse(b"", &mut fl);
    assert_eq!(cmd.args(), b"");
    let mut fl = flags();
    let cmd = Cmd::parse(b"echo ", &mut fl);
    assert_eq!(cmd.args(), b"");
}

#[test]
fn parse_sets_short_flags() {
    let mut fl = flags();
    let cmd = Cmd::parse(b"echo -n hi", &mut fl);
    assert!(cmd.get(b'n'));
    assert!(cmd.flag(b'n'));
    assert!(!cmd.get(b'e'));
    assert_eq!(cmd.args(), b"hi");
    assert_eq!(set_of(&fl), [true, false, false, false]);
}

#[test]
fn parse_sets_grouped_and_repeated_short_flags() {
    let mut fl = flags();
    let cmd = Cmd::parse(b"echo -ne -h x -n", &mut fl);
    assert!(cmd.get(b'n') && cmd.get(b'e') && cmd.get(b'h'));
    assert!(cmd.get_long(b"help"));
    assert!(!cmd.get_long(b"verbose"));
    assert_eq!(cmd.args(), b"x -n");
}

#[test]
fn parse_stops_at_an_unknown_short_flag() {
    let mut fl = flags();
    let cmd = Cmd::parse(b"echo -n -nx -e rest", &mut fl);
    assert!(cmd.get(b'n'));
    // Nothing of the token with the unknown flag is applied.
    assert!(!cmd.get(b'e'));
    assert_eq!(cmd.args(), b"-nx -e rest");
}

#[test]
fn parse_sets_long_flags() {
    let mut fl = flags();
    let cmd = Cmd::parse(b"ls --verbose --help dir", &mut fl);
    assert!(cmd.get_long(b"verbose"));
    assert!(cmd.get_long(b"help"));
    assert!(cmd.get(b'h'));
    assert_eq!(cmd.args(), b"dir");
    assert_eq!(set_of(&fl), [false, false, true, true]);
}

#[test]
fn parse_stops_at_an_unknown_long_flag() {
    let mut fl = flags();
    let cmd = Cmd::parse(b"ls --verbos -n", &mut fl);
    assert!(!cmd.get_long(b"verbose"));
    assert!(!cmd.get(b'n'));
    assert_eq!(cmd.args(), b"--verbos -n");
    let mut fl = flags();
    let cmd = Cmd::parse(b"ls --verbosely", &mut fl);
    assert_eq!(cmd.args(), b"--verbosely");
}

#[test]
fn parse_ends_flags_at_double_dash() {
    let mut fl = flags();
    let cmd = Cmd::parse(b"echo -n -- -e text", &mut fl);
    assert!(cmd.get(b'n'));
    assert!(!cmd.get(b'e'));
    assert_eq!(cmd.args(), b"-e text");
    let mut fl = flags();
    let cmd = Cmd::parse(b"echo --", &mut fl);
    assert_eq!(cmd.args(), b"");
}

#[test]
fn parse_takes_a_bare_dash_as_an_argument() {
    let mut fl = flags();
    let cmd = Cmd::parse(b"cat - -n", &mut fl);
    assert!(!cmd.get(b'n'));
    assert_eq!(cmd.args(), b"- -n");
    let mut fl = flags();
    let cmd = Cmd::parse(b"cat -", &mut fl);
    assert_eq!(cmd.args(), b"-");
}

#[test]
fn parse_skips_one_space_only() {
    let mut fl = flags();
    let cmd = Cmd::parse(b"echo -n  -e", &mut fl);
    assert!(cmd.get(b'n'));
    assert!(!cmd.get(b'e'));
    assert_eq!(cmd.args(), b" -e");
}

#[test]
fn get_looks_at_the_first_flag_with_the_short_form() {
    let mut fl = vec![Flag::short(b'a'), Flag::both(b'a', b"all")];
    let cmd = Cmd::parse(b"x --all", &mut fl);
    // The long form set the second flag; `get` answers by the first.
    assert!(!cmd.get(b'a'));
    assert!(cmd.get_long(b"all"));
    assert!(!cmd.get(b'b'));
    assert!(!cmd.get_long(b""));
    let mut fl = vec![Flag::short(b'a'), Flag::both(b'a', b"all")];
    let cmd = Cmd::parse(b"x -a", &mut fl);
    assert!(cmd.get(b'a'));
    assert!(cmd.get_long(b"all"));
}

#[test]
fn bytes_equal_range_compares_a_part() {
    assert!(bytes_equal_range(b"hello world", 6, 11, b"world"));
    assert!(!bytes_equal_range(b"hello world", 6, 11, b"worle"));
    assert!(!bytes_equal_range(b"hello world", 6, 10, b"world"));
    assert!(bytes_equal_range(b"abc", 1, 1, b""));
}

#[test]
fn strlen_stops_at_the_first_zero() {
    assert_eq!(strlen(b"hello\0world\0"), 5);
    assert_eq!(strlen(b"\0"), 0);
    assert_eq!(strlen(b""), 0);
    assert_eq!(strlen(b"no end"), 6);
}
