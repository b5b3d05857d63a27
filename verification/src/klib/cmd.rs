//! A small parser of command-line flags for the builtins of the shell.
//!
//! A line is the name of the command, a space, then tokens that are
//! separated by single spaces.  Leading tokens that start with `-` are
//! flags: `-abc` sets the short flags `a`, `b` and `c`, `--name` sets the
//! long flag `name`, and `--` ends the flags.  The first token that is not a
//! registered flag ends the flags as well; it and all that follows are the
//! positional arguments.

use vstd::prelude::*;

verus! {

/// The byte that separates tokens.
pub const SPACE: u8 = 32;

/// The byte that starts a flag token.
pub const DASH: u8 = 45;

/// A flag that is either set or not, with a short form (`-x`), a long form
/// (`--name`), or both.
pub struct Flag {
    /// The short form; 0 when there is none.
    pub short: u8,
    /// The long form; empty when there is none.
    pub long: &'static [u8],
    /// Whether the flag was given.
    pub set: bool,
}

/// The flag with the short form `c` only, not set.
pub open spec fn short_flag(c: u8) -> Flag {
    Flag { short: c, long: &[], set: false }
}

impl Flag {
    /// A flag with a short form only.
    pub fn short(c: u8) -> (f: Flag)
        ensures
            f == short_flag(c),
            f.short == c,
            f.long@.len() == 0,
            !f.set,
    {
        Flag { short: c, long: &[], set: false }
    }

    /// A flag with a long form only.
    pub fn long(name: &'static [u8]) -> (f: Flag)
        ensures
            f.short == 0,
            f.long@ == name@,
            !f.set,
    {
        Flag { short: 0, long: name, set: false }
    }

    /// A flag with both forms.
    pub fn both(c: u8, name: &'static [u8]) -> (f: Flag)
        ensures
            f.short == c,
            f.long@ == name@,
            !f.set,
    {
        Flag { short: c, long: name, set: false }
    }

    /// A flag with a short form only; the same as `short`.
    pub fn new(c: u8) -> (f: Flag)
        ensures
            f == short_flag(c),
            f.short == c,
            f.long@.len() == 0,
            !f.set,
    {
        Flag::short(c)
    }
}

/// The flag `f`, set.
pub open spec fn raised(f: Flag) -> Flag {
    Flag { set: true, ..f }
}

/// The end of the token that holds index `i`: the index of the next space at
/// or after `i`, or the length of the line.
pub open spec fn token_end(args: Seq<u8>, i: int) -> int
    decreases args.len() - i,
{
    if i < 0 || i >= args.len() {
        i
    } else if args[i] == SPACE {
        i
    } else {
        token_end(args, i + 1)
    }
}

/// Index `i`, moved past a space that stands there.
pub open spec fn after_space(args: Seq<u8>, i: int) -> int {
    if 0 <= i < args.len() && args[i] == SPACE {
        i + 1
    } else {
        i
    }
}

/// Some flag has the short form `c`.
pub open spec fn knows_short(flags: Seq<Flag>, c: u8) -> bool {
    exists|j: int| 0 <= j < flags.len() && (#[trigger] flags[j]).short == c
}

/// Every byte of `args` in `lo..hi` is the short form of some flag.
pub open spec fn all_known(flags: Seq<Flag>, args: Seq<u8>, lo: int, hi: int) -> bool {
    forall|k: int| lo <= k < hi ==> knows_short(flags, #[trigger] args[k])
}

/// The flags with every flag of short form `c` set.
pub open spec fn with_short(flags: Seq<Flag>, c: u8) -> Seq<Flag> {
    Seq::new(flags.len(), |j: int| if flags[j].short == c { raised(flags[j]) } else { flags[j] })
}

/// The flags with every flag set whose short form is among the bytes of
/// `args` in `lo..hi`.
pub open spec fn with_shorts(flags: Seq<Flag>, args: Seq<u8>, lo: int, hi: int) -> Seq<Flag>
    decreases hi - lo,
{
    if hi <= lo {
        flags
    } else {
        with_short(with_shorts(flags, args, lo, hi - 1), args[hi - 1])
    }
}

/// The flag `f` has the long form `name`.
pub open spec fn long_matches(f: Flag, name: Seq<u8>) -> bool {
    f.long@.len() > 0 && f.long@ == name
}

/// The first flag at or after index `from` that has the long form `name`.
pub open spec fn find_long(flags: Seq<Flag>, name: Seq<u8>, from: int) -> Option<int>
    decreases flags.len() - from,
{
    if from < 0 || from >= flags.len() {
        None
    } else if long_matches(flags[from], name) {
        Some(from)
    } else {
        find_long(flags, name, from + 1)
    }
}

/// The first flag at or after index `from` that has the short form `c`.
pub open spec fn find_short(flags: Seq<Flag>, c: u8, from: int) -> Option<int>
    decreases flags.len() - from,
{
    if from < 0 || from >= flags.len() {
        None
    } else if flags[from].short == c {
        Some(from)
    } else {
        find_short(flags, c, from + 1)
    }
}

/// The state of the flags after parsing, and where the positional arguments
/// start.
pub struct Parsed {
    pub flags: Seq<Flag>,
    pub rest_start: int,
}

/// The token at `i`, of which `args[i]` is a byte, ends behind `i`.
pub proof fn lemma_token_end(args: Seq<u8>, i: int)
    requires
        0 <= i <= args.len(),
    ensures
        i <= token_end(args, i) <= args.len(),
        token_end(args, i) < args.len() ==> args[token_end(args, i)] == SPACE,
        forall|k: int| i <= k < token_end(args, i) ==> args[k] != SPACE,
        i <= after_space(args, i) <= args.len(),
    decreases args.len() - i,
{
    if i < args.len() && args[i] != SPACE {
        lemma_token_end(args, i + 1);
    }
}

/// Parses the flag tokens of `args` from index `i` on, a token start.
///
/// The bare token `--` ends the flags and is dropped.  A long flag that is
/// registered is set.  A token of short flags that are all registered sets
/// each flag that has one of them as its short form.  Any other token ends
/// the flags and is the first positional argument.
pub open spec fn parse_flags(args: Seq<u8>, flags: Seq<Flag>, i: int) -> Parsed
    decreases args.len() - i,
    via parse_flags_decreases
{
    let len = args.len() as int;
    if i < 0 || i >= len || args[i] != DASH {
        Parsed { flags, rest_start: i }
    } else if i + 1 < len && args[i + 1] == DASH {
        let after = i + 2;
        if after >= len {
            Parsed { flags, rest_start: after }
        } else if args[after] == SPACE {
            Parsed { flags, rest_start: after + 1 }
        } else {
            let name_end = token_end(args, after);
            match find_long(flags, args.subrange(after, name_end), 0) {
                None => Parsed { flags, rest_start: i },
                Some(j) => parse_flags(args, flags.update(j, raised(flags[j])), after_space(args, name_end)),
            }
        }
    } else if i + 1 >= len || args[i + 1] == SPACE {
        Parsed { flags, rest_start: i }
    } else {
        let end = token_end(args, i + 1);
        if !all_known(flags, args, i + 1, end) {
            Parsed { flags, rest_start: i }
        } else {
            parse_flags(args, with_shorts(flags, args, i + 1, end), after_space(args, end))
        }
    }
}

#[via_fn]
proof fn parse_flags_decreases(args: Seq<u8>, flags: Seq<Flag>, i: int) {
    if 0 <= i && i + 1 < args.len() {
        lemma_token_end(args, i + 1);
        lemma_token_end(args, token_end(args, i + 1));
        if i + 2 < args.len() {
            lemma_token_end(args, i + 2);
            lemma_token_end(args, token_end(args, i + 2));
        }
    }
}

/// Parses a whole line: the name of the command and the space behind it are
/// passed over, then the flags are parsed.
pub open spec fn parse_line(args: Seq<u8>, flags: Seq<Flag>) -> Parsed {
    parse_flags(args, flags, after_space(args, token_end(args, 0)))
}

/// Parsing keeps the number of flags and their forms, never clears a flag,
/// and lets the positional arguments start inside the line.
pub proof fn lemma_parse_flags(args: Seq<u8>, flags: Seq<Flag>, i: int)
    requires
        0 <= i <= args.len(),
    ensures
        parse_flags(args, flags, i).flags.len() == flags.len(),
        i <= parse_flags(args, flags, i).rest_start <= args.len(),
        forall|j: int|
            0 <= j < flags.len() ==> {
                &&& (#[trigger] parse_flags(args, flags, i).flags[j]).short == flags[j].short
                &&& parse_flags(args, flags, i).flags[j].long == flags[j].long
                &&& flags[j].set ==> parse_flags(args, flags, i).flags[j].set
            },
    decreases args.len() - i,
{
    let len = args.len() as int;
    if i < len && args[i] == DASH {
        if i + 1 < len && args[i + 1] == DASH {
            let after = i + 2;
            if after < len && args[after] != SPACE {
                lemma_token_end(args, after);
                let name_end = token_end(args, after);
                lemma_token_end(args, name_end);
                lemma_find_long(flags, args.subrange(after, name_end), 0);
                match find_long(flags, args.subrange(after, name_end), 0) {
                    None => {},
                    Some(j) => {
                        lemma_parse_flags(args, flags.update(j, raised(flags[j])), after_space(args, name_end));
                    },
                }
            }
        } else if i + 1 < len && args[i + 1] != SPACE {
            lemma_token_end(args, i + 1);
            let end = token_end(args, i + 1);
            lemma_token_end(args, end);
            if all_known(flags, args, i + 1, end) {
                lemma_with_shorts(flags, args, i + 1, end);
                lemma_parse_flags(args, with_shorts(flags, args, i + 1, end), after_space(args, end));
            }
        }
    }
}

/// What `find_long` and `find_short` find.
pub proof fn lemma_find_long(flags: Seq<Flag>, name: Seq<u8>, from: int)
    requires
        0 <= from,
    ensures
        match find_long(flags, name, from) {
            Some(j) => from <= j < flags.len() && long_matches(flags[j], name),
            None => forall|k: int| from <= k < flags.len() ==> !long_matches(#[trigger] flags[k], name),
        },
    decreases flags.len() - from,
{
    if from < flags.len() {
        lemma_find_long(flags, name, from + 1);
    }
}

/// Setting short flags keeps the number of flags and their forms and never
/// clears a flag.
pub proof fn lemma_with_shorts(flags: Seq<Flag>, args: Seq<u8>, lo: int, hi: int)
    ensures
        with_shorts(flags, args, lo, hi).len() == flags.len(),
        forall|j: int|
            0 <= j < flags.len() ==> {
                &&& (#[trigger] with_shorts(flags, args, lo, hi)[j]).short == flags[j].short
                &&& with_shorts(flags, args, lo, hi)[j].long == flags[j].long
                &&& flags[j].set ==> with_shorts(flags, args, lo, hi)[j].set
            },
    decreases hi - lo,
{
    if hi > lo {
        lemma_with_shorts(flags, args, lo, hi - 1);
    }
}

/// Whether the bytes `start..end` of `haystack` are the bytes of `needle`.
pub fn bytes_equal_range(haystack: &[u8], start: usize, end: usize, needle: &[u8]) -> (r: bool)
    requires
        start <= end <= haystack@.len(),
    ensures
        r == (haystack@.subrange(start as int, end as int) == needle@),
{
    let range_len: usize = end - start;
    if range_len != needle.len() {
        return false;
    }
    let mut i: usize = 0;
    while i < range_len
        invariant
            i <= range_len,
            range_len == end - start,
            range_len == needle@.len(),
            end <= haystack@.len(),
            forall|k: int| 0 <= k < i ==> haystack@[start + k] == needle@[k],
        decreases range_len - i,
    {
        if haystack[start + i] != needle[i] {
            proof {
                assert(haystack@.subrange(start as int, end as int)[i as int] != needle@[i as int]);
            }
            return false;
        }
        i += 1;
    }
    proof {
        assert(haystack@.subrange(start as int, end as int) =~= needle@);
    }
    true
}

/// The end of the token that holds index `i`.
fn skip_token(args: &[u8], i: usize) -> (r: usize)
    requires
        i <= args@.len(),
    ensures
        r == token_end(args@, i as int),
        i <= r <= args@.len(),
{
    let mut k: usize = i;
    while k < args.len() && args[k] != SPACE
        invariant
            i <= k <= args@.len(),
            token_end(args@, i as int) == token_end(args@, k as int),
        decreases args@.len() - k,
    {
        k += 1;
    }
    k
}

/// Index `i`, moved past a space that stands there.
fn skip_space(args: &[u8], i: usize) -> (r: usize)
    requires
        i <= args@.len(),
    ensures
        r == after_space(args@, i as int),
        i <= r <= args@.len(),
{
    if i < args.len() && args[i] == SPACE {
        i + 1
    } else {
        i
    }
}

/// The first flag that has the bytes `start..end` of `args` as its long form.
fn lookup_long(flags: &[Flag], args: &[u8], start: usize, end: usize) -> (r: Option<usize>)
    requires
        start <= end <= args@.len(),
    ensures
        match r {
            Some(j) => find_long(flags@, args@.subrange(start as int, end as int), 0) == Some(j as int) && j
                < flags@.len(),
            None => find_long(flags@, args@.subrange(start as int, end as int), 0) is None,
        },
{
    let ghost name = args@.subrange(start as int, end as int);
    let mut j: usize = 0;
    while j < flags.len()
        invariant
            j <= flags@.len(),
            start <= end <= args@.len(),
            name == args@.subrange(start as int, end as int),
            find_long(flags@, name, 0) == find_long(flags@, name, j as int),
        decreases flags@.len() - j,
    {
        if flags[j].long.len() > 0 && bytes_equal_range(args, start, end, flags[j].long) {
            return Some(j);
        }
        j += 1;
    }
    None
}

/// Whether some flag has the short form `c`.
fn has_short(flags: &[Flag], c: u8) -> (r: bool)
    ensures
        r == knows_short(flags@, c),
{
    let mut j: usize = 0;
    while j < flags.len()
        invariant
            j <= flags@.len(),
            forall|k: int| 0 <= k < j ==> (#[trigger] flags@[k]).short != c,
        decreases flags@.len() - j,
    {
        if flags[j].short == c {
            return true;
        }
        j += 1;
    }
    false
}

/// Whether every byte of `args` in `lo..hi` is the short form of some flag.
fn shorts_known(flags: &[Flag], args: &[u8], lo: usize, hi: usize) -> (r: bool)
    requires
        lo <= hi <= args@.len(),
    ensures
        r == all_known(flags@, args@, lo as int, hi as int),
{
    let mut k: usize = lo;
    while k < hi
        invariant
            lo <= k <= hi <= args@.len(),
            all_known(flags@, args@, lo as int, k as int),
        decreases hi - k,
    {
        if !has_short(flags, args[k]) {
            return false;
        }
        k += 1;
    }
    true
}

/// Sets every flag that has the short form `c`.
fn set_short(flags: &mut [Flag], c: u8)
    ensures
        final(flags)@ == with_short(old(flags)@, c),
{
    let mut j: usize = 0;
    while j < flags.len()
        invariant
            j <= flags@.len(),
            flags@.len() == old(flags)@.len(),
            forall|k: int| 0 <= k < j ==> flags@[k] == with_short(old(flags)@, c)[k],
            forall|k: int| j <= k < flags@.len() ==> flags@[k] == old(flags)@[k],
        decreases flags@.len() - j,
    {
        if flags[j].short == c {
            flags[j].set = true;
        }
        j += 1;
    }
    proof {
        assert(flags@ =~= with_short(old(flags)@, c));
    }
}

/// Sets every flag whose short form is among the bytes of `args` in `lo..hi`.
fn set_shorts(flags: &mut [Flag], args: &[u8], lo: usize, hi: usize)
    requires
        lo <= hi <= args@.len(),
    ensures
        final(flags)@ == with_shorts(old(flags)@, args@, lo as int, hi as int),
{
    let mut k: usize = lo;
    while k < hi
        invariant
            lo <= k <= hi <= args@.len(),
            flags@ == with_shorts(old(flags)@, args@, lo as int, k as int),
        decreases hi - k,
    {
        set_short(flags, args[k]);
        k += 1;
    }
}

/// The outcome of parsing a line: the flags as set by the line, and the
/// positional arguments behind them.
pub struct Cmd<'a> {
    flags: &'a [Flag],
    rest: &'a [u8],
}

impl<'a> Cmd<'a> {
    /// The flags after parsing.
    pub closed spec fn flags(&self) -> Seq<Flag> {
        self.flags@
    }

    /// The positional arguments.
    pub closed spec fn rest(&self) -> Seq<u8> {
        self.rest@
    }

    /// Parses `args`, a whole line with the name of the command first, and
    /// sets the flags of `flags` that the line gives.
    pub fn parse(args: &'a [u8], flags: &'a mut [Flag]) -> (cmd: Cmd<'a>)
        ensures
            cmd.flags() == parse_line(args@, old(flags)@).flags,
            final(flags)@ == cmd.flags(),
            0 <= parse_line(args@, old(flags)@).rest_start <= args@.len(),
            cmd.rest() == args@.subrange(parse_line(args@, old(flags)@).rest_start, args@.len() as int),
    {
        let len: usize = args.len();
        let word_end: usize = skip_token(args, 0);
        let mut i: usize = skip_space(args, word_end);
        let ghost first = i as int;
        let mut done: bool = false;
        proof {
            lemma_parse_flags(args@, old(flags)@, first);
        }
        while !done
            invariant
                i <= len,
                len == args@.len(),
                first == after_space(args@, token_end(args@, 0)),
                !done ==> parse_flags(args@, old(flags)@, first) == parse_flags(args@, flags@, i as int),
                done ==> parse_flags(args@, old(flags)@, first) == (Parsed { flags: flags@, rest_start: i as int }),
            decreases (if done { 0int } else { 1int }), len - i,
        {
            if i >= len || args[i] != DASH {
                done = true;
            } else if i + 1 < len && args[i + 1] == DASH {
                let after: usize = i + 2;
                if after >= len {
                    i = after;
                    done = true;
                } else if args[after] == SPACE {
                    i = after + 1;
                    done = true;
                } else {
                    let name_end: usize = skip_token(args, after);
                    proof {
                        lemma_token_end(args@, after as int);
                    }
                    match lookup_long(flags, args, after, name_end) {
                        None => {
                            done = true;
                        },
                        Some(j) => {
                            flags[j].set = true;
                            i = skip_space(args, name_end);
                        },
                    }
                }
            } else if i + 1 >= len || args[i + 1] == SPACE {
                done = true;
            } else {
                let end: usize = skip_token(args, i + 1);
                proof {
                    lemma_token_end(args@, i + 1);
                }
                if !shorts_known(flags, args, i + 1, end) {
                    done = true;
                } else {
                    set_shorts(flags, args, i + 1, end);
                    i = skip_space(args, end);
                }
            }
        }
        let rest: &[u8] = &args[i..len];
        Cmd { flags, rest }
    }

    /// Whether the first flag with the short form `short` is set; `false`
    /// when no flag has that form.
    pub fn get(&self, short: u8) -> (r: bool)
        ensures
            r == match find_short(self.flags(), short, 0) {
                Some(j) => self.flags()[j].set,
                None => false,
            },
    {
        let mut i: usize = 0;
        while i < self.flags.len()
            invariant
                i <= self.flags@.len(),
                find_short(self.flags@, short, 0) == find_short(self.flags@, short, i as int),
            decreases self.flags@.len() - i,
        {
            if self.flags[i].short == short {
                return self.flags[i].set;
            }
            i += 1;
        }
        false
    }

    /// Whether some flag with the long form `name` is set.
    pub fn get_long(&self, name: &[u8]) -> (r: bool)
        ensures
            r == exists|j: int|
                0 <= j < self.flags().len() && long_matches(#[trigger] self.flags()[j], name@)
                    && self.flags()[j].set,
    {
        let mut i: usize = 0;
        while i < self.flags.len()
            invariant
                i <= self.flags@.len(),
                forall|j: int|
                    0 <= j < i ==> !(long_matches(#[trigger] self.flags@[j], name@) && self.flags@[j].set),
            decreases self.flags@.len() - i,
        {
            if self.flags[i].long.len() > 0 && self.flags[i].long.len() == name.len() {
                let eq: bool = bytes_equal_range(self.flags[i].long, 0, self.flags[i].long.len(), name);
                proof {
                    let l = self.flags@[i as int].long@;
                    assert(l.subrange(0, l.len() as int) =~= l);
                }
                if eq && self.flags[i].set {
                    proof {
                        assert(long_matches(self.flags()[i as int], name@));
                    }
                    return true;
                }
            }
            i += 1;
        }
        false
    }

    /// The same as `get`.
    pub fn flag(&self, short: u8) -> (r: bool)
        ensures
            r == match find_short(self.flags(), short, 0) {
                Some(j) => self.flags()[j].set,
                None => false,
            },
    {
        self.get(short)
    }

    /// The positional arguments: what follows the flags.
    pub fn args(&self) -> (r: &'a [u8])
        ensures
            r@ == self.rest(),
    {
        self.rest
    }
}

} // verus!
