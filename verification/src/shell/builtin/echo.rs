//! `echo`: puts out its arguments.
//!
//! `-n` leaves out the line feed at the end.  `-e` turns on the escapes that
//! start with a backslash, `-E` turns them off again.

use vstd::prelude::*;
use crate::io::display::Display;
use crate::io::klog::Klog;
use crate::io::print_engine::Emit;
use crate::io::print_engine::Sink;
use crate::io::print_engine::emit_byte;
use crate::io::print_engine::emit_bytes;
use crate::io::print_engine::emit_raw;
use crate::io::print_engine::lemma_sent_concat;
use crate::io::print_engine::out_of;
use crate::io::print_engine::text_of;
use crate::klib::cmd::Cmd;
use crate::klib::cmd::Flag;
use crate::klib::cmd::find_short;
use crate::klib::cmd::lemma_parse_flags;
use crate::klib::cmd::lemma_token_end;
use crate::klib::cmd::parse_line;
use crate::klib::cmd::short_flag;
use crate::klib::cmd::after_space;
use crate::klib::cmd::token_end;

verus! {

/// The backslash.
pub const BACKSLASH: u8 = 92;

/// The value of the hexadecimal digit `c`, or 255 when `c` is none.
pub open spec fn hex_value(c: u8) -> u8 {
    if 48 <= c <= 57 {
        (c - 48) as u8
    } else if 97 <= c <= 102 {
        (c - 97 + 10) as u8
    } else if 65 <= c <= 70 {
        (c - 65 + 10) as u8
    } else {
        255
    }
}

/// The value of the hexadecimal digit `c`, or 255 when `c` is none.
pub fn hex_digit(c: u8) -> (r: u8)
    ensures
        r == hex_value(c),
        r <= 15 || r == 255,
{
    if c >= 48 && c <= 57 {
        c - 48
    } else if c >= 97 && c <= 102 {
        c - 97 + 10
    } else if c >= 65 && c <= 70 {
        c - 65 + 10
    } else {
        255
    }
}

/// The byte that the escape letter `c` stands for, for the escapes of one
/// letter.
pub open spec fn simple_escape(c: u8) -> Option<u8> {
    if c == 110 {
        Some(10u8)
    } else if c == 116 {
        Some(9u8)
    } else if c == 114 {
        Some(13u8)
    } else if c == 92 {
        Some(92u8)
    } else if c == 97 {
        Some(7u8)
    } else if c == 98 {
        Some(8u8)
    } else if c == 102 {
        Some(12u8)
    } else if c == 118 {
        Some(11u8)
    } else {
        None
    }
}

/// How many of the bytes of `s` from `i` on are octal digits, three at most.
pub open spec fn octal_run(s: Seq<u8>, i: int, max: int) -> int
    decreases max,
{
    if max <= 0 || i < 0 || i >= s.len() || !(48 <= s[i] <= 55) {
        0
    } else {
        1 + octal_run(s, i + 1, max - 1)
    }
}

/// The value of the `n` octal digits of `s` from `i` on, modulo 256.
pub open spec fn octal_value(s: Seq<u8>, i: int, n: int) -> u8
    decreases n,
{
    if n <= 0 {
        0
    } else {
        ((octal_value(s, i, n - 1) * 8 + (s[i + n - 1] - 48)) % 256) as u8
    }
}

/// How many of the bytes of `s` from `i` on are hexadecimal digits, two at
/// most.
pub open spec fn hex_run(s: Seq<u8>, i: int, max: int) -> int
    decreases max,
{
    if max <= 0 || i < 0 || i >= s.len() || hex_value(s[i]) > 15 {
        0
    } else {
        1 + hex_run(s, i + 1, max - 1)
    }
}

/// The value of the `n` hexadecimal digits of `s` from `i` on, two at most.
pub open spec fn hex_run_value(s: Seq<u8>, i: int, n: int) -> int
    decreases n,
{
    if n <= 0 {
        0
    } else {
        hex_run_value(s, i, n - 1) * 16 + hex_value(s[i + n - 1])
    }
}

/// The output for the bytes of `s` from `i` on, with escapes.
///
/// `\n`, `\t`, `\r`, `\\`, `\a`, `\b`, `\f` and `\v` stand for one byte each.
/// `\0` with up to three octal digits and `\x` with up to two hexadecimal
/// digits stand for the byte of that value; `\x` without a digit stands for
/// nothing.  `\c` ends the output.  Any other letter behind a backslash is
/// put out with its backslash.  A backslash at the very end stands for
/// itself.
pub open spec fn escape_ops(s: Seq<u8>, i: int) -> Seq<Emit>
    decreases s.len() - i,
    via escape_ops_decreases
{
    if i < 0 || i >= s.len() {
        Seq::empty()
    } else if s[i] == BACKSLASH && i + 1 < s.len() {
        let next = s[i + 1];
        if simple_escape(next) is Some {
            seq![Emit::Literal(simple_escape(next).unwrap())] + escape_ops(s, i + 2)
        } else if next == 48 {
            let n = octal_run(s, i + 2, 3);
            seq![Emit::Glyph(octal_value(s, i + 2, n))] + escape_ops(s, i + 2 + n)
        } else if next == 120 {
            let n = hex_run(s, i + 2, 2);
            if n > 0 {
                seq![Emit::Glyph(hex_run_value(s, i + 2, n) as u8)] + escape_ops(s, i + 2 + n)
            } else {
                escape_ops(s, i + 2)
            }
        } else if next == 99 {
            Seq::empty()
        } else {
            seq![Emit::Literal(BACKSLASH), Emit::Glyph(next)] + escape_ops(s, i + 2)
        }
    } else {
        seq![Emit::Glyph(s[i])] + escape_ops(s, i + 1)
    }
}

#[via_fn]
proof fn escape_ops_decreases(s: Seq<u8>, i: int) {
    if 0 <= i && i + 1 < s.len() {
        lemma_runs(s, i + 2, 3);
        lemma_runs(s, i + 2, 2);
    }
}

/// A run of digits is no longer than asked for and ends inside the bytes;
/// the value of up to two hexadecimal digits fits in a byte.
pub proof fn lemma_runs(s: Seq<u8>, i: int, max: int)
    requires
        0 <= i <= s.len(),
        0 <= max,
    ensures
        0 <= octal_run(s, i, max) <= max,
        i + octal_run(s, i, max) <= s.len(),
        0 <= hex_run(s, i, max) <= max,
        i + hex_run(s, i, max) <= s.len(),
        forall|k: int| 0 <= k < hex_run(s, i, max) ==> hex_value(#[trigger] s[i + k]) <= 15,
        forall|k: int| 0 <= k < octal_run(s, i, max) ==> 48 <= #[trigger] s[i + k] <= 55,
    decreases max,
{
    if max > 0 && i < s.len() {
        lemma_runs(s, i + 1, max - 1);
        if hex_value(s[i]) <= 15 {
            assert forall|k: int| 0 <= k < hex_run(s, i, max) implies hex_value(#[trigger] s[i + k]) <= 15 by {
                if k > 0 {
                    assert(s[i + k] == s[(i + 1) + (k - 1)]);
                }
            }
        }
        if 48 <= s[i] <= 55 {
            assert forall|k: int| 0 <= k < octal_run(s, i, max) implies 48 <= #[trigger] s[i + k] <= 55 by {
                if k > 0 {
                    assert(s[i + k] == s[(i + 1) + (k - 1)]);
                }
            }
        }
    }
}

/// Puts out the bytes of `s` with escapes, to the screen.
pub fn print_with_escapes(s: &[u8], display: &mut Display, klog: &mut Klog)
    requires
        old(display).wf(),
        old(klog).wf(),
    ensures
        final(display).wf(),
        final(klog).wf(),
        final(display).color == old(display).color,
        out_of(final(display), final(klog)) == out_of(old(display), old(klog)).sent(
            escape_ops(s@, 0),
            Sink::Display,
            old(display).color,
        ),
{
    let ghost o = out_of(old(display), old(klog));
    let ghost color = old(display).color;
    let ghost mut done: Seq<Emit> = Seq::empty();
    let sink: Sink = Sink::Display;
    let len: usize = s.len();
    let mut i: usize = 0;
    proof {
        assert(o.emit_all(done, 0, sink, color) == o);
        assert(done + escape_ops(s@, 0) =~= escape_ops(s@, 0));
    }
    while i < len
        invariant
            i <= len,
            len == s@.len(),
            sink == Sink::Display,
            display.wf(),
            klog.wf(),
            display.color == color,
            color == old(display).color,
            o == out_of(old(display), old(klog)),
            out_of(display, klog) == o.sent(done, sink, color),
            done + escape_ops(s@, i as int) == escape_ops(s@, 0),
        decreases len - i,
    {
        let c: u8 = s[i];
        if c == BACKSLASH && i + 1 < len {
            let next: u8 = s[i + 1];
            let simple: Option<u8> = if next == 110 {
                Some(10u8)
            } else if next == 116 {
                Some(9u8)
            } else if next == 114 {
                Some(13u8)
            } else if next == 92 {
                Some(92u8)
            } else if next == 97 {
                Some(7u8)
            } else if next == 98 {
                Some(8u8)
            } else if next == 102 {
                Some(12u8)
            } else if next == 118 {
                Some(11u8)
            } else {
                None
            };
            if let Some(b) = simple {
                emit_byte(b, sink, display, klog);
                proof {
                    let one = seq![Emit::Literal(b)];
                    lemma_sent_concat(o, done, one, sink, color);
                    assert((done + one) + escape_ops(s@, i + 2) =~= done + (one + escape_ops(s@, i + 2)));
                    done = done + one;
                }
                i += 2;
            } else if next == 48 {
                let start: usize = i + 2;
                let mut k: usize = start;
                let mut val: u8 = 0;
                let mut count: usize = 0;
                while count < 3 && k < len && s[k] >= 48 && s[k] <= 55
                    invariant
                        start <= k <= len,
                        len == s@.len(),
                        k == start + count,
                        count <= 3,
                        val == octal_value(s@, start as int, count as int),
                        octal_run(s@, start as int, 3) == count + octal_run(s@, k as int, 3 - count),
                    decreases 3 - count,
                {
                    val = val.wrapping_mul(8).wrapping_add(s[k] - 48);
                    k += 1;
                    count += 1;
                }
                emit_raw(val, sink, display, klog);
                proof {
                    let one = seq![Emit::Glyph(val)];
                    lemma_sent_concat(o, done, one, sink, color);
                    assert((done + one) + escape_ops(s@, k as int) =~= done + (one + escape_ops(s@, k as int)));
                    done = done + one;
                }
                i = k;
            } else if next == 120 {
                let start: usize = i + 2;
                let mut k: usize = start;
                let mut val: u8 = 0;
                let mut count: usize = 0;
                while count < 2 && k < len && hex_digit(s[k]) <= 15
                    invariant
                        start <= k <= len,
                        len == s@.len(),
                        k == start + count,
                        count <= 2,
                        val == hex_run_value(s@, start as int, count as int),
                        count == 0 ==> val == 0,
                        count == 1 ==> val <= 15,
                        hex_run(s@, start as int, 2) == count + hex_run(s@, k as int, 2 - count),
                    decreases 2 - count,
                {
                    val = val * 16 + hex_digit(s[k]);
                    k += 1;
                    count += 1;
                }
                if count > 0 {
                    emit_raw(val, sink, display, klog);
                    proof {
                        let one = seq![Emit::Glyph(val)];
                        lemma_sent_concat(o, done, one, sink, color);
                        assert((done + one) + escape_ops(s@, k as int) =~= done + (one + escape_ops(s@, k as int)));
                        done = done + one;
                    }
                }
                i = k;
            } else if next == 99 {
                proof {
                    assert(done =~= done + Seq::<Emit>::empty());
                }
                return ;
            } else {
                emit_byte(BACKSLASH, sink, display, klog);
                emit_raw(next, sink, display, klog);
                proof {
                    let a = seq![Emit::Literal(BACKSLASH)];
                    let b = seq![Emit::Glyph(next)];
                    let two = seq![Emit::Literal(BACKSLASH), Emit::Glyph(next)];
                    lemma_sent_concat(o, done, a, sink, color);
                    lemma_sent_concat(o, done + a, b, sink, color);
                    assert((done + a) + b =~= done + two);
                    assert((done + two) + escape_ops(s@, i + 2) =~= done + (two + escape_ops(s@, i + 2)));
                    done = done + two;
                }
                i += 2;
            }
        } else {
            emit_raw(c, sink, display, klog);
            proof {
                let one = seq![Emit::Glyph(c)];
                lemma_sent_concat(o, done, one, sink, color);
                assert((done + one) + escape_ops(s@, i + 1) =~= done + (one + escape_ops(s@, i + 1)));
                done = done + one;
            }
            i += 1;
        }
    }
    proof {
        assert(done =~= done + Seq::<Emit>::empty());
    }
}

/// The three flags of `echo`, none of them set: `n`, `e` and `E`.
pub open spec fn echo_flags() -> Seq<Flag> {
    seq![short_flag(110), short_flag(101), short_flag(69)]
}

/// The output of `echo` for the line `args`: the positional arguments, with
/// escapes if `-e` is given and `-E` is not, and a line feed unless `-n` is
/// given.
pub open spec fn echo_ops(args: Seq<u8>) -> Seq<Emit> {
    let parsed = parse_line(args, echo_flags());
    let rest = args.subrange(parsed.rest_start, args.len() as int);
    let body = if rest.len() == 0 {
        Seq::empty()
    } else if parsed.flags[1].set && !parsed.flags[2].set {
        escape_ops(rest, 0)
    } else {
        text_of(rest)
    };
    if parsed.flags[0].set {
        body
    } else {
        body + seq![Emit::Literal(10u8)]
    }
}

/// Runs `echo` on the line `args`, which starts with the name of the
/// command.
pub fn echo(args: &[u8], display: &mut Display, klog: &mut Klog)
    requires
        old(display).wf(),
        old(klog).wf(),
    ensures
        final(display).wf(),
        final(klog).wf(),
        final(display).color == old(display).color,
        out_of(final(display), final(klog)) == out_of(old(display), old(klog)).sent(
            echo_ops(args@),
            Sink::Display,
            old(display).color,
        ),
{
    let mut flags: Vec<Flag> = Vec::new();
    flags.push(Flag::new(110));
    flags.push(Flag::new(101));
    flags.push(Flag::new(69));
    let ghost initial = flags@;
    proof {
        assert(initial =~= echo_flags());
    }
    let ghost o = out_of(old(display), old(klog));
    let ghost color = old(display).color;
    proof {
        lemma_token_end(args@, 0);
        lemma_token_end(args@, token_end(args@, 0));
        lemma_parse_flags(args@, initial, after_space(args@, token_end(args@, 0)));
    }
    let cmd = Cmd::parse(args, flags.as_mut_slice());
    let ghost parsed = parse_line(args@, initial);
    proof {
        assert(cmd.flags() == parsed.flags);
        assert(parsed.flags[0].short == 110 && parsed.flags[1].short == 101 && parsed.flags[2].short == 69);
        assert(find_short(parsed.flags, 110, 0) == Some(0int));
        assert(find_short(parsed.flags, 101, 0) == Some(1int)) by {
            assert(find_short(parsed.flags, 101, 1) == Some(1int));
        }
        assert(find_short(parsed.flags, 69, 0) == Some(2int)) by {
            assert(find_short(parsed.flags, 69, 2) == Some(2int));
            assert(find_short(parsed.flags, 69, 1) == Some(2int));
        }
    }
    let newline: bool = !cmd.flag(110);
    let escapes: bool = cmd.flag(101) && !cmd.flag(69);
    let rest: &[u8] = cmd.args();
    let ghost body: Seq<Emit> = if rest@.len() == 0 {
        Seq::empty()
    } else if escapes {
        escape_ops(rest@, 0)
    } else {
        text_of(rest@)
    };
    if rest.len() > 0 {
        if escapes {
            print_with_escapes(rest, display, klog);
        } else {
            emit_bytes(rest, Sink::Display, display, klog);
        }
    } else {
        proof {
            assert(o.emit_all(body, 0, Sink::Display, color) == o);
        }
    }
    if newline {
        emit_byte(10, Sink::Display, display, klog);
        proof {
            lemma_sent_concat(o, body, seq![Emit::Literal(10u8)], Sink::Display, color);
        }
    }
    proof {
        assert(out_of(display, klog) == o.sent(echo_ops(args@), Sink::Display, color));
    }
}

} // verus!
