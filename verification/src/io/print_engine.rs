//! Formatted output.
//!
//! A format string is put out byte by byte.  `{}` stands for the next
//! argument; `{:x}`, `{:X}`, `{:b}` and `{:o}` ask for a number in base 16
//! (small or capital letters), 2 or 8, and with `#` before the letter for
//! the prefix `0x`, `0X`, `0b` or `0o`.  `{{` and `}}` stand for the braces
//! themselves.  A placeholder for which no argument is left puts out
//! nothing.

use vstd::prelude::*;
use vstd::string::StringSliceAdditionalSpecFns;
use crate::drivers::vga::DEFAULT_COLOR;
use crate::drivers::vga::VgaView;
use crate::io::display::Display;
use crate::io::display::put_bytes;
use crate::io::display::put_char;
use crate::io::display::put_str;
use crate::io::display::write_byte;
use crate::io::klog::Klog;
use crate::io::klog::KlogView;
use crate::io::klog::log_byte;
use crate::io::klog::log_bytes;
use crate::io::klog::log_str;

verus! {

/// Where formatted text goes.
#[derive(Clone, Copy, Debug, PartialEq, Eq, Structural)]
pub enum Sink {
    /// To the screen only.
    Display,
    /// To the kernel log only.
    Klog,
    /// To the screen and to the kernel log.
    Kernel,
}

impl Sink {
    /// The text goes to the screen.
    pub open spec fn shows(self) -> bool {
        self == Sink::Display || self == Sink::Kernel
    }

    /// The text goes to the kernel log.
    pub open spec fn logs(self) -> bool {
        self == Sink::Klog || self == Sink::Kernel
    }

    /// Whether the text goes to the screen.
    pub fn to_display(self) -> (r: bool)
        ensures
            r == self.shows(),
    {
        match self {
            Sink::Display => true,
            Sink::Kernel => true,
            Sink::Klog => false,
        }
    }

    /// Whether the text goes to the kernel log.
    pub fn to_klog(self) -> (r: bool)
        ensures
            r == self.logs(),
    {
        match self {
            Sink::Klog => true,
            Sink::Kernel => true,
            Sink::Display => false,
        }
    }
}

/// One argument of a format string.
#[derive(Clone, Copy, Debug)]
pub enum PrintArg<'a> {
    Str(&'a str),
    Bytes(&'a [u8]),
    Char(u8),
    I32(i32),
    U32(u32),
    Usize(usize),
    Bool(bool),
}

/// How a placeholder asks for a number.
#[derive(Clone, Copy, Debug, PartialEq, Eq, Structural)]
pub enum FmtSpec {
    Default,
    Hex,
    HexUpper,
    Binary,
    Octal,
    HexAlt,
    HexUpperAlt,
    BinaryAlt,
    OctalAlt,
}

impl FmtSpec {
    /// The base of the number.
    pub open spec fn base(self) -> int {
        match self {
            FmtSpec::Default => 10,
            FmtSpec::Hex | FmtSpec::HexUpper | FmtSpec::HexAlt | FmtSpec::HexUpperAlt => 16,
            FmtSpec::Binary | FmtSpec::BinaryAlt => 2,
            FmtSpec::Octal | FmtSpec::OctalAlt => 8,
        }
    }

    /// Whether digits above nine are capital letters.
    pub open spec fn uppercase(self) -> bool {
        self == FmtSpec::HexUpper || self == FmtSpec::HexUpperAlt
    }

    /// The prefix before the digits.
    pub open spec fn prefix(self) -> Seq<u8> {
        match self {
            FmtSpec::HexAlt => seq![48u8, 120u8],
            FmtSpec::HexUpperAlt => seq![48u8, 88u8],
            FmtSpec::BinaryAlt => seq![48u8, 98u8],
            FmtSpec::OctalAlt => seq![48u8, 111u8],
            _ => Seq::empty(),
        }
    }

    /// Base, case of the letters and prefix.
    pub fn params(self) -> (r: (u32, bool, Vec<u8>))
        ensures
            r.0 == self.base(),
            r.1 == self.uppercase(),
            r.2@ == self.prefix(),
    {
        let mut prefix: Vec<u8> = Vec::new();
        let (base, upper): (u32, bool) = match self {
            FmtSpec::Default => (10, false),
            FmtSpec::Hex => (16, false),
            FmtSpec::HexUpper => (16, true),
            FmtSpec::Binary => (2, false),
            FmtSpec::Octal => (8, false),
            FmtSpec::HexAlt => {
                prefix.push(48);
                prefix.push(120);
                (16, false)
            },
            FmtSpec::HexUpperAlt => {
                prefix.push(48);
                prefix.push(88);
                (16, true)
            },
            FmtSpec::BinaryAlt => {
                prefix.push(48);
                prefix.push(98);
                (2, false)
            },
            FmtSpec::OctalAlt => {
                prefix.push(48);
                prefix.push(111);
                (8, false)
            },
        };
        proof {
            assert(prefix@ =~= self.prefix());
        }
        (base, upper, prefix)
    }
}

/// One byte of output, with the way in which the screen takes it.
#[derive(Clone, Copy, Debug, PartialEq, Eq, Structural)]
pub enum Emit {
    /// Drawn as it is, in the current colour.
    Glyph(u8),
    /// Put out in the current colour; line ends move the cursor.
    Text(u8),
    /// Put out in the default colour; line ends move the cursor.
    Literal(u8),
}

impl Emit {
    /// The byte.
    pub open spec fn byte(self) -> u8 {
        match self {
            Emit::Glyph(c) => c,
            Emit::Text(c) => c,
            Emit::Literal(c) => c,
        }
    }
}

/// The bytes `s` as text.
pub open spec fn text_of(s: Seq<u8>) -> Seq<Emit> {
    Seq::new(s.len(), |i: int| Emit::Text(s[i]))
}

/// The bytes `s` as glyphs.
pub open spec fn glyphs_of(s: Seq<u8>) -> Seq<Emit> {
    Seq::new(s.len(), |i: int| Emit::Glyph(s[i]))
}

/// The character of the digit `d`.
pub open spec fn digit_char(d: int, uppercase: bool) -> u8 {
    if d < 10 {
        (48 + d) as u8
    } else if uppercase {
        (65 + d - 10) as u8
    } else {
        (97 + d - 10) as u8
    }
}

/// The digits of `val` in base `base`, most significant first.
pub open spec fn digits(val: int, base: int, uppercase: bool) -> Seq<u8>
    decreases val,
    via digits_decreases
{
    if val < base || base < 2 {
        seq![digit_char(val, uppercase)]
    } else {
        digits(val / base, base, uppercase).push(digit_char(val % base, uppercase))
    }
}

#[via_fn]
proof fn digits_decreases(val: int, base: int, uppercase: bool) {
    if val >= base && base >= 2 {
        lemma_div_shrinks(val, base);
    }
}

/// Dividing a positive number by two or more makes it smaller, by half at
/// least.
pub proof fn lemma_div_shrinks(val: int, base: int)
    requires
        val >= 1,
        base >= 2,
    ensures
        0 <= val / base < val,
        (val / base) * 2 <= val,
        val < base ==> val % base == val && val / base == 0,
        val >= base ==> val / base >= 1,
        0 <= val % base < base,
{
    vstd::arithmetic::div_mod::lemma_fundamental_div_mod(val, base);
    vstd::arithmetic::div_mod::lemma_mod_bound(val, base);
    vstd::arithmetic::div_mod::lemma_div_pos_is_pos(val, base);
    let q = val / base;
    assert(q * 2 <= base * q) by (nonlinear_arith)
        requires
            q >= 0,
            base >= 2,
    ;
    if val < base {
        vstd::arithmetic::div_mod::lemma_small_mod(val as nat, base as nat);
        vstd::arithmetic::div_mod::lemma_basic_div(val, base);
    } else if q == 0 {
        assert(base * q == 0) by (nonlinear_arith)
            requires
                q == 0,
        ;
    }
}

/// The output for the number `val`: the prefix as text, then the digits as
/// glyphs.
pub open spec fn number_ops(val: u32, spec: FmtSpec) -> Seq<Emit> {
    text_of(spec.prefix()) + glyphs_of(digits(val as int, spec.base(), spec.uppercase()))
}

/// The output for the signed number `val`: a minus sign before the digits of
/// a negative number.
pub open spec fn signed_ops(val: i32, spec: FmtSpec) -> Seq<Emit> {
    if val < 0 {
        seq![Emit::Glyph(45u8)] + number_ops((-val) as u32, spec)
    } else {
        number_ops(val as u32, spec)
    }
}

/// The output for the argument `arg`.  Of a number that is wider than 32
/// bits the low 32 bits are put out.
pub open spec fn arg_ops(arg: PrintArg, spec: FmtSpec) -> Seq<Emit> {
    match arg {
        PrintArg::Str(s) => text_of(s.spec_bytes()),
        PrintArg::Bytes(b) => text_of(b@),
        PrintArg::Char(c) => seq![Emit::Glyph(c)],
        PrintArg::I32(v) => signed_ops(v, spec),
        PrintArg::U32(v) => number_ops(v, spec),
        PrintArg::Usize(v) => number_ops((v as int % 0x1_0000_0000) as u32, spec),
        PrintArg::Bool(v) => if v {
            text_of(seq![116u8, 114u8, 117u8, 101u8])
        } else {
            text_of(seq![102u8, 97u8, 108u8, 115u8, 101u8])
        },
    }
}

/// What the bytes `start..end` of `fmt`, the inside of a placeholder, ask
/// for.  Anything that is not understood asks for the default.
pub open spec fn spec_of(fmt: Seq<u8>, start: int, end: int) -> FmtSpec {
    if end - start == 2 && fmt[start] == 58 {
        let c = fmt[start + 1];
        if c == 120 {
            FmtSpec::Hex
        } else if c == 88 {
            FmtSpec::HexUpper
        } else if c == 98 {
            FmtSpec::Binary
        } else if c == 111 {
            FmtSpec::Octal
        } else {
            FmtSpec::Default
        }
    } else if end - start == 3 && fmt[start] == 58 && fmt[start + 1] == 35 {
        let c = fmt[start + 2];
        if c == 120 {
            FmtSpec::HexAlt
        } else if c == 88 {
            FmtSpec::HexUpperAlt
        } else if c == 98 {
            FmtSpec::BinaryAlt
        } else if c == 111 {
            FmtSpec::OctalAlt
        } else {
            FmtSpec::Default
        }
    } else {
        FmtSpec::Default
    }
}

/// The index of the first closing brace of `fmt` at or after `j`, or the
/// length of `fmt` when there is none.
pub open spec fn close_of(fmt: Seq<u8>, j: int) -> int
    decreases fmt.len() - j,
{
    if j < 0 || j >= fmt.len() {
        j
    } else if fmt[j] == 125 {
        j
    } else {
        close_of(fmt, j + 1)
    }
}

/// A closing brace is found at or behind the place where the search starts.
pub proof fn lemma_close_of(fmt: Seq<u8>, j: int)
    requires
        0 <= j <= fmt.len(),
    ensures
        j <= close_of(fmt, j) <= fmt.len(),
    decreases fmt.len() - j,
{
    if j < fmt.len() && fmt[j] != 125 {
        lemma_close_of(fmt, j + 1);
    }
}

/// The output for the format string `fmt` from index `i` on, with the
/// arguments of `args` from index `k` on.
pub open spec fn format_ops(fmt: Seq<u8>, args: Seq<PrintArg>, i: int, k: int) -> Seq<Emit>
    decreases fmt.len() - i,
    via format_ops_decreases
{
    if i < 0 || i >= fmt.len() {
        Seq::empty()
    } else if fmt[i] == 123 {
        if i + 1 < fmt.len() && fmt[i + 1] == 123 {
            seq![Emit::Glyph(123u8)] + format_ops(fmt, args, i + 2, k)
        } else {
            let j = close_of(fmt, i + 1);
            let next = if j < fmt.len() { j + 1 } else { fmt.len() as int };
            if 0 <= k < args.len() {
                arg_ops(args[k], spec_of(fmt, i + 1, j)) + format_ops(fmt, args, next, k + 1)
            } else {
                format_ops(fmt, args, next, k)
            }
        }
    } else if fmt[i] == 125 && i + 1 < fmt.len() && fmt[i + 1] == 125 {
        seq![Emit::Glyph(125u8)] + format_ops(fmt, args, i + 2, k)
    } else {
        seq![Emit::Literal(fmt[i])] + format_ops(fmt, args, i + 1, k)
    }
}

#[via_fn]
proof fn format_ops_decreases(fmt: Seq<u8>, args: Seq<PrintArg>, i: int, k: int) {
    if 0 <= i < fmt.len() {
        lemma_close_of(fmt, i + 1);
    }
}

/// Screen and kernel log as plain values.
pub struct Out {
    pub screen: VgaView,
    pub log: KlogView,
}

impl Out {
    /// Screen and log are well-formed.
    pub open spec fn wf(self) -> bool {
        self.screen.wf() && self.log.wf()
    }

    /// Screen and log after `e` has gone to `sink`, with `color` as the
    /// current colour.
    pub open spec fn emit(self, e: Emit, sink: Sink, color: u8) -> Out {
        Out {
            screen: if sink.shows() {
                match e {
                    Emit::Glyph(c) => self.screen.glyph(c, color),
                    Emit::Text(c) => self.screen.put(c, color),
                    Emit::Literal(c) => self.screen.put(c, DEFAULT_COLOR),
                }
            } else {
                self.screen
            },
            log: if sink.logs() {
                self.log.logged(e.byte())
            } else {
                self.log
            },
        }
    }

    /// Screen and log after the first `n` items of `ops` have gone to `sink`.
    pub open spec fn emit_all(self, ops: Seq<Emit>, n: int, sink: Sink, color: u8) -> Out
        decreases n,
    {
        if n <= 0 {
            self
        } else {
            self.emit_all(ops, n - 1, sink, color).emit(ops[n - 1], sink, color)
        }
    }

    /// Screen and log after all of `ops` has gone to `sink`.
    pub open spec fn sent(self, ops: Seq<Emit>, sink: Sink, color: u8) -> Out {
        self.emit_all(ops, ops.len() as int, sink, color)
    }
}

/// Output that goes out in two parts goes out as a whole.
pub proof fn lemma_sent_concat(o: Out, a: Seq<Emit>, b: Seq<Emit>, sink: Sink, color: u8)
    ensures
        o.sent(a + b, sink, color) == o.sent(a, sink, color).sent(b, sink, color),
    decreases b.len(),
{
    if b.len() == 0 {
        assert(a + b =~= a);
    } else {
        lemma_sent_concat(o, a, b.drop_last(), sink, color);
        lemma_prefix(o, a + b, a + b.drop_last(), (a + b).len() - 1, sink, color);
        lemma_prefix(o.sent(a, sink, color), b, b.drop_last(), b.len() - 1, sink, color);
    }
}

/// Only the items that go out matter.
pub proof fn lemma_prefix(o: Out, a: Seq<Emit>, b: Seq<Emit>, n: int, sink: Sink, color: u8)
    requires
        n <= a.len(),
        n <= b.len(),
        forall|i: int| 0 <= i < n ==> a[i] == b[i],
    ensures
        o.emit_all(a, n, sink, color) == o.emit_all(b, n, sink, color),
    decreases n,
{
    if n > 0 {
        lemma_prefix(o, a, b, n - 1, sink, color);
    }
}

/// Output keeps screen and log well-formed.
pub proof fn lemma_sent_wf(o: Out, ops: Seq<Emit>, n: int, sink: Sink, color: u8)
    requires
        o.wf(),
    ensures
        o.emit_all(ops, n, sink, color).wf(),
    decreases n,
{
    if n > 0 {
        lemma_sent_wf(o, ops, n - 1, sink, color);
    }
}

/// Screen and log of `display` and `klog`.
pub open spec fn out_of(display: &Display, klog: &Klog) -> Out {
    Out { screen: display.vga@, log: klog@ }
}

/// Sends the byte `c` as a glyph.
pub fn emit_raw(c: u8, sink: Sink, display: &mut Display, klog: &mut Klog)
    requires
        old(display).wf(),
        old(klog).wf(),
    ensures
        final(display).wf(),
        final(klog).wf(),
        final(display).color == old(display).color,
        out_of(final(display), final(klog)) == out_of(old(display), old(klog)).sent(
            seq![Emit::Glyph(c)],
            sink,
            old(display).color,
        ),
{
    if sink.to_display() {
        put_char(display, c);
    }
    if sink.to_klog() {
        log_byte(klog, c);
    }
    proof {
        let o = out_of(old(display), old(klog));
        let ops = seq![Emit::Glyph(c)];
        assert(o.emit_all(ops, 0, sink, old(display).color) == o);
    }
}

/// Sends the byte `c` as a literal of the format string.
pub fn emit_byte(c: u8, sink: Sink, display: &mut Display, klog: &mut Klog)
    requires
        old(display).wf(),
        old(klog).wf(),
    ensures
        final(display).wf(),
        final(klog).wf(),
        final(display).color == old(display).color,
        out_of(final(display), final(klog)) == out_of(old(display), old(klog)).sent(
            seq![Emit::Literal(c)],
            sink,
            old(display).color,
        ),
{
    if sink.to_display() {
        write_byte(display, c, DEFAULT_COLOR);
    }
    if sink.to_klog() {
        log_byte(klog, c);
    }
    proof {
        let o = out_of(old(display), old(klog));
        let ops = seq![Emit::Literal(c)];
        assert(o.emit_all(ops, 0, sink, old(display).color) == o);
    }
}

/// What sending text does to the screen and to the log, each taken alone.
proof fn lemma_text_sent(o: Out, s: Seq<u8>, n: int, sink: Sink, color: u8)
    requires
        0 <= n <= s.len(),
    ensures
        o.emit_all(text_of(s), n, sink, color).screen == if sink.shows() {
            o.screen.put_all(s, n, color)
        } else {
            o.screen
        },
        o.emit_all(text_of(s), n, sink, color).log == if sink.logs() {
            o.log.logged_all(s, n)
        } else {
            o.log
        },
    decreases n,
{
    if n > 0 {
        lemma_text_sent(o, s, n - 1, sink, color);
    }
}

/// What sending glyphs does to the screen and to the log, each taken alone.
proof fn lemma_glyphs_sent(o: Out, s: Seq<u8>, n: int, sink: Sink, color: u8)
    requires
        0 <= n <= s.len(),
    ensures
        o.emit_all(glyphs_of(s), n, sink, color).screen == if sink.shows() {
            o.screen.glyphs(s, n, color)
        } else {
            o.screen
        },
        o.emit_all(glyphs_of(s), n, sink, color).log == if sink.logs() {
            o.log.logged_all(s, n)
        } else {
            o.log
        },
    decreases n,
{
    if n > 0 {
        lemma_glyphs_sent(o, s, n - 1, sink, color);
    }
}

/// Sends the bytes of `b` as text.
pub fn emit_bytes(b: &[u8], sink: Sink, display: &mut Display, klog: &mut Klog)
    requires
        old(display).wf(),
        old(klog).wf(),
    ensures
        final(display).wf(),
        final(klog).wf(),
        final(display).color == old(display).color,
        out_of(final(display), final(klog)) == out_of(old(display), old(klog)).sent(
            text_of(b@),
            sink,
            old(display).color,
        ),
{
    if sink.to_display() {
        put_bytes(display, b);
    }
    if sink.to_klog() {
        log_bytes(klog, b);
    }
    proof {
        lemma_text_sent(out_of(old(display), old(klog)), b@, b@.len() as int, sink, old(display).color);
    }
}

/// Sends the string `s` as text.
pub fn emit_str(s: &str, sink: Sink, display: &mut Display, klog: &mut Klog)
    requires
        old(display).wf(),
        old(klog).wf(),
    ensures
        final(display).wf(),
        final(klog).wf(),
        final(display).color == old(display).color,
        out_of(final(display), final(klog)) == out_of(old(display), old(klog)).sent(
            text_of(s.spec_bytes()),
            sink,
            old(display).color,
        ),
{
    if sink.to_display() {
        put_str(display, s);
    }
    if sink.to_klog() {
        log_str(klog, s);
    }
    proof {
        lemma_text_sent(
            out_of(old(display), old(klog)),
            s.spec_bytes(),
            s.spec_bytes().len() as int,
            sink,
            old(display).color,
        );
    }
}

/// Bytes in the buffer for the digits of a number: enough for 32 binary
/// digits.
pub const ITOA_BUF_SIZE: usize = 34;

/// Writes the digits of `val` in base `base` at the end of `buf` and returns
/// the index of the first digit.
pub fn u32_to_base(val: u32, base: u32, uppercase: bool, buf: &mut [u8; 34]) -> (start: usize)
    requires
        2 <= base <= 36,
    ensures
        2 <= start < ITOA_BUF_SIZE,
        final(buf)@.subrange(start as int, ITOA_BUF_SIZE as int) == digits(val as int, base as int, uppercase),
        forall|i: int| 0 <= i < start ==> final(buf)@[i] == old(buf)@[i],
{
    if val == 0 {
        buf[ITOA_BUF_SIZE - 1] = 48;
        proof {
            assert(buf@.subrange(ITOA_BUF_SIZE - 1, ITOA_BUF_SIZE as int) =~= seq![48u8]);
        }
        return ITOA_BUF_SIZE - 1;
    }
    let mut v: u32 = val;
    let mut i: usize = ITOA_BUF_SIZE;
    proof {
        vstd::arithmetic::power2::lemma2_to64();
        let p = vstd::arithmetic::power2::pow2(0);
        assert(v * p == v) by (nonlinear_arith)
            requires
                p == 1,
        ;
        assert(buf@.subrange(ITOA_BUF_SIZE as int, ITOA_BUF_SIZE as int) =~= Seq::<u8>::empty());
        assert(digits(val as int, base as int, uppercase) =~= digits(v as int, base as int, uppercase)
            + Seq::<u8>::empty());
    }
    while v > 0
        invariant
            2 <= base <= 36,
            2 <= i <= ITOA_BUF_SIZE,
            v * vstd::arithmetic::power2::pow2((ITOA_BUF_SIZE - i) as nat) <= u32::MAX,
            v > 0 ==> digits(val as int, base as int, uppercase) == digits(v as int, base as int, uppercase)
                + buf@.subrange(i as int, ITOA_BUF_SIZE as int),
            v == 0 ==> digits(val as int, base as int, uppercase) == buf@.subrange(
                i as int,
                ITOA_BUF_SIZE as int,
            ) && i < ITOA_BUF_SIZE,
            forall|k: int| 0 <= k < i ==> buf@[k] == old(buf)@[k],
        decreases v,
    {
        proof {
            let steps = (ITOA_BUF_SIZE - i) as nat;
            vstd::arithmetic::power2::lemma2_to64();
            vstd::arithmetic::power2::lemma_pow2_unfold(steps + 1);
            if i <= 2 {
                assert(vstd::arithmetic::power2::pow2(steps) >= 0x1_0000_0000) by {
                    vstd::arithmetic::power2::lemma_pow2_strictly_increases(32, steps + 1);
                    vstd::arithmetic::power2::lemma_pow2_unfold(steps + 1);
                }
                assert(v * vstd::arithmetic::power2::pow2(steps) >= 0x1_0000_0000) by (nonlinear_arith)
                    requires
                        v >= 1,
                        vstd::arithmetic::power2::pow2(steps) >= 0x1_0000_0000,
                ;
            }
        }
        proof {
            lemma_div_shrinks(v as int, base as int);
        }
        i -= 1;
        let digit: u8 = (v % base) as u8;
        let c: u8 = if digit < 10 {
            48 + digit
        } else if uppercase {
            65 + (digit - 10)
        } else {
            97 + (digit - 10)
        };
        let ghost before = buf@;
        let ghost prev = v;
        buf[i] = c;
        v = v / base;
        proof {
            let steps = (ITOA_BUF_SIZE - i - 1) as nat;
            let p = vstd::arithmetic::power2::pow2(steps);
            vstd::arithmetic::power2::lemma_pow2_unfold(steps + 1);
            vstd::arithmetic::power2::lemma_pow2_pos(steps);
            assert(v * (2 * p) <= prev * p) by (nonlinear_arith)
                requires
                    v * 2 <= prev,
                    p >= 0,
            ;
            let tail = before.subrange(i + 1, ITOA_BUF_SIZE as int);
            assert(buf@.subrange(i as int, ITOA_BUF_SIZE as int) =~= seq![c] + tail);
            let d = digits(prev as int, base as int, uppercase);
            if prev < base {
                assert(d =~= seq![c]);
                assert(digits(val as int, base as int, uppercase) =~= buf@.subrange(
                    i as int,
                    ITOA_BUF_SIZE as int,
                ));
            } else {
                assert(d =~= digits(v as int, base as int, uppercase).push(c));
                assert(digits(val as int, base as int, uppercase) =~= digits(v as int, base as int, uppercase) + buf@.subrange(
                    i as int,
                    ITOA_BUF_SIZE as int,
                ));
            }
        }
    }
    i
}

/// Sends the bytes of `buf` from index `start` on as glyphs.
pub fn emit_buf(buf: &[u8; 34], start: usize, sink: Sink, display: &mut Display, klog: &mut Klog)
    requires
        old(display).wf(),
        old(klog).wf(),
        start <= ITOA_BUF_SIZE,
    ensures
        final(display).wf(),
        final(klog).wf(),
        final(display).color == old(display).color,
        out_of(final(display), final(klog)) == out_of(old(display), old(klog)).sent(
            glyphs_of(buf@.subrange(start as int, ITOA_BUF_SIZE as int)),
            sink,
            old(display).color,
        ),
{
    let ghost s = buf@.subrange(start as int, ITOA_BUF_SIZE as int);
    let ghost o = out_of(old(display), old(klog));
    let ghost color = old(display).color;
    let mut i: usize = start;
    while i < ITOA_BUF_SIZE
        invariant
            start <= i <= ITOA_BUF_SIZE,
            display.wf(),
            klog.wf(),
            display.color == color,
            s == buf@.subrange(start as int, ITOA_BUF_SIZE as int),
            out_of(display, klog) == o.emit_all(glyphs_of(s), i - start, sink, color),
        decreases ITOA_BUF_SIZE - i,
    {
        let ghost mid = out_of(display, klog);
        emit_raw(buf[i], sink, display, klog);
        proof {
            let one = seq![Emit::Glyph(buf@[i as int])];
            assert(mid.emit_all(one, 0, sink, color) == mid);
            assert(glyphs_of(s)[i - start] == Emit::Glyph(buf@[i as int]));
        }
        i += 1;
    }
}

/// Sends the number `val` as `spec` asks.
pub fn write_u32(val: u32, spec: FmtSpec, sink: Sink, display: &mut Display, klog: &mut Klog)
    requires
        old(display).wf(),
        old(klog).wf(),
    ensures
        final(display).wf(),
        final(klog).wf(),
        final(display).color == old(display).color,
        out_of(final(display), final(klog)) == out_of(old(display), old(klog)).sent(
            number_ops(val, spec),
            sink,
            old(display).color,
        ),
{
    let (base, uppercase, prefix) = spec.params();
    if prefix.len() > 0 {
        emit_bytes(prefix.as_slice(), sink, display, klog);
    } else {
        proof {
            let o = out_of(old(display), old(klog));
            assert(o.emit_all(text_of(spec.prefix()), 0, sink, old(display).color) == o);
        }
    }
    let mut buf: [u8; 34] = [0u8; 34];
    let start: usize = u32_to_base(val, base, uppercase, &mut buf);
    emit_buf(&buf, start, sink, display, klog);
    proof {
        lemma_sent_concat(
            out_of(old(display), old(klog)),
            text_of(spec.prefix()),
            glyphs_of(digits(val as int, spec.base(), spec.uppercase())),
            sink,
            old(display).color,
        );
    }
}

/// Sends the signed number `val` as `spec` asks.
pub fn write_i32(val: i32, spec: FmtSpec, sink: Sink, display: &mut Display, klog: &mut Klog)
    requires
        old(display).wf(),
        old(klog).wf(),
    ensures
        final(display).wf(),
        final(klog).wf(),
        final(display).color == old(display).color,
        out_of(final(display), final(klog)) == out_of(old(display), old(klog)).sent(
            signed_ops(val, spec),
            sink,
            old(display).color,
        ),
{
    if val < 0 {
        emit_raw(45, sink, display, klog);
        let magnitude: u32 = if val == i32::MIN {
            0x8000_0000
        } else {
            (-val) as u32
        };
        write_u32(magnitude, spec, sink, display, klog);
        proof {
            lemma_sent_concat(
                out_of(old(display), old(klog)),
                seq![Emit::Glyph(45u8)],
                number_ops(magnitude, spec),
                sink,
                old(display).color,
            );
        }
    } else {
        write_u32(val as u32, spec, sink, display, klog);
    }
}

/// Sends the argument `arg` as `spec` asks.
pub fn write_arg(arg: &PrintArg, spec: FmtSpec, sink: Sink, display: &mut Display, klog: &mut Klog)
    requires
        old(display).wf(),
        old(klog).wf(),
    ensures
        final(display).wf(),
        final(klog).wf(),
        final(display).color == old(display).color,
        out_of(final(display), final(klog)) == out_of(old(display), old(klog)).sent(
            arg_ops(*arg, spec),
            sink,
            old(display).color,
        ),
{
    match arg {
        PrintArg::Str(s) => emit_str(s, sink, display, klog),
        PrintArg::Bytes(b) => emit_bytes(b, sink, display, klog),
        PrintArg::Char(c) => emit_raw(*c, sink, display, klog),
        PrintArg::I32(v) => write_i32(*v, spec, sink, display, klog),
        PrintArg::U32(v) => write_u32(*v, spec, sink, display, klog),
        PrintArg::Usize(v) => {
            let low: u32 = (*v as u64 % 0x1_0000_0000) as u32;
            write_u32(low, spec, sink, display, klog)
        },
        PrintArg::Bool(v) => {
            if *v {
                let word: [u8; 4] = [116, 114, 117, 101];
                proof {
                    assert(word@ =~= seq![116u8, 114u8, 117u8, 101u8]);
                }
                emit_bytes(word.as_slice(), sink, display, klog)
            } else {
                let word: [u8; 5] = [102, 97, 108, 115, 101];
                proof {
                    assert(word@ =~= seq![102u8, 97u8, 108u8, 115u8, 101u8]);
                }
                emit_bytes(word.as_slice(), sink, display, klog)
            }
        },
    }
}

/// What the bytes `start..end` of `fmt`, the inside of a placeholder, ask
/// for.
pub fn parse_spec(fmt: &[u8], start: usize, end: usize) -> (r: FmtSpec)
    requires
        start <= end <= fmt@.len(),
    ensures
        r == spec_of(fmt@, start as int, end as int),
{
    let len: usize = end - start;
    if len == 0 {
        return FmtSpec::Default;
    }
    if fmt[start] != 58 {
        return FmtSpec::Default;
    }
    if len == 2 {
        let c: u8 = fmt[start + 1];
        return if c == 120 {
            FmtSpec::Hex
        } else if c == 88 {
            FmtSpec::HexUpper
        } else if c == 98 {
            FmtSpec::Binary
        } else if c == 111 {
            FmtSpec::Octal
        } else {
            FmtSpec::Default
        };
    }
    if len == 3 && fmt[start + 1] == 35 {
        let c: u8 = fmt[start + 2];
        return if c == 120 {
            FmtSpec::HexAlt
        } else if c == 88 {
            FmtSpec::HexUpperAlt
        } else if c == 98 {
            FmtSpec::BinaryAlt
        } else if c == 111 {
            FmtSpec::OctalAlt
        } else {
            FmtSpec::Default
        };
    }
    FmtSpec::Default
}

/// Puts out the format string `fmt` with the arguments `args` to `sink`.
pub fn format(fmt: &str, args: &[PrintArg], sink: Sink, display: &mut Display, klog: &mut Klog)
    requires
        old(display).wf(),
        old(klog).wf(),
    ensures
        final(display).wf(),
        final(klog).wf(),
        final(display).color == old(display).color,
        out_of(final(display), final(klog)) == out_of(old(display), old(klog)).sent(
            format_ops(fmt.spec_bytes(), args@, 0, 0),
            sink,
            old(display).color,
        ),
{
    let bytes: &[u8] = fmt.as_bytes();
    let len: usize = bytes.len();
    let ghost o = out_of(old(display), old(klog));
    let ghost color = old(display).color;
    let ghost mut done: Seq<Emit> = Seq::empty();
    let mut i: usize = 0;
    let mut arg_idx: usize = 0;
    proof {
        assert(o.emit_all(done, 0, sink, color) == o);
        assert(done + format_ops(bytes@, args@, 0, 0) =~= format_ops(bytes@, args@, 0, 0));
    }
    while i < len
        invariant
            i <= len,
            len == bytes@.len(),
            bytes@ == fmt.spec_bytes(),
            arg_idx <= args@.len(),
            display.wf(),
            klog.wf(),
            display.color == color,
            out_of(display, klog) == o.sent(done, sink, color),
            done + format_ops(bytes@, args@, i as int, arg_idx as int) == format_ops(bytes@, args@, 0, 0),
        decreases len - i,
    {
        let ch: u8 = bytes[i];
        let ghost rest = format_ops(bytes@, args@, i as int, arg_idx as int);
        if ch == 123 {
            if i + 1 < len && bytes[i + 1] == 123 {
                emit_raw(123, sink, display, klog);
                proof {
                    let one = seq![Emit::Glyph(123u8)];
                    lemma_sent_concat(o, done, one, sink, color);
                    let tail = format_ops(bytes@, args@, i + 2, arg_idx as int);
                    assert((done + one) + tail =~= done + (one + tail));
                    done = done + one;
                }
                i += 2;
                continue ;
            }
            let spec_start: usize = i + 1;
            let mut j: usize = spec_start;
            while j < len && bytes[j] != 125
                invariant
                    spec_start <= j <= len,
                    len == bytes@.len(),
                    close_of(bytes@, spec_start as int) == close_of(bytes@, j as int),
                decreases len - j,
            {
                j += 1;
            }
            let spec: FmtSpec = parse_spec(bytes, spec_start, j);
            if arg_idx < args.len() {
                write_arg(&args[arg_idx], spec, sink, display, klog);
                proof {
                    let one = arg_ops(args@[arg_idx as int], spec);
                    lemma_sent_concat(o, done, one, sink, color);
                    let next = if j < len { j + 1 } else { len as int };
                    let tail = format_ops(bytes@, args@, next, arg_idx + 1);
                    assert((done + one) + tail =~= done + (one + tail));
                    done = done + one;
                }
                arg_idx += 1;
            }
            if j >= len {
                i = len;
            } else {
                i = j + 1;
            }
            continue ;
        }
        if ch == 125 && i + 1 < len && bytes[i + 1] == 125 {
            emit_raw(125, sink, display, klog);
            proof {
                let one = seq![Emit::Glyph(125u8)];
                lemma_sent_concat(o, done, one, sink, color);
                let tail = format_ops(bytes@, args@, i + 2, arg_idx as int);
                assert((done + one) + tail =~= done + (one + tail));
                done = done + one;
            }
            i += 2;
            continue ;
        }
        emit_byte(ch, sink, display, klog);
        proof {
            let one = seq![Emit::Literal(ch)];
            lemma_sent_concat(o, done, one, sink, color);
            let tail = format_ops(bytes@, args@, i + 1, arg_idx as int);
            assert((done + one) + tail =~= done + (one + tail));
            done = done + one;
        }
        i += 1;
    }
    proof {
        assert(done =~= done + Seq::<Emit>::empty());
    }
}

/// Puts out formatted text to the screen.
pub fn write_display(fmt: &str, args: &[PrintArg], display: &mut Display, klog: &mut Klog)
    requires
        old(display).wf(),
        old(klog).wf(),
    ensures
        final(display).wf(),
        final(klog).wf(),
        final(display).color == old(display).color,
        out_of(final(display), final(klog)) == out_of(old(display), old(klog)).sent(
            format_ops(fmt.spec_bytes(), args@, 0, 0),
            Sink::Display,
            old(display).color,
        ),
{
    format(fmt, args, Sink::Display, display, klog);
}

/// Puts formatted text into the kernel log.
pub fn write_klog(fmt: &str, args: &[PrintArg], display: &mut Display, klog: &mut Klog)
    requires
        old(display).wf(),
        old(klog).wf(),
    ensures
        final(display).wf(),
        final(klog).wf(),
        final(display).color == old(display).color,
        out_of(final(display), final(klog)) == out_of(old(display), old(klog)).sent(
            format_ops(fmt.spec_bytes(), args@, 0, 0),
            Sink::Klog,
            old(display).color,
        ),
{
    format(fmt, args, Sink::Klog, display, klog);
}

/// Puts out formatted text to the screen and into the kernel log.
pub fn write_kernel(fmt: &str, args: &[PrintArg], display: &mut Display, klog: &mut Klog)
    requires
        old(display).wf(),
        old(klog).wf(),
    ensures
        final(display).wf(),
        final(klog).wf(),
        final(display).color == old(display).color,
        out_of(final(display), final(klog)) == out_of(old(display), old(klog)).sent(
            format_ops(fmt.spec_bytes(), args@, 0, 0),
            Sink::Kernel,
            old(display).color,
        ),
{
    format(fmt, args, Sink::Kernel, display, klog);
}

} // verus!
