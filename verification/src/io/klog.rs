//! The kernel log: a ring of the bytes that the kernel printed last.
//!
//! The ring holds as many bytes as fit on the screen above the input line.
//! Once it is full, each new byte takes the place of the oldest.

use vstd::prelude::*;
use vstd::string::StringSliceAdditionalSpecFns;
use crate::io::display::Display;
use crate::io::display::put_char;

verus! {

/// Bytes in the ring: 24 rows of 80 columns.
pub const KLOG_BUF_SIZE: usize = 1920;

/// The log as plain values.
pub struct KlogView {
    /// The bytes of the ring.
    pub ring: Seq<u8>,
    /// Where the next byte goes.
    pub head: int,
    /// How many bytes were logged since the log was cleared, as far as a
    /// machine word counts.
    pub total: int,
}

impl KlogView {
    /// The ring has its size and the write position lies in it.
    pub open spec fn wf(self) -> bool {
        &&& self.ring.len() == KLOG_BUF_SIZE
        &&& 0 <= self.head < KLOG_BUF_SIZE
        &&& 0 <= self.total <= usize::MAX
    }

    /// The log after the byte `c` has been logged.
    pub open spec fn logged(self, c: u8) -> KlogView {
        KlogView {
            ring: self.ring.update(self.head, c),
            head: if self.head + 1 >= KLOG_BUF_SIZE {
                0
            } else {
                self.head + 1
            },
            total: if self.total < usize::MAX {
                self.total + 1
            } else {
                self.total
            },
        }
    }

    /// The log after the first `n` bytes of `s` have been logged.
    pub open spec fn logged_all(self, s: Seq<u8>, n: int) -> KlogView
        decreases n,
    {
        if n <= 0 {
            self
        } else {
            self.logged_all(s, n - 1).logged(s[n - 1])
        }
    }

    /// What a dump shows.  While no more bytes were logged than the ring
    /// holds, these are the bytes before the write position.  After that it
    /// is the whole ring, oldest byte first.
    pub open spec fn dump(self) -> Seq<u8> {
        if self.total <= KLOG_BUF_SIZE {
            self.ring.subrange(0, self.head)
        } else {
            self.ring.subrange(self.head, KLOG_BUF_SIZE as int) + self.ring.subrange(0, self.head)
        }
    }

    /// The log after it has been cleared.
    pub open spec fn cleared(self) -> KlogView {
        KlogView { ring: self.ring, head: 0, total: 0 }
    }
}

/// While the ring has room for more than one byte, a dump shows every byte
/// that was logged since the log was cleared, in order.
pub proof fn lemma_log_appends(v: KlogView, c: u8)
    requires
        v.wf(),
        v.total == v.head,
        v.head + 1 < KLOG_BUF_SIZE,
    ensures
        v.logged(c).wf(),
        v.logged(c).total == v.logged(c).head,
        v.logged(c).dump() == v.dump().push(c),
{
    assert(v.logged(c).dump() =~= v.dump().push(c));
}

/// Once more bytes were logged than the ring holds, each new byte pushes
/// the oldest out of the dump.
pub proof fn lemma_log_rotates(v: KlogView, c: u8)
    requires
        v.wf(),
        v.total > KLOG_BUF_SIZE,
    ensures
        v.logged(c).wf(),
        v.logged(c).dump() == v.dump().skip(1).push(c),
{
    assert(v.logged(c).dump() =~= v.dump().skip(1).push(c));
}

/// A log that was cleared shows, after fewer bytes than the ring holds were
/// logged, just these bytes.
pub proof fn lemma_log_since_clear(v: KlogView, s: Seq<u8>, n: int)
    requires
        v.wf(),
        0 <= n <= s.len(),
        n < KLOG_BUF_SIZE,
    ensures
        v.cleared().logged_all(s, n).wf(),
        v.cleared().logged_all(s, n).head == n,
        v.cleared().logged_all(s, n).total == n,
        v.cleared().logged_all(s, n).dump() == s.subrange(0, n),
    decreases n,
{
    if n > 0 {
        lemma_log_since_clear(v, s, n - 1);
        lemma_log_appends(v.cleared().logged_all(s, n - 1), s[n - 1]);
        assert(s.subrange(0, n - 1).push(s[n - 1]) =~= s.subrange(0, n));
    } else {
        assert(v.cleared().dump() =~= s.subrange(0, 0));
    }
}

/// The kernel log.
pub struct Klog {
    buf: Vec<u8>,
    head: usize,
    total: usize,
}

impl Klog {
    /// The log as plain values.
    pub closed spec fn view(&self) -> KlogView {
        KlogView { ring: self.buf@, head: self.head as int, total: self.total as int }
    }

    /// The ring has its size and the write position lies in it.
    pub open spec fn wf(&self) -> bool {
        self@.wf()
    }

    /// An empty log.
    pub fn new() -> (k: Klog)
        ensures
            k.wf(),
            k@.head == 0,
            k@.total == 0,
            k@.dump().len() == 0,
    {
        Klog { buf: vec![0u8; KLOG_BUF_SIZE], head: 0, total: 0 }
    }
}

/// Logs the byte `c`.
pub fn log_byte(klog: &mut Klog, c: u8)
    requires
        old(klog).wf(),
    ensures
        final(klog).wf(),
        final(klog)@ == old(klog)@.logged(c),
{
    klog.buf.set(klog.head, c);
    klog.head += 1;
    if klog.head >= KLOG_BUF_SIZE {
        klog.head = 0;
    }
    if klog.total < usize::MAX {
        klog.total += 1;
    }
}

/// Logs the bytes of `bytes`, in order.
pub fn log_bytes(klog: &mut Klog, bytes: &[u8])
    requires
        old(klog).wf(),
    ensures
        final(klog).wf(),
        final(klog)@ == old(klog)@.logged_all(bytes@, bytes@.len() as int),
{
    let mut i: usize = 0;
    while i < bytes.len()
        invariant
            i <= bytes@.len(),
            klog.wf(),
            klog@ == old(klog)@.logged_all(bytes@, i as int),
        decreases bytes@.len() - i,
    {
        log_byte(klog, bytes[i]);
        i += 1;
    }
}

/// Logs the bytes of the string `s`, in order.
pub fn log_str(klog: &mut Klog, s: &str)
    requires
        old(klog).wf(),
    ensures
        final(klog).wf(),
        final(klog)@ == old(klog)@.logged_all(s.spec_bytes(), s.spec_bytes().len() as int),
{
    log_bytes(klog, s.as_bytes());
}

/// The bytes that a dump shows, oldest first.
pub fn contents(klog: &Klog) -> (r: Vec<u8>)
    requires
        klog.wf(),
    ensures
        r@ == klog@.dump(),
{
    let mut out: Vec<u8> = Vec::new();
    if klog.total <= KLOG_BUF_SIZE {
        let mut i: usize = 0;
        while i < klog.head
            invariant
                i <= klog.head,
                klog.wf(),
                out@ == klog@.ring.subrange(0, i as int),
            decreases klog.head - i,
        {
            out.push(klog.buf[i]);
            i += 1;
            proof {
                assert(out@ =~= klog@.ring.subrange(0, i as int));
            }
        }
    } else {
        let mut i: usize = 0;
        while i < KLOG_BUF_SIZE
            invariant
                i <= KLOG_BUF_SIZE,
                klog.wf(),
                out@.len() == i,
                forall|k: int| 0 <= k < i ==> out@[k] == klog@.ring[(klog@.head + k) % (KLOG_BUF_SIZE as int)],
            decreases KLOG_BUF_SIZE - i,
        {
            let idx: usize = (klog.head + i) % KLOG_BUF_SIZE;
            out.push(klog.buf[idx]);
            i += 1;
        }
        proof {
            assert(out@ =~= klog@.dump());
        }
    }
    out
}

/// Empties the log.
pub fn clear(klog: &mut Klog)
    requires
        old(klog).wf(),
    ensures
        final(klog).wf(),
        final(klog)@ == old(klog)@.cleared(),
        final(klog)@.dump().len() == 0,
{
    klog.head = 0;
    klog.total = 0;
}

/// Draws the bytes of the log on the screen, oldest first, each as it is.
pub fn dump(klog: &Klog, display: &mut Display)
    requires
        klog.wf(),
        old(display).wf(),
    ensures
        final(display).wf(),
        final(display).color == old(display).color,
        final(display).vga@ == old(display).vga@.glyphs(
            klog@.dump(),
            klog@.dump().len() as int,
            old(display).color,
        ),
{
    let bytes: Vec<u8> = contents(klog);
    let mut i: usize = 0;
    while i < bytes.len()
        invariant
            i <= bytes@.len(),
            display.wf(),
            display.color == old(display).color,
            display.vga@ == old(display).vga@.glyphs(bytes@, i as int, old(display).color),
        decreases bytes@.len() - i,
    {
        put_char(display, bytes[i]);
        i += 1;
    }
}

} // verus!
