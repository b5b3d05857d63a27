//! The history of commands: the last five lines that were entered, for
//! recall with the arrow keys.

use vstd::prelude::*;

verus! {

/// How many commands are kept.
pub const MAX_HISTORY: usize = 5;

/// How many bytes of a command are kept.
pub const MAX_CMD_LEN: usize = 78;

/// One remembered command.
pub struct HistoryEntry {
    buf: [u8; 78],
    len: usize,
}

impl HistoryEntry {
    /// The bytes of the command.
    pub closed spec fn bytes(&self) -> Seq<u8> {
        self.buf@.subrange(0, self.len as int)
    }

    /// All bytes of the entry's buffer, those of the command first.
    pub closed spec fn raw(&self) -> Seq<u8> {
        self.buf@
    }

    /// The command fits in the entry.
    pub closed spec fn wf(&self) -> bool {
        self.len <= MAX_CMD_LEN
    }

    /// An entry that holds the empty command, with a buffer of zero bytes.
    pub fn empty() -> (e: HistoryEntry)
        ensures
            e.wf(),
            e.bytes() == Seq::<u8>::empty(),
            e.raw().len() == MAX_CMD_LEN,
            forall|k: int| 0 <= k < MAX_CMD_LEN ==> e.raw()[k] == 0,
    {
        let e = HistoryEntry { buf: [0u8; 78], len: 0 };
        proof {
            assert(e.bytes() =~= Seq::<u8>::empty());
        }
        e
    }
}

/// The history as plain values.
pub struct HistoryView {
    /// The remembered commands, the newest first.
    pub items: Seq<Seq<u8>>,
    /// How far the user has gone back: 0 is the line under edit, 1 the
    /// newest command.
    pub browse: int,
}

/// The first `MAX_CMD_LEN` bytes of `cmd`.
pub open spec fn kept(cmd: Seq<u8>) -> Seq<u8> {
    if cmd.len() > MAX_CMD_LEN {
        cmd.subrange(0, MAX_CMD_LEN as int)
    } else {
        cmd
    }
}

impl HistoryView {
    /// The history after the command `cmd` has been entered.  An empty
    /// command is not remembered, nor is one that equals the newest; the
    /// oldest of more than five is forgotten.  Browsing starts anew unless
    /// the command is empty.
    pub open spec fn pushed(self, cmd: Seq<u8>) -> HistoryView {
        if cmd.len() == 0 {
            self
        } else if self.items.len() > 0 && self.items[0] == cmd {
            HistoryView { items: self.items, browse: 0 }
        } else if self.items.len() >= MAX_HISTORY {
            HistoryView { items: seq![kept(cmd)] + self.items.subrange(0, MAX_HISTORY - 1), browse: 0 }
        } else {
            HistoryView { items: seq![kept(cmd)] + self.items, browse: 0 }
        }
    }

    /// One can go back further.
    pub open spec fn can_go_up(self) -> bool {
        self.browse < self.items.len()
    }
}

/// The history of commands.
pub struct History {
    entries: Vec<HistoryEntry>,
    count: usize,
    head: usize,
    browse_index: usize,
}

impl History {
    /// The slot of the command that is `k` steps back from the newest.
    pub closed spec fn slot(&self, k: int) -> int {
        (self.head + MAX_HISTORY - 1 - k) % (MAX_HISTORY as int)
    }

    /// The history as plain values.
    pub closed spec fn view(&self) -> HistoryView {
        HistoryView {
            items: Seq::new(self.count as nat, |k: int| self.entries@[self.slot(k)].bytes()),
            browse: self.browse_index as int,
        }
    }

    /// The ring is consistent.
    pub closed spec fn wf(&self) -> bool {
        &&& self.entries@.len() == MAX_HISTORY
        &&& forall|i: int| 0 <= i < MAX_HISTORY ==> (#[trigger] self.entries@[i]).wf()
        &&& self.count <= MAX_HISTORY
        &&& self.head < MAX_HISTORY
        &&& self.browse_index <= self.count
    }

    /// What well-formedness says in terms of the view.
    pub proof fn lemma_wf(&self)
        requires
            self.wf(),
        ensures
            self@.items.len() <= MAX_HISTORY,
            0 <= self@.browse <= self@.items.len(),
            forall|k: int| 0 <= k < self@.items.len() ==> (#[trigger] self@.items[k]).len() <= MAX_CMD_LEN,
    {
        assert forall|k: int| 0 <= k < self@.items.len() implies (#[trigger] self@.items[k]).len()
            <= MAX_CMD_LEN by {
            assert(self.entries@[self.slot(k)].wf());
        }
    }

    /// An empty history.
    pub fn new() -> (h: History)
        ensures
            h.wf(),
            h@.items.len() == 0,
            h@.browse == 0,
    {
        let mut entries: Vec<HistoryEntry> = Vec::new();
        let mut i: usize = 0;
        while i < MAX_HISTORY
            invariant
                i <= MAX_HISTORY,
                entries@.len() == i,
                forall|k: int| 0 <= k < i ==> (#[trigger] entries@[k]).wf(),
            decreases MAX_HISTORY - i,
        {
            entries.push(HistoryEntry::empty());
            i += 1;
        }
        History { entries, count: 0, head: 0, browse_index: 0 }
    }

    /// Whether the newest command equals `cmd`.
    fn newest_is(&self, cmd: &[u8]) -> (r: bool)
        requires
            self.wf(),
            self.count > 0,
        ensures
            r == (self@.items[0] == cmd@),
    {
        let last: usize = (self.head + MAX_HISTORY - 1) % MAX_HISTORY;
        let entry: &HistoryEntry = &self.entries[last];
        assert(entry.wf());
        assert(last == self.slot(0));
        assert(entry.bytes() == self@.items[0]);
        if entry.len != cmd.len() {
            return false;
        }
        let mut i: usize = 0;
        while i < cmd.len()
            invariant
                i <= cmd@.len(),
                cmd@.len() == entry.len,
                entry.len <= MAX_CMD_LEN,
                entry.bytes() == self@.items[0],
                forall|k: int| 0 <= k < i ==> entry.buf@[k] == cmd@[k],
            decreases cmd@.len() - i,
        {
            if entry.buf[i] != cmd[i] {
                proof {
                    assert(entry.bytes()[i as int] != cmd@[i as int]);
                }
                return false;
            }
            i += 1;
        }
        proof {
            assert(entry.bytes() =~= cmd@);
        }
        true
    }
}

/// Remembers the command `cmd`.
pub fn push(history: &mut History, cmd: &[u8])
    requires
        old(history).wf(),
    ensures
        final(history).wf(),
        final(history)@ == old(history)@.pushed(cmd@),
{
    if cmd.len() == 0 {
        return ;
    }
    if history.count > 0 {
        if history.newest_is(cmd) {
            history.browse_index = 0;
            proof {
                assert(history@.items =~= old(history)@.items);
            }
            return ;
        }
    }
    let len: usize = if cmd.len() > MAX_CMD_LEN {
        MAX_CMD_LEN
    } else {
        cmd.len()
    };
    let at: usize = history.head;
    let mut entry: HistoryEntry = HistoryEntry::empty();
    let mut i: usize = 0;
    while i < len
        invariant
            i <= len <= MAX_CMD_LEN,
            len <= cmd@.len(),
            forall|k: int| 0 <= k < i ==> entry.buf@[k] == cmd@[k],
        decreases len - i,
    {
        entry.buf[i] = cmd[i];
        i += 1;
    }
    entry.len = len;
    proof {
        assert(entry.bytes() =~= kept(cmd@));
    }
    history.entries.set(at, entry);
    history.head = (history.head + 1) % MAX_HISTORY;
    if history.count < MAX_HISTORY {
        history.count += 1;
    }
    history.browse_index = 0;
    proof {
        let before = old(history)@.items;
        let after = history@.items;
        let want = old(history)@.pushed(cmd@).items;
        assert(after.len() == want.len());
        assert forall|k: int| 0 <= k < after.len() implies after[k] == want[k] by {
            if k > 0 {
                assert(history.slot(k) == old(history).slot(k - 1));
                assert(history.slot(k) != at);
                assert(before[k - 1] == old(history).entries@[old(history).slot(k - 1)].bytes());
            } else {
                assert(history.slot(0) == at);
            }
        }
        assert(after =~= want);
        assert forall|i: int| 0 <= i < MAX_HISTORY implies (#[trigger] history.entries@[i]).wf() by {
            if i != at {
                assert(old(history).entries@[i].wf());
            }
        }
    }
}

/// Goes one command back and returns it, or `None` when there is no older
/// one.
pub fn up(history: &mut History) -> (r: Option<&[u8]>)
    requires
        old(history).wf(),
    ensures
        final(history).wf(),
        final(history)@.items == old(history)@.items,
        if old(history)@.can_go_up() {
            &&& r is Some
            &&& r.unwrap()@ == old(history)@.items[old(history)@.browse]
            &&& final(history)@.browse == old(history)@.browse + 1
        } else {
            &&& r is None
            &&& final(history)@.browse == old(history)@.browse
        },
{
    if history.count == 0 || history.browse_index >= history.count {
        return None;
    }
    history.browse_index += 1;
    let idx: usize = (history.head + MAX_HISTORY - history.browse_index) % MAX_HISTORY;
    proof {
        assert(idx == history.slot(history.browse_index - 1));
        assert(history.entries@[idx as int].wf());
        assert(history@.items =~= old(history)@.items);
    }
    let len: usize = history.entries[idx].len;
    Some(&history.entries[idx].buf[0..len])
}

/// Goes one command forward and returns it; from the newest command it goes
/// to the line under edit, which is empty.  `None` when the user has not
/// gone back.
pub fn down(history: &mut History) -> (r: Option<&[u8]>)
    requires
        old(history).wf(),
    ensures
        final(history).wf(),
        final(history)@.items == old(history)@.items,
        if old(history)@.browse == 0 {
            &&& r is None
            &&& final(history)@.browse == 0
        } else {
            &&& r is Some
            &&& final(history)@.browse == old(history)@.browse - 1
            &&& r.unwrap()@ == if old(history)@.browse == 1 {
                Seq::<u8>::empty()
            } else {
                old(history)@.items[old(history)@.browse - 2]
            }
        },
{
    if history.browse_index == 0 {
        return None;
    }
    history.browse_index -= 1;
    proof {
        assert(history@.items =~= old(history)@.items);
    }
    let idx: usize = (history.head + MAX_HISTORY - history.browse_index) % MAX_HISTORY;
    if history.browse_index == 0 {
        return Some(&history.entries[idx].buf[0..0]);
    }
    proof {
        assert(idx == history.slot(history.browse_index - 1));
        assert(history.entries@[idx as int].wf());
    }
    let len: usize = history.entries[idx].len;
    Some(&history.entries[idx].buf[0..len])
}

/// Ends browsing: the next step back leads to the newest command.
pub fn reset_browse(history: &mut History)
    requires
        old(history).wf(),
    ensures
        final(history).wf(),
        final(history)@ == (HistoryView { items: old(history)@.items, browse: 0 }),
{
    history.browse_index = 0;
    proof {
        assert(history@.items =~= old(history)@.items);
    }
}

} // verus!
