//! Scrollback: the rows that have scrolled off the top of the screen, kept
//! so that the user can look at them again.
//!
//! The last 200 rows are kept.  While the user looks at old rows, the live
//! screen is put aside and shown again when the user scrolls back down.

use vstd::prelude::*;
use crate::drivers::vga::Cell;
use crate::drivers::vga::DEFAULT_COLOR;
use crate::drivers::vga::VGA_CELLS;
use crate::drivers::vga::VGA_HEIGHT;
use crate::drivers::vga::VGA_WIDTH;
use crate::drivers::vga::Vga;
use crate::drivers::vga::VgaView;
use crate::drivers::vga::blank_cell;
use crate::drivers::vga::draw_char_at;
use crate::drivers::vga::update_cursor;
use crate::io::cursor::Cursor;
use crate::io::cursor::get_pos;

verus! {

/// How many rows are kept.
pub const SCROLLBACK_LINES: usize = 200;

/// Cells in the ring of kept rows.
pub const SCROLLBACK_CELLS: usize = 16000;

impl Cell {
    /// A space in the default colour.
    pub fn blank() -> (c: Cell)
        ensures
            c == blank_cell(),
    {
        Cell { ch: 32, color: DEFAULT_COLOR }
    }
}

/// The scrollback as plain values.
pub struct ScrollbackView {
    /// The kept rows, the newest first; each has 80 cells.
    pub lines: Seq<Seq<Cell>>,
    /// How many rows the user has scrolled back; 0 is the live screen.
    pub offset: int,
    /// The live screen as it was put aside.
    pub live: Seq<Cell>,
}

impl ScrollbackView {
    /// The scrollback after the row `row` has scrolled off the screen.  The
    /// view of a user who looks at old rows stays on the same rows.
    pub open spec fn saved(self, row: Seq<Cell>) -> ScrollbackView {
        let lines = if self.lines.len() >= SCROLLBACK_LINES {
            seq![row] + self.lines.subrange(0, SCROLLBACK_LINES - 1)
        } else {
            seq![row] + self.lines
        };
        ScrollbackView {
            lines,
            offset: if 0 < self.offset < lines.len() {
                self.offset + 1
            } else {
                self.offset
            },
            live: self.live,
        }
    }

    /// How far back the user is after scrolling up by `n` rows: no further
    /// than rows are kept.
    pub open spec fn offset_up(self, n: int) -> int {
        if self.lines.len() == 0 {
            self.offset
        } else if self.offset + n > self.lines.len() {
            self.lines.len() as int
        } else {
            self.offset + n
        }
    }

    /// How far back the user is after scrolling down by `n` rows.
    pub open spec fn offset_down(self, n: int) -> int {
        if n >= self.offset {
            0
        } else {
            self.offset - n
        }
    }

    /// The cells of the screen while the user is `offset` rows back: the
    /// bottom row shows the row that was kept `offset - 1` rows ago, each
    /// row above it an older one, and rows for which nothing is kept are
    /// blank.
    pub open spec fn page(self, offset: int) -> Seq<Cell> {
        Seq::new(
            VGA_CELLS as nat,
            |i: int|
                {
                    let back = offset - 1 + (VGA_HEIGHT - 1 - i / (VGA_WIDTH as int));
                    if 0 <= back < self.lines.len() {
                        self.lines[back][i % (VGA_WIDTH as int)]
                    } else {
                        blank_cell()
                    }
                },
        )
    }
}

/// The top row of the screen.
pub open spec fn top_row(v: VgaView) -> Seq<Cell> {
    v.cells.subrange(0, VGA_WIDTH as int)
}

/// The rows that have scrolled off the screen.
pub struct Scrollback {
    buffer: Vec<Cell>,
    head: usize,
    count: usize,
    scroll_offset: usize,
    live_screen: Vec<Cell>,
}

impl Scrollback {
    /// The slot of the row that was kept `k` rows ago.
    pub closed spec fn slot(&self, k: int) -> int {
        (self.head + SCROLLBACK_LINES - 1 - k) % (SCROLLBACK_LINES as int)
    }

    /// The scrollback as plain values.
    pub closed spec fn view(&self) -> ScrollbackView {
        ScrollbackView {
            lines: Seq::new(
                self.count as nat,
                |k: int| self.buffer@.subrange(self.slot(k) * VGA_WIDTH, self.slot(k) * VGA_WIDTH + VGA_WIDTH),
            ),
            offset: self.scroll_offset as int,
            live: self.live_screen@,
        }
    }

    /// The ring is consistent.
    pub closed spec fn wf(&self) -> bool {
        &&& self.buffer@.len() == SCROLLBACK_CELLS
        &&& self.live_screen@.len() == VGA_CELLS
        &&& self.head < SCROLLBACK_LINES
        &&& self.count <= SCROLLBACK_LINES
        &&& self.scroll_offset <= self.count
    }

    /// What well-formedness says in terms of the view.
    pub proof fn lemma_wf(&self)
        requires
            self.wf(),
        ensures
            self@.lines.len() <= SCROLLBACK_LINES,
            0 <= self@.offset <= self@.lines.len(),
            self@.live.len() == VGA_CELLS,
            forall|k: int| 0 <= k < self@.lines.len() ==> (#[trigger] self@.lines[k]).len() == VGA_WIDTH,
    {
    }

    /// An empty scrollback.
    pub fn new() -> (sb: Scrollback)
        ensures
            sb.wf(),
            sb@.lines.len() == 0,
            sb@.offset == 0,
            forall|i: int| 0 <= i < VGA_CELLS ==> sb@.live[i] == blank_cell(),
    {
        Scrollback {
            buffer: vec![Cell { ch: 32, color: DEFAULT_COLOR }; SCROLLBACK_CELLS],
            head: 0,
            count: 0,
            scroll_offset: 0,
            live_screen: vec![Cell { ch: 32, color: DEFAULT_COLOR }; VGA_CELLS],
        }
    }
}

/// Keeps the top row of the screen, which is about to scroll off.
pub fn save_top_line(sb: &mut Scrollback, vga: &Vga)
    requires
        old(sb).wf(),
        vga.wf(),
    ensures
        final(sb).wf(),
        final(sb)@ == old(sb)@.saved(top_row(vga@)),
{
    let at: usize = sb.head;
    let mut col: usize = 0;
    while col < VGA_WIDTH
        invariant
            col <= VGA_WIDTH,
            vga.wf(),
            at == old(sb).head,
            at < SCROLLBACK_LINES,
            sb.head == old(sb).head,
            sb.count == old(sb).count,
            sb.scroll_offset == old(sb).scroll_offset,
            sb.live_screen == old(sb).live_screen,
            sb.buffer@.len() == SCROLLBACK_CELLS,
            forall|i: int| 0 <= i < col ==> sb.buffer@[at * VGA_WIDTH + i] == vga@.cells[i],
            forall|i: int|
                0 <= i < SCROLLBACK_CELLS && !(at * VGA_WIDTH <= i < at * VGA_WIDTH + VGA_WIDTH) ==> sb.buffer@[i]
                    == old(sb).buffer@[i],
        decreases VGA_WIDTH - col,
    {
        let cell: Cell = vga.cell(0, col);
        sb.buffer.set(at * VGA_WIDTH + col, cell);
        col += 1;
    }
    sb.head = (sb.head + 1) % SCROLLBACK_LINES;
    if sb.count < SCROLLBACK_LINES {
        sb.count += 1;
    }
    if sb.scroll_offset > 0 && sb.scroll_offset < sb.count {
        sb.scroll_offset += 1;
    }
    proof {
        let before = old(sb)@.lines;
        let after = sb@.lines;
        let want = old(sb)@.saved(top_row(vga@)).lines;
        assert(after.len() == want.len());
        assert forall|k: int| 0 <= k < after.len() implies after[k] == want[k] by {
            if k > 0 {
                assert(sb.slot(k) == old(sb).slot(k - 1));
                assert(sb.slot(k) != at);
                assert(after[k] =~= before[k - 1]);
            } else {
                assert(sb.slot(0) == at);
                assert(after[0] =~= top_row(vga@));
            }
        }
        assert(after =~= want);
    }
}

/// Fills the screen with the page that the user has scrolled back to, and
/// hides the hardware cursor.
fn redraw(sb: &Scrollback, vga: &mut Vga)
    requires
        sb.wf(),
        sb@.offset >= 1,
        old(vga).wf(),
    ensures
        final(vga).wf(),
        final(vga)@ == (VgaView { cells: sb@.page(sb@.offset), ..old(vga)@ }),
        final(vga).hw_pos() == VGA_HEIGHT * VGA_WIDTH + VGA_WIDTH,
{
    let mut row: usize = 0;
    while row < VGA_HEIGHT
        invariant
            row <= VGA_HEIGHT,
            sb.wf(),
            sb@.offset >= 1,
            vga.wf(),
            vga@.x == old(vga)@.x,
            vga@.y == old(vga)@.y,
            forall|i: int| 0 <= i < row * VGA_WIDTH ==> vga@.cells[i] == sb@.page(sb@.offset)[i],
        decreases VGA_HEIGHT - row,
    {
        let lines_from_bottom: usize = VGA_HEIGHT - 1 - row;
        let sb_offset: usize = sb.scroll_offset - 1 + lines_from_bottom;
        let known: bool = sb_offset < sb.count;
        let idx: usize = if known {
            (sb.head + SCROLLBACK_LINES - 1 - sb_offset) % SCROLLBACK_LINES
        } else {
            0
        };
        let mut col: usize = 0;
        while col < VGA_WIDTH
            invariant
                col <= VGA_WIDTH,
                row < VGA_HEIGHT,
                sb.wf(),
                sb@.offset >= 1,
                vga.wf(),
                vga@.x == old(vga)@.x,
                vga@.y == old(vga)@.y,
                sb_offset == sb@.offset - 1 + (VGA_HEIGHT - 1 - row),
                known == (sb_offset < sb.count),
                known ==> idx == sb.slot(sb_offset as int),
                idx < SCROLLBACK_LINES,
                forall|i: int| 0 <= i < row * VGA_WIDTH + col ==> vga@.cells[i] == sb@.page(sb@.offset)[i],
            decreases VGA_WIDTH - col,
        {
            let cell: Cell = if known {
                sb.buffer[idx * VGA_WIDTH + col]
            } else {
                Cell::blank()
            };
            proof {
                let i = row * VGA_WIDTH + col;
                assert(i / (VGA_WIDTH as int) == row && i % (VGA_WIDTH as int) == col) by (nonlinear_arith)
                    requires
                        i == row * 80 + col,
                        0 <= col < 80,
                        0 <= row,
                        VGA_WIDTH == 80,
                ;
                if known {
                    assert(sb@.lines[sb_offset as int][col as int] == sb.buffer@[idx * VGA_WIDTH + col]);
                }
                assert(sb@.page(sb@.offset)[i] == cell);
            }
            draw_char_at(vga, col, row, cell.ch, cell.color);
            col += 1;
        }
        row += 1;
    }
    update_cursor(vga, VGA_WIDTH, VGA_HEIGHT);
    proof {
        assert(vga@.cells =~= sb@.page(sb@.offset));
    }
}

/// Puts the live screen back as it was put aside, and shows the hardware
/// cursor where `cursor` is.
fn restore_live(sb: &Scrollback, vga: &mut Vga, cursor: &Cursor)
    requires
        sb.wf(),
        old(vga).wf(),
    ensures
        final(vga).wf(),
        final(vga)@ == (VgaView { cells: sb@.live, ..old(vga)@ }),
        crate::io::cursor::synced(final(vga), cursor),
{
    let mut i: usize = 0;
    while i < VGA_CELLS
        invariant
            i <= VGA_CELLS,
            sb.wf(),
            vga.wf(),
            vga@.x == old(vga)@.x,
            vga@.y == old(vga)@.y,
            forall|k: int| 0 <= k < i ==> vga@.cells[k] == sb@.live[k],
        decreases VGA_CELLS - i,
    {
        let cell: Cell = sb.live_screen[i];
        let row: usize = i / VGA_WIDTH;
        let col: usize = i % VGA_WIDTH;
        draw_char_at(vga, col, row, cell.ch, cell.color);
        i += 1;
    }
    let (cx, cy) = get_pos(cursor);
    update_cursor(vga, cx, cy);
    proof {
        assert(vga@.cells =~= sb@.live);
    }
}

/// Scrolls back by `lines` rows, as far as rows are kept, and says whether
/// the view has changed.
pub fn scroll_up(sb: &mut Scrollback, vga: &mut Vga, lines: usize) -> (r: bool)
    requires
        old(sb).wf(),
        old(vga).wf(),
    ensures
        final(sb).wf(),
        final(vga).wf(),
        final(sb)@ == (ScrollbackView { offset: old(sb)@.offset_up(lines as int), ..old(sb)@ }),
        r == (final(sb)@.offset != old(sb)@.offset),
        if r {
            final(vga)@ == (VgaView { cells: final(sb)@.page(final(sb)@.offset), ..old(vga)@ })
        } else {
            *final(vga) == *old(vga)
        },
{
    let max: usize = sb.count;
    if max == 0 {
        return false;
    }
    let old_offset: usize = sb.scroll_offset;
    if lines > max - sb.scroll_offset {
        sb.scroll_offset = max;
    } else {
        sb.scroll_offset = sb.scroll_offset + lines;
    }
    proof {
        assert(sb@.lines =~= old(sb)@.lines);
    }
    if sb.scroll_offset != old_offset {
        redraw(sb, vga);
        true
    } else {
        false
    }
}

/// Scrolls forward by `lines` rows and says whether the view has changed.
/// At the bottom the live screen is shown again.
pub fn scroll_down(sb: &mut Scrollback, vga: &mut Vga, cursor: &Cursor, lines: usize) -> (r: bool)
    requires
        old(sb).wf(),
        old(vga).wf(),
    ensures
        final(sb).wf(),
        final(vga).wf(),
        final(sb)@ == (ScrollbackView { offset: old(sb)@.offset_down(lines as int), ..old(sb)@ }),
        r == (final(sb)@.offset != old(sb)@.offset),
        if !r {
            *final(vga) == *old(vga)
        } else if final(sb)@.offset == 0 {
            final(vga)@ == (VgaView { cells: final(sb)@.live, ..old(vga)@ })
        } else {
            final(vga)@ == (VgaView { cells: final(sb)@.page(final(sb)@.offset), ..old(vga)@ })
        },
{
    if sb.scroll_offset == 0 {
        proof {
            assert(sb@.lines =~= old(sb)@.lines);
        }
        return false;
    }
    let old_offset: usize = sb.scroll_offset;
    if lines >= sb.scroll_offset {
        sb.scroll_offset = 0;
    } else {
        sb.scroll_offset -= lines;
    }
    proof {
        assert(sb@.lines =~= old(sb)@.lines);
    }
    if sb.scroll_offset != old_offset {
        if sb.scroll_offset == 0 {
            restore_live(sb, vga, cursor);
        } else {
            redraw(sb, vga);
        }
        true
    } else {
        false
    }
}

/// Whether the user looks at old rows.
pub fn is_scrolled_back(sb: &Scrollback) -> (r: bool)
    ensures
        r == (sb@.offset > 0),
{
    sb.scroll_offset > 0
}

/// Puts the screen aside as the live screen.
pub fn save_live_screen(sb: &mut Scrollback, vga: &Vga)
    requires
        old(sb).wf(),
        vga.wf(),
    ensures
        final(sb).wf(),
        final(sb)@ == (ScrollbackView { live: vga@.cells, ..old(sb)@ }),
{
    let mut row: usize = 0;
    while row < VGA_HEIGHT
        invariant
            row <= VGA_HEIGHT,
            vga.wf(),
            sb.wf(),
            sb.buffer == old(sb).buffer,
            sb.head == old(sb).head,
            sb.count == old(sb).count,
            sb.scroll_offset == old(sb).scroll_offset,
            forall|i: int| 0 <= i < row * VGA_WIDTH ==> sb.live_screen@[i] == vga@.cells[i],
        decreases VGA_HEIGHT - row,
    {
        let mut col: usize = 0;
        while col < VGA_WIDTH
            invariant
                col <= VGA_WIDTH,
                row < VGA_HEIGHT,
                vga.wf(),
                sb.wf(),
                sb.buffer == old(sb).buffer,
                sb.head == old(sb).head,
                sb.count == old(sb).count,
                sb.scroll_offset == old(sb).scroll_offset,
                forall|i: int| 0 <= i < row * VGA_WIDTH + col ==> sb.live_screen@[i] == vga@.cells[i],
            decreases VGA_WIDTH - col,
        {
            let cell: Cell = vga.cell(row, col);
            sb.live_screen.set(row * VGA_WIDTH + col, cell);
            col += 1;
        }
        row += 1;
    }
    proof {
        assert(sb@.live =~= vga@.cells);
        assert(sb@.lines =~= old(sb)@.lines);
    }
}

} // verus!
