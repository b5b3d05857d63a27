//! Two-level page tables.
//!
//! A 32-bit linear address splits into a directory index (bits 31..22), a
//! table index (bits 21..12) and an offset in the page (bits 11..0).  The
//! directory holds 1024 entries, each of which may refer to a table of 1024
//! entries; each table entry may refer to one physical frame.  A table, once
//! installed, stays for good.

use vstd::prelude::*;
use super::MemError;
use super::frame::FrameAllocator;
use super::frame::alloc_frame;
use super::frame::count_used;
use super::frame::first_fit;
use super::frame::lemma_count_bounds;
use super::frame::lemma_count_full;
use super::frame::lemma_count_update;
use super::frame::lemma_lowest_free;

verus! {

/// The entry refers to something that is there.
pub const PAGE_PRESENT: u32 = 0x001;

/// The page may be written.
pub const PAGE_WRITABLE: u32 = 0x002;

/// The page may be reached from user mode.
pub const PAGE_USER: u32 = 0x004;

/// Writes go through the cache.
pub const PAGE_WRITE_THROUGH: u32 = 0x008;

/// The page is not cached.
pub const PAGE_CACHE_DISABLE: u32 = 0x010;

/// The processor has read the page.
pub const PAGE_ACCESSED: u32 = 0x020;

/// The processor has written the page.
pub const PAGE_DIRTY: u32 = 0x040;

/// The directory entry maps one page of 4 MiB.
pub const PAGE_SIZE_4MB: u32 = 0x080;

/// The translation survives a switch of address space.
pub const PAGE_GLOBAL: u32 = 0x100;

/// The bits of an entry that hold the frame address.
pub const ADDR_MASK: u32 = 0xFFFF_F000;

/// Entries in a directory and in a table.
pub const ENTRIES_PER_TABLE: usize = 1024;

/// An entry made of the frame address `addr` and the low twelve bits of `flags`.
pub open spec fn make_entry(addr: u32, flags: u32) -> u32 {
    (addr & ADDR_MASK) | (flags & 0xFFF)
}

/// The frame address held in `entry`.
pub open spec fn entry_addr_spec(entry: u32) -> u32 {
    entry & ADDR_MASK
}

/// `entry` has its present bit set.
pub open spec fn entry_present_spec(entry: u32) -> bool {
    entry & PAGE_PRESENT != 0
}

/// The directory index of `vaddr`.
pub open spec fn pd_index_spec(vaddr: u32) -> int {
    ((vaddr >> 22) & 0x3FF) as int
}

/// The table index of `vaddr`.
pub open spec fn pt_index_spec(vaddr: u32) -> int {
    ((vaddr >> 12) & 0x3FF) as int
}

/// The offset of `vaddr` in its page.
pub open spec fn page_offset_spec(vaddr: u32) -> int {
    (vaddr & 0xFFF) as int
}

/// The flags of the directory entry that is made for a table which is
/// installed while mapping a page with `flags`.
pub open spec fn table_flags(flags: u32) -> u32 {
    PAGE_PRESENT | PAGE_WRITABLE | (flags & PAGE_USER)
}

/// The entry that maps a page to the frame at `paddr` with `flags`.
pub open spec fn page_entry(paddr: u32, flags: u32) -> u32 {
    make_entry(paddr, flags | PAGE_PRESENT)
}

/// How many directory slots the identity mapping of `total_memory` bytes
/// takes: one for each 4 MiB begun, and 32 when no memory was detected.
pub open spec fn identity_slots(total_memory: u32) -> int {
    if total_memory > 0 {
        (total_memory + 0x3F_FFFF) / 0x40_0000
    } else {
        32
    }
}

/// Something that the processor or the memory has to be told after the page
/// tables have changed.  The caller takes these and carries them out.
#[derive(Clone, Copy, Debug, PartialEq, Eq, Structural)]
pub enum HwAction {
    /// Load the address of the directory into the page-table base register.
    LoadDirectory(u32),
    /// Set the paging bit of the processor.
    EnablePaging,
    /// Drop the cached translation of the page of this address.
    InvalidatePage(u32),
    /// Drop every cached translation.
    FlushAll,
    /// Fill the page at this address with zero bytes.
    ZeroPage(u32),
}

/// The page tables as plain values.
pub struct PagingView {
    /// Physical address of the directory; `None` before initialisation.
    pub root: Option<u32>,
    /// Whether the processor translates addresses through these tables.
    pub enabled: bool,
    /// The entries of the directory.
    pub dir: Seq<u32>,
    /// For each directory slot, the entries of its table.
    pub tables: Seq<Seq<u32>>,
    /// What the hardware has yet to be told, oldest first.
    pub pending: Seq<HwAction>,
}

impl PagingView {
    /// Directory and tables have their full size wherever they are in use.
    pub open spec fn wf(self) -> bool {
        self.root is Some ==> {
            &&& self.dir.len() == ENTRIES_PER_TABLE
            &&& self.tables.len() == ENTRIES_PER_TABLE
            &&& forall|i: int|
                0 <= i < ENTRIES_PER_TABLE && entry_present_spec(#[trigger] self.dir[i])
                    ==> self.tables[i].len() == ENTRIES_PER_TABLE
        }
    }

    /// The directory slot of `vaddr` refers to a table.
    pub open spec fn table_present(self, vaddr: u32) -> bool {
        self.root is Some && entry_present_spec(self.dir[pd_index_spec(vaddr)])
    }

    /// The table entry for `vaddr`.
    pub open spec fn pte(self, vaddr: u32) -> u32 {
        self.tables[pd_index_spec(vaddr)][pt_index_spec(vaddr)]
    }

    /// `vaddr` lies in a mapped page.
    pub open spec fn is_mapped(self, vaddr: u32) -> bool {
        self.table_present(vaddr) && entry_present_spec(self.pte(vaddr))
    }

    /// The frame that the page of `vaddr` is mapped to.
    pub open spec fn frame_of(self, vaddr: u32) -> Option<u32> {
        if self.is_mapped(vaddr) {
            Some(entry_addr_spec(self.pte(vaddr)))
        } else {
            None
        }
    }

    /// The physical address that `vaddr` translates to.
    pub open spec fn translate(self, vaddr: u32) -> Option<u32> {
        if self.is_mapped(vaddr) {
            Some((entry_addr_spec(self.pte(vaddr)) + page_offset_spec(vaddr)) as u32)
        } else {
            None
        }
    }

    /// The tables with `entry` written for the page of `vaddr`.
    pub open spec fn with_pte(self, vaddr: u32, entry: u32) -> Self {
        let pd = pd_index_spec(vaddr);
        PagingView { tables: self.tables.update(pd, self.tables[pd].update(pt_index_spec(vaddr), entry)), ..self }
    }

    /// The tables with an empty table at `table_addr` installed in the
    /// directory slot of `vaddr`.
    pub open spec fn with_table(self, vaddr: u32, table_addr: u32, flags: u32) -> Self {
        let pd = pd_index_spec(vaddr);
        PagingView {
            dir: self.dir.update(pd, make_entry(table_addr, table_flags(flags))),
            tables: self.tables.update(pd, Seq::new(ENTRIES_PER_TABLE as nat, |j: int| 0u32)),
            ..self
        }
    }

    /// The tables with `action` added to what the hardware has to be told.
    pub open spec fn told(self, action: HwAction) -> Self {
        PagingView { pending: self.pending.push(action), ..self }
    }

    /// The tables after the cached translation of the page of `vaddr` has
    /// been given up, which takes an action only while paging is on.
    pub open spec fn invalidated(self, vaddr: u32) -> Self {
        if self.enabled {
            self.told(HwAction::InvalidatePage(vaddr))
        } else {
            self
        }
    }

    /// The tables with the page of `vaddr` mapped to the frame at `paddr`,
    /// and its cached translation given up.
    pub open spec fn mapped(self, vaddr: u32, paddr: u32, flags: u32) -> Self {
        self.with_pte(vaddr, page_entry(paddr, flags)).invalidated(vaddr)
    }

    /// The tables with the page of `vaddr` no longer mapped, and its cached
    /// translation given up.  Nothing changes for a page that is not mapped.
    pub open spec fn unmapped(self, vaddr: u32) -> Self {
        if self.is_mapped(vaddr) {
            self.with_pte(vaddr, 0).invalidated(vaddr)
        } else {
            self
        }
    }
}

/// What mapping the page of `vaddr` to the frame at `paddr` leads to: the new
/// tables and frame accounting, or the error.  Where the directory slot has
/// no table yet, one is installed in the frame that a single allocation takes.
pub open spec fn map_outcome(pv: PagingView, used: Seq<bool>, vaddr: u32, paddr: u32, flags: u32) -> Result<
    (PagingView, Seq<bool>),
    MemError,
> {
    if pv.root is None {
        Err(MemError::NotInitialized)
    } else if pv.table_present(vaddr) {
        Ok((pv.mapped(vaddr, paddr, flags), used))
    } else {
        match first_fit(used) {
            None => Err(MemError::OutOfFrames),
            Some(t) => Ok(
                (pv.with_table(vaddr, (t * 4096) as u32, flags).mapped(vaddr, paddr, flags), used.update(t, true)),
            ),
        }
    }
}

/// The accounting after `k` single allocations in a row; an allocation that
/// finds no free frame changes nothing.
pub open spec fn after_allocs(used: Seq<bool>, k: nat) -> Seq<bool>
    decreases k,
{
    if k == 0 {
        used
    } else {
        let prev = after_allocs(used, (k - 1) as nat);
        match first_fit(prev) {
            Some(f) => prev.update(f, true),
            None => prev,
        }
    }
}

/// The frame that the allocation after `k` earlier ones takes.
pub open spec fn nth_fit(used: Seq<bool>, k: nat) -> Option<int> {
    first_fit(after_allocs(used, k))
}

/// The entry of the identity mapping for page `pt` of directory slot `pd`.
pub open spec fn identity_entry(pd: int, pt: int) -> u32 {
    make_entry((pd * 0x40_0000 + pt * 0x1000) as u32, PAGE_PRESENT | PAGE_WRITABLE)
}

/// A single allocation finds a frame exactly when some frame is free.
pub proof fn lemma_first_fit(used: Seq<bool>)
    ensures
        match first_fit(used) {
            Some(f) => 0 <= f < used.len() && !used[f],
            None => forall|f: int| 0 <= f < used.len() ==> used[f],
        },
        first_fit(used) is Some <==> count_used(used, used.len() as int) < used.len(),
{
    let n = used.len() as int;
    let low = if n < 256 { n } else { 256 };
    lemma_lowest_free(used, 256, n);
    lemma_lowest_free(used, 0, low);
    lemma_count_full(used, n);
    lemma_count_bounds(used, n);
}

/// `k` allocations in a row keep the number of frames and raise the count of
/// used frames by `k`, or to the number of frames when fewer were free.
pub proof fn lemma_after_allocs(used: Seq<bool>, k: nat)
    ensures
        after_allocs(used, k).len() == used.len(),
        count_used(after_allocs(used, k), used.len() as int) == if count_used(used, used.len() as int) + k
            <= used.len() {
            count_used(used, used.len() as int) + k
        } else {
            used.len() as int
        },
    decreases k,
{
    let n = used.len() as int;
    lemma_count_bounds(used, n);
    if k > 0 {
        lemma_after_allocs(used, (k - 1) as nat);
        let prev = after_allocs(used, (k - 1) as nat);
        lemma_first_fit(prev);
        match first_fit(prev) {
            Some(f) => {
                lemma_count_update(prev, n, f, true);
            },
            None => {},
        }
    }
}

/// Once an allocation has found every frame in use, later ones change nothing.
pub proof fn lemma_allocs_stay_full(used: Seq<bool>, k: nat, m: nat)
    requires
        k <= m,
        first_fit(after_allocs(used, k)) is None,
    ensures
        after_allocs(used, m) == after_allocs(used, k),
    decreases m,
{
    if m > k {
        lemma_allocs_stay_full(used, k, (m - 1) as nat);
    }
}

/// With no free frame to begin with, allocations change nothing.
pub proof fn lemma_allocs_when_full(used: Seq<bool>, m: nat)
    requires
        first_fit(used) is None,
    ensures
        after_allocs(used, m) == used,
{
    lemma_allocs_stay_full(used, 0, m);
}

/// An entry keeps the frame boundary of the address it is made of and the
/// present bit of its flags; the flags of a new table and of a mapped page
/// hold the present bit, and the empty entry does not.
pub proof fn lemma_entry_bits(addr: u32, flags: u32)
    by (bit_vector)
    ensures
        ((addr & 0xFFFF_F000u32) | (flags & 0xFFFu32)) & 0xFFFF_F000u32 == addr & 0xFFFF_F000u32,
        (((addr & 0xFFFF_F000u32) | (flags & 0xFFFu32)) & 1u32 != 0) == (flags & 1u32 != 0),
        (flags | 1u32) & 1u32 != 0,
        (1u32 | 2u32 | (flags & 4u32)) & 1u32 != 0,
        0u32 & 1u32 == 0,
        addr % 4096 == 0 ==> addr & 0xFFFF_F000u32 == addr,
{
}

/// An entry made with the present and writable flags is present and holds
/// the aligned address it was made of.
pub proof fn lemma_present_entry(addr: u32)
    by (bit_vector)
    ensures
        ((addr & 0xFFFF_F000u32) | ((0x001u32 | 0x002u32) & 0xFFFu32)) & 0x001u32 != 0,
        addr % 4096 == 0 ==> ((addr & 0xFFFF_F000u32) | ((0x001u32 | 0x002u32) & 0xFFFu32)) & 0xFFFF_F000u32
            == addr,
{
}

/// The two indices and the offset of an address lie in their ranges and
/// make up the address; the frame address of an entry and an offset add up
/// without overflow.
pub proof fn lemma_index_bits(vaddr: u32, entry: u32)
    by (bit_vector)
    ensures
        (vaddr >> 22) & 0x3FFu32 < 1024,
        (vaddr >> 12) & 0x3FFu32 < 1024,
        vaddr & 0xFFFu32 < 4096,
        (entry & 0xFFFF_F000u32) + (vaddr & 0xFFFu32) <= 0xFFFF_FFFF,
        ((vaddr >> 22) & 0x3FFu32) * 0x40_0000 + ((vaddr >> 12) & 0x3FFu32) * 0x1000 + (vaddr & 0xFFFu32)
            == vaddr,
        (vaddr >> 22) & 0x3FFu32 == vaddr / 0x40_0000,
        ((vaddr >> 22) & 0x3FFu32) * 1024 + ((vaddr >> 12) & 0x3FFu32) == vaddr / 4096,
{
}

/// Every address of a page has the indices of the first address of the
/// page, and its offset is its distance from there.
pub proof fn lemma_page_bits(vaddr: u32, k: u32)
    by (bit_vector)
    requires
        vaddr % 4096 == 0,
        k < 4096,
    ensures
        vaddr + k <= 0xFFFF_FFFF,
        (((vaddr + k) as u32) >> 22) & 0x3FFu32 == (vaddr >> 22) & 0x3FFu32,
        (((vaddr + k) as u32) >> 12) & 0x3FFu32 == (vaddr >> 12) & 0x3FFu32,
        ((vaddr + k) as u32) & 0xFFFu32 == k,
{
}

/// Builds a directory entry that refers to the table at `pt_phys_addr`.
pub fn make_pde(pt_phys_addr: u32, flags: u32) -> (r: u32)
    ensures
        r == make_entry(pt_phys_addr, flags),
{
    (pt_phys_addr & ADDR_MASK) | (flags & 0xFFF)
}

/// Builds a table entry that refers to the frame at `frame_phys_addr`.
pub fn make_pte(frame_phys_addr: u32, flags: u32) -> (r: u32)
    ensures
        r == make_entry(frame_phys_addr, flags),
{
    (frame_phys_addr & ADDR_MASK) | (flags & 0xFFF)
}

/// The frame address held in `entry`.
pub fn entry_addr(entry: u32) -> (r: u32)
    ensures
        r == entry_addr_spec(entry),
        r % 4096 == 0,
{
    proof {
        assert((entry & 0xFFFF_F000u32) % 4096 == 0) by (bit_vector);
    }
    entry & ADDR_MASK
}

/// Whether `entry` has its present bit set.
pub fn entry_present(entry: u32) -> (r: bool)
    ensures
        r == entry_present_spec(entry),
{
    entry & PAGE_PRESENT != 0
}

/// The directory index of `vaddr`: its bits 31..22.
pub fn pd_index(vaddr: u32) -> (r: usize)
    ensures
        r == pd_index_spec(vaddr),
        r == vaddr / 0x40_0000,
        r < ENTRIES_PER_TABLE,
{
    proof {
        lemma_index_bits(vaddr, 0);
    }
    ((vaddr >> 22) & 0x3FF) as usize
}

/// The table index of `vaddr`: its bits 21..12.
pub fn pt_index(vaddr: u32) -> (r: usize)
    ensures
        r == pt_index_spec(vaddr),
        r == (vaddr / 4096) % 1024,
        r < ENTRIES_PER_TABLE,
{
    proof {
        lemma_index_bits(vaddr, 0);
        assert((vaddr >> 12) & 0x3FFu32 == (vaddr / 4096) % 1024) by (bit_vector);
    }
    ((vaddr >> 12) & 0x3FF) as usize
}

/// The offset of `vaddr` in its page: its bits 11..0.
pub fn page_offset(vaddr: u32) -> (r: usize)
    ensures
        r == page_offset_spec(vaddr),
        r == vaddr % 4096,
{
    proof {
        assert(vaddr & 0xFFFu32 == vaddr % 4096) by (bit_vector);
    }
    (vaddr & 0xFFF) as usize
}

/// The page directory with its tables.
pub struct PageTables {
    root: Option<u32>,
    enabled: bool,
    dir: Vec<u32>,
    tables: Vec<Vec<u32>>,
    pending: Vec<HwAction>,
}

impl PageTables {
    /// The tables as plain values.
    pub closed spec fn view(&self) -> PagingView {
        PagingView {
            root: self.root,
            enabled: self.enabled,
            dir: self.dir@,
            tables: Seq::new(self.tables@.len(), |i: int| self.tables@[i]@),
            pending: self.pending@,
        }
    }

    /// The directory and the tables in use have their full size.
    pub open spec fn wf(&self) -> bool {
        self@.wf()
    }

    /// Page tables before initialisation: no directory, nothing mapped.
    pub fn new() -> (pt: PageTables)
        ensures
            pt.wf(),
            pt@.root is None,
            !pt@.enabled,
            pt@.pending.len() == 0,
            forall|v: u32| pt@.translate(v) is None,
    {
        PageTables { root: None, enabled: false, dir: Vec::new(), tables: Vec::new(), pending: Vec::new() }
    }
}

/// The directory entry of slot `slot`; zero before initialisation.
pub fn directory_entry(pt: &PageTables, slot: usize) -> (r: u32)
    requires
        pt.wf(),
        slot < ENTRIES_PER_TABLE,
    ensures
        r == if pt@.root is Some {
            pt@.dir[slot as int]
        } else {
            0
        },
{
    if pt.root.is_none() {
        0
    } else {
        pt.dir[slot]
    }
}

/// The table entry for the page of `vaddr`, or `None` where the directory
/// slot of `vaddr` has no table.
pub fn table_entry(pt: &PageTables, vaddr: u32) -> (r: Option<u32>)
    requires
        pt.wf(),
    ensures
        r == if pt@.table_present(vaddr) {
            Some(pt@.pte(vaddr))
        } else {
            None
        },
{
    if pt.root.is_none() {
        return None;
    }
    let pdidx: usize = pd_index(vaddr);
    if !entry_present(pt.dir[pdidx]) {
        return None;
    }
    Some(pt.tables[pdidx][pt_index(vaddr)])
}

/// Asks for the cached translation of the page of `addr` to be dropped.
pub fn invlpg(pt: &mut PageTables, addr: u32)
    ensures
        final(pt)@ == old(pt)@.told(HwAction::InvalidatePage(addr)),
{
    pt.pending.push(HwAction::InvalidatePage(addr));
}

/// Asks for every cached translation to be dropped.
pub fn flush_tlb(pt: &mut PageTables)
    ensures
        final(pt)@ == old(pt)@.told(HwAction::FlushAll),
{
    pt.pending.push(HwAction::FlushAll);
}

/// Asks for the page at `vaddr` to be filled with zero bytes.
pub fn zero_page(pt: &mut PageTables, vaddr: u32)
    ensures
        final(pt)@ == old(pt)@.told(HwAction::ZeroPage(vaddr)),
{
    pt.pending.push(HwAction::ZeroPage(vaddr));
}

/// Hands out what the hardware has yet to be told, oldest first, and
/// forgets it.
pub fn take_pending(pt: &mut PageTables) -> (r: Vec<HwAction>)
    ensures
        r@ == old(pt)@.pending,
        final(pt)@ == (PagingView { pending: Seq::empty(), ..old(pt)@ }),
{
    let mut out: Vec<HwAction> = Vec::new();
    let mut i: usize = 0;
    while i < pt.pending.len()
        invariant
            i <= pt.pending@.len(),
            *pt == *old(pt),
            out@ == pt.pending@.subrange(0, i as int),
        decreases pt.pending@.len() - i,
    {
        out.push(pt.pending[i]);
        i += 1;
        proof {
            assert(out@ =~= pt.pending@.subrange(0, i as int));
        }
    }
    proof {
        assert(out@ =~= pt.pending@);
    }
    pt.pending.clear();
    proof {
        assert(pt@.pending =~= Seq::<HwAction>::empty());
        assert(pt@.tables =~= old(pt)@.tables);
    }
    out
}

/// Whether the processor translates addresses through `pt`.
pub fn is_enabled(pt: &PageTables) -> (r: bool)
    ensures
        r == pt@.enabled,
{
    pt.enabled
}

/// Maps the page of `vaddr` to the frame at `paddr` with `flags`; the present
/// flag is added.
///
/// Where the directory slot of `vaddr` has no table yet, a frame is taken
/// from `frames` for an empty one, which is installed as present and
/// writable, and as reachable from user mode if `flags` asks for that.  A
/// page that is already mapped is mapped anew.  Fails, and changes nothing,
/// when the tables are not initialised or no frame is left for a table.
pub fn map_page(pt: &mut PageTables, frames: &mut FrameAllocator, vaddr: u32, paddr: u32, flags: u32) -> (r:
    Result<(), MemError>)
    requires
        old(pt).wf(),
        old(frames).wf(),
    ensures
        final(pt).wf(),
        final(frames).wf(),
        final(frames)@.len() == old(frames)@.len(),
        match map_outcome(old(pt)@, old(frames)@, vaddr, paddr, flags) {
            Ok((pv, used)) => {
                &&& r is Ok
                &&& final(pt)@ == pv
                &&& final(frames)@ == used
                &&& final(frames).used_count() == old(frames).used_count() + if old(pt)@.table_present(
                    vaddr,
                ) {
                    0int
                } else {
                    1int
                }
            },
            Err(e) => {
                &&& r == Err::<(), MemError>(e)
                &&& *final(pt) == *old(pt)
                &&& *final(frames) == *old(frames)
            },
        },
{
    if pt.root.is_none() {
        return Err(MemError::NotInitialized);
    }
    let pdidx: usize = pd_index(vaddr);
    let ptidx: usize = pt_index(vaddr);
    let pde: u32 = pt.dir[pdidx];
    if !entry_present(pde) {
        match alloc_frame(frames) {
            None => {
                return Err(MemError::OutOfFrames);
            },
            Some(table_addr) => {
                let pde_flags: u32 = PAGE_PRESENT | PAGE_WRITABLE | (flags & PAGE_USER);
                proof {
                    lemma_entry_bits(table_addr, pde_flags);
                    lemma_entry_bits(table_addr, flags);
                }
                pt.tables[pdidx] = vec![0u32; ENTRIES_PER_TABLE];
                pt.dir.set(pdidx, make_pde(table_addr, pde_flags));
                proof {
                    assert(pt@.tables[pdidx as int] =~= Seq::new(ENTRIES_PER_TABLE as nat, |j: int| 0u32));
                    assert(pt@.tables =~= old(pt)@.with_table(vaddr, table_addr, flags).tables);
                    assert(pt@ == old(pt)@.with_table(vaddr, table_addr, flags));
                }
            },
        }
    }
    let ghost mid = pt@;
    let entry: u32 = make_pte(paddr, flags | PAGE_PRESENT);
    pt.tables[pdidx][ptidx] = entry;
    if pt.enabled {
        pt.pending.push(HwAction::InvalidatePage(vaddr));
    }
    proof {
        assert(pt@.tables =~= mid.mapped(vaddr, paddr, flags).tables);
        assert(pt@ == mid.mapped(vaddr, paddr, flags));
    }
    Ok(())
}

/// A table that maps the 1024 pages of directory slot `pde_idx` to themselves.
fn identity_table(pde_idx: usize) -> (table: Vec<u32>)
    requires
        pde_idx < ENTRIES_PER_TABLE,
    ensures
        table@.len() == ENTRIES_PER_TABLE,
        forall|j: int| 0 <= j < ENTRIES_PER_TABLE ==> table@[j] == identity_entry(pde_idx as int, j),
{
    let base: u32 = (pde_idx as u32) * 0x40_0000;
    let mut table: Vec<u32> = Vec::new();
    let mut pte_idx: usize = 0;
    while pte_idx < ENTRIES_PER_TABLE
        invariant
            pte_idx <= ENTRIES_PER_TABLE,
            pde_idx < ENTRIES_PER_TABLE,
            base == pde_idx * 0x40_0000,
            table@.len() == pte_idx,
            forall|j: int| 0 <= j < pte_idx ==> table@[j] == identity_entry(pde_idx as int, j),
        decreases ENTRIES_PER_TABLE - pte_idx,
    {
        let phys_addr: u32 = base + (pte_idx as u32) * 0x1000;
        table.push(make_pte(phys_addr, PAGE_PRESENT | PAGE_WRITABLE));
        pte_idx += 1;
    }
    table
}

/// Sets up the identity mapping of `total_memory` bytes of physical memory
/// and turns paging on.
///
/// One frame is taken from `frames` for the directory and one for the table
/// of each 4 MiB of memory begun (32 tables when `total_memory` is zero).
/// Every page below the end of the last table is mapped to the frame with its
/// own address, present and writable; no other page is mapped.  Fails when
/// `frames` runs out of free frames; every frame is then in use.
pub fn init(frames: &mut FrameAllocator, total_memory: u32) -> (r: Result<PageTables, MemError>)
    requires
        old(frames).wf(),
    ensures
        final(frames).wf(),
        final(frames)@ == after_allocs(old(frames)@, (1 + identity_slots(total_memory)) as nat),
        r is Ok <==> old(frames).used_count() + 1 + identity_slots(total_memory) <= old(frames)@.len(),
        match r {
            Ok(pt) => {
                &&& pt.wf()
                &&& pt@.enabled
                &&& pt@.root == Some((nth_fit(old(frames)@, 0).unwrap() * 4096) as u32)
                &&& pt@.pending == seq![HwAction::LoadDirectory(pt@.root.unwrap()), HwAction::EnablePaging]
                &&& forall|i: int|
                    0 <= i < ENTRIES_PER_TABLE ==> #[trigger] pt@.dir[i] == if i < identity_slots(
                        total_memory,
                    ) {
                        make_entry(
                            (nth_fit(old(frames)@, (i + 1) as nat).unwrap() * 4096) as u32,
                            PAGE_PRESENT | PAGE_WRITABLE,
                        )
                    } else {
                        0u32
                    }
                &&& forall|v: u32|
                    pt@.is_mapped(v) ==> #[trigger] pt@.pte(v) == identity_entry(
                        pd_index_spec(v),
                        pt_index_spec(v),
                    )
                &&& forall|v: u32| #[trigger]
                    pt@.translate(v) == if v / 0x40_0000 < identity_slots(total_memory) {
                        Some(v)
                    } else {
                        None
                    }
                &&& final(frames).used_count() == old(frames).used_count() + 1 + identity_slots(
                    total_memory,
                )
            },
            Err(e) => {
                &&& e == MemError::OutOfFrames
                &&& forall|f: int| 0 <= f < final(frames)@.len() ==> final(frames)@[f]
            },
        },
{
    let num_pdes: usize = if total_memory > 0 {
        let whole: u32 = total_memory / 0x40_0000;
        if total_memory % 0x40_0000 != 0 {
            (whole + 1) as usize
        } else {
            whole as usize
        }
    } else {
        32
    };
    assert(num_pdes == identity_slots(total_memory));
    proof {
        old(frames).lemma_wf();
        lemma_after_allocs(old(frames)@, (1 + num_pdes) as nat);
        lemma_after_allocs(old(frames)@, 1);
        lemma_first_fit(old(frames)@);
        assert(after_allocs(old(frames)@, 0) == old(frames)@);
    }
    let pd_addr: u32 = match alloc_frame(frames) {
        Some(addr) => addr,
        None => {
            proof {
                lemma_allocs_when_full(old(frames)@, (1 + num_pdes) as nat);
            }
            return Err(MemError::OutOfFrames);
        },
    };
    let mut dir: Vec<u32> = vec![0u32; ENTRIES_PER_TABLE];
    let mut tables: Vec<Vec<u32>> = Vec::new();
    let mut pde_idx: usize = 0;
    while pde_idx < num_pdes
        invariant
            pde_idx <= num_pdes <= ENTRIES_PER_TABLE,
            num_pdes == identity_slots(total_memory),
            old(frames).wf(),
            frames.wf(),
            frames@ == after_allocs(old(frames)@, (1 + pde_idx) as nat),
            frames.used_count() == old(frames).used_count() + 1 + pde_idx,
            dir@.len() == ENTRIES_PER_TABLE,
            tables@.len() == pde_idx,
            forall|i: int|
                0 <= i < ENTRIES_PER_TABLE ==> #[trigger] dir@[i] == if i < pde_idx {
                    make_entry(
                        (nth_fit(old(frames)@, (i + 1) as nat).unwrap() * 4096) as u32,
                        PAGE_PRESENT | PAGE_WRITABLE,
                    )
                } else {
                    0u32
                },
            forall|i: int|
                0 <= i < pde_idx ==> (#[trigger] tables@[i])@.len() == ENTRIES_PER_TABLE && (forall|
                    j: int,
                |
                    0 <= j < ENTRIES_PER_TABLE ==> tables@[i]@[j] == identity_entry(i, j)),
        decreases num_pdes - pde_idx,
    {
        proof {
            frames.lemma_wf();
            old(frames).lemma_wf();
            lemma_first_fit(frames@);
            lemma_after_allocs(old(frames)@, (1 + pde_idx) as nat);
            lemma_after_allocs(old(frames)@, (1 + pde_idx + 1) as nat);
        }
        let pt_addr: u32 = match alloc_frame(frames) {
            Some(addr) => addr,
            None => {
                proof {
                    lemma_allocs_stay_full(old(frames)@, (1 + pde_idx) as nat, (1 + num_pdes) as nat);
                }
                return Err(MemError::OutOfFrames);
            },
        };
        let table = identity_table(pde_idx);
        tables.push(table);
        dir.set(pde_idx, make_pde(pt_addr, PAGE_PRESENT | PAGE_WRITABLE));
        pde_idx += 1;
    }
    while tables.len() < ENTRIES_PER_TABLE
        invariant
            num_pdes <= tables@.len() <= ENTRIES_PER_TABLE,
            forall|i: int|
                0 <= i < num_pdes ==> (#[trigger] tables@[i])@.len() == ENTRIES_PER_TABLE && (forall|
                    j: int,
                |
                    0 <= j < ENTRIES_PER_TABLE ==> tables@[i]@[j] == identity_entry(i, j)),
        decreases ENTRIES_PER_TABLE - tables@.len(),
    {
        tables.push(Vec::new());
    }
    let mut pending: Vec<HwAction> = Vec::new();
    pending.push(HwAction::LoadDirectory(pd_addr));
    pending.push(HwAction::EnablePaging);
    let pt = PageTables { root: Some(pd_addr), enabled: true, dir, tables, pending };
    proof {
        assert forall|i: int| 0 <= i < ENTRIES_PER_TABLE && entry_present_spec(#[trigger] pt@.dir[i]) implies pt@.tables[i].len()
            == ENTRIES_PER_TABLE by {
            lemma_entry_bits(0, 0);
            if i < num_pdes {
                assert(pt.tables@[i]@.len() == ENTRIES_PER_TABLE);
            } else {
                assert(pt@.dir[i] == 0u32);
            }
        }
        assert forall|v: u32| #[trigger] pt@.is_mapped(v) == (v / 0x40_0000 < num_pdes) by {
            lemma_index_bits(v, 0);
            lemma_entry_bits(0, 0);
            let pd = pd_index_spec(v);
            let ptx = pt_index_spec(v);
            if pd < num_pdes {
                let t = (nth_fit(old(frames)@, (pd + 1) as nat).unwrap() * 4096) as u32;
                lemma_present_entry(t);
                lemma_present_entry((pd * 0x40_0000 + ptx * 0x1000) as u32);
                assert(entry_present_spec(pt@.dir[pd]));
                assert(pt.tables@[pd]@[ptx] == identity_entry(pd, ptx));
                assert(pt@.pte(v) == identity_entry(pd, ptx));
            } else {
                assert(pt@.dir[pd] == 0u32);
            }
        }
        assert forall|v: u32| pt@.is_mapped(v) implies #[trigger] pt@.pte(v) == identity_entry(
            pd_index_spec(v),
            pt_index_spec(v),
        ) by {
            lemma_index_bits(v, 0);
            let pd = pd_index_spec(v);
            assert(pt@.is_mapped(v) == (v / 0x40_0000 < num_pdes));
            assert(pt.tables@[pd]@[pt_index_spec(v)] == identity_entry(pd, pt_index_spec(v)));
        }
        assert forall|v: u32| #[trigger]
            pt@.translate(v) == if v / 0x40_0000 < num_pdes {
                Some(v)
            } else {
                None
            } by {
            lemma_index_bits(v, 0);
            let pd = pd_index_spec(v);
            let ptx = pt_index_spec(v);
            assert(pt@.is_mapped(v) == (v / 0x40_0000 < num_pdes));
            if pd < num_pdes {
                let phys = (pd * 0x40_0000 + ptx * 0x1000) as u32;
                assert(pt.tables@[pd]@[ptx] == identity_entry(pd, ptx));
                assert(pt@.pte(v) == identity_entry(pd, ptx));
                lemma_present_entry(phys);
                assert(phys % 4096 == 0);
            }
        }
        frames.lemma_wf();
    }
    Ok(pt)
}

/// Removes the mapping of the page of `vaddr` and returns the frame that it
/// was mapped to, or `None` when the page was not mapped.
pub fn unmap_page(pt: &mut PageTables, vaddr: u32) -> (r: Option<u32>)
    requires
        old(pt).wf(),
    ensures
        final(pt).wf(),
        r == old(pt)@.frame_of(vaddr),
        final(pt)@ == old(pt)@.unmapped(vaddr),
{
    if pt.root.is_none() {
        return None;
    }
    let pdidx: usize = pd_index(vaddr);
    let ptidx: usize = pt_index(vaddr);
    let pde: u32 = pt.dir[pdidx];
    if !entry_present(pde) {
        return None;
    }
    let pte: u32 = pt.tables[pdidx][ptidx];
    if !entry_present(pte) {
        return None;
    }
    let phys: u32 = entry_addr(pte);
    pt.tables[pdidx][ptidx] = 0;
    if pt.enabled {
        pt.pending.push(HwAction::InvalidatePage(vaddr));
    }
    proof {
        assert(pt@.tables =~= old(pt)@.unmapped(vaddr).tables);
        assert(pt@ == old(pt)@.unmapped(vaddr));
    }
    Some(phys)
}

/// The physical address that `vaddr` translates to, or `None` when its page
/// is not mapped.  Nothing is changed.
pub fn virt_to_phys(pt: &PageTables, vaddr: u32) -> (r: Option<u32>)
    requires
        pt.wf(),
    ensures
        r == pt@.translate(vaddr),
{
    if pt.root.is_none() {
        return None;
    }
    let pdidx: usize = pd_index(vaddr);
    let ptidx: usize = pt_index(vaddr);
    let offset: u32 = vaddr & 0xFFF;
    let pde: u32 = pt.dir[pdidx];
    if !entry_present(pde) {
        return None;
    }
    let pte: u32 = pt.tables[pdidx][ptidx];
    if !entry_present(pte) {
        return None;
    }
    proof {
        lemma_index_bits(vaddr, pte);
    }
    Some(entry_addr(pte) + offset)
}

/// Whether the page of `vaddr` is mapped.
pub fn is_mapped(pt: &PageTables, vaddr: u32) -> (r: bool)
    requires
        pt.wf(),
    ensures
        r == pt@.is_mapped(vaddr),
        r == pt@.translate(vaddr).is_some(),
{
    virt_to_phys(pt, vaddr).is_some()
}

/// After a successful mapping of the page at `vaddr` to the frame at `paddr`,
/// every address `vaddr + k` of the page translates to `paddr + k`.
pub proof fn lemma_map_then_translate(
    pv: PagingView,
    used: Seq<bool>,
    vaddr: u32,
    paddr: u32,
    flags: u32,
    k: u32,
)
    requires
        pv.wf(),
        map_outcome(pv, used, vaddr, paddr, flags) is Ok,
        vaddr % 4096 == 0,
        paddr % 4096 == 0,
        k < 4096,
    ensures
        map_outcome(pv, used, vaddr, paddr, flags).unwrap().0.wf(),
        vaddr + k <= u32::MAX,
        paddr + k <= u32::MAX,
        map_outcome(pv, used, vaddr, paddr, flags).unwrap().0.translate((vaddr + k) as u32) == Some(
            (paddr + k) as u32,
        ),
        map_outcome(pv, used, vaddr, paddr, flags).unwrap().0.frame_of((vaddr + k) as u32) == Some(paddr),
{
    let after = map_outcome(pv, used, vaddr, paddr, flags).unwrap().0;
    let va = (vaddr + k) as u32;
    lemma_page_bits(vaddr, k);
    lemma_page_bits(paddr, k);
    lemma_index_bits(vaddr, 0);
    lemma_index_bits(va, 0);
    lemma_entry_bits(paddr, flags | PAGE_PRESENT);
    lemma_entry_bits(paddr, flags);
    if !pv.table_present(vaddr) {
        let t = first_fit(used).unwrap();
        lemma_entry_bits((t * 4096) as u32, table_flags(flags));
        lemma_entry_bits((t * 4096) as u32, flags);
    }
    assert(after.pte(va) == page_entry(paddr, flags));
}

/// What a successful mapping does to the frame accounting: nothing where
/// the table was there, and else the frame of the new table is taken, which
/// was free.
pub proof fn lemma_map_frames(pv: PagingView, used: Seq<bool>, vaddr: u32, paddr: u32, flags: u32)
    requires
        map_outcome(pv, used, vaddr, paddr, flags) is Ok,
    ensures
        map_outcome(pv, used, vaddr, paddr, flags).unwrap().1.len() == used.len(),
        forall|f: int|
            0 <= f < used.len() && used[f] ==> #[trigger] map_outcome(pv, used, vaddr, paddr, flags).unwrap().1[f],
        count_used(map_outcome(pv, used, vaddr, paddr, flags).unwrap().1, used.len() as int) == count_used(
            used,
            used.len() as int,
        ) + if pv.table_present(vaddr) {
            0int
        } else {
            1int
        },
{
    if !pv.table_present(vaddr) {
        lemma_first_fit(used);
        let t = first_fit(used).unwrap();
        lemma_count_update(used, used.len() as int, t, true);
    }
}

/// The frame address in an entry lies on a frame boundary.
pub proof fn lemma_frame_aligned(pv: PagingView, vaddr: u32)
    ensures
        pv.frame_of(vaddr) matches Some(a) ==> a % 4096 == 0,
{
    let e = pv.pte(vaddr);
    assert((e & 0xFFFF_F000u32) % 4096 == 0) by (bit_vector);
}

/// After a page has been mapped and unmapped again, no address of it
/// translates.
pub proof fn lemma_unmap_then_translate(pv: PagingView, vaddr: u32, k: u32)
    requires
        pv.wf(),
        vaddr % 4096 == 0,
        k < 4096,
    ensures
        pv.unmapped(vaddr).wf(),
        vaddr + k <= u32::MAX,
        pv.unmapped(vaddr).translate((vaddr + k) as u32) is None,
        pv.unmapped(vaddr).frame_of((vaddr + k) as u32) is None,
{
    let va = (vaddr + k) as u32;
    lemma_page_bits(vaddr, k);
    lemma_index_bits(vaddr, 0);
    lemma_entry_bits(0, 0);
}

/// A page that is mapped and unmapped again: while it is mapped, every
/// address `vaddr + k` of it translates to `paddr + k`; unmapping it hands
/// back the frame at `paddr`; and after that no address of it translates.
pub proof fn lemma_map_unmap_round_trip(
    pv: PagingView,
    used: Seq<bool>,
    vaddr: u32,
    paddr: u32,
    flags: u32,
    k: u32,
)
    requires
        pv.wf(),
        map_outcome(pv, used, vaddr, paddr, flags) is Ok,
        vaddr % 4096 == 0,
        paddr % 4096 == 0,
        k < 4096,
    ensures
        ({
            let mapped = map_outcome(pv, used, vaddr, paddr, flags).unwrap().0;
            &&& mapped.translate((vaddr + k) as u32) == Some((paddr + k) as u32)
            &&& mapped.frame_of(vaddr) == Some(paddr)
            &&& mapped.unmapped(vaddr).translate((vaddr + k) as u32) is None
        }),
{
    let mapped = map_outcome(pv, used, vaddr, paddr, flags).unwrap().0;
    lemma_map_then_translate(pv, used, vaddr, paddr, flags, k);
    lemma_map_then_translate(pv, used, vaddr, paddr, flags, 0);
    lemma_unmap_then_translate(mapped, vaddr, k);
}

/// Mapping a page changes the translation of no address outside that page.
pub proof fn lemma_map_keeps_others(
    pv: PagingView,
    used: Seq<bool>,
    vaddr: u32,
    paddr: u32,
    flags: u32,
    other: u32,
)
    requires
        pv.wf(),
        map_outcome(pv, used, vaddr, paddr, flags) is Ok,
        other / 4096 != vaddr / 4096,
    ensures
        map_outcome(pv, used, vaddr, paddr, flags).unwrap().0.translate(other) == pv.translate(other),
        map_outcome(pv, used, vaddr, paddr, flags).unwrap().0.frame_of(other) == pv.frame_of(other),
{
    let after = map_outcome(pv, used, vaddr, paddr, flags).unwrap().0;
    lemma_index_bits(vaddr, 0);
    lemma_index_bits(other, 0);
    lemma_entry_bits(0, 0);
    if !pv.table_present(vaddr) {
        let t = first_fit(used).unwrap();
        lemma_entry_bits((t * 4096) as u32, table_flags(flags));
        lemma_entry_bits((t * 4096) as u32, flags);
    }
}

/// Unmapping a page changes the translation of no address outside that page.
pub proof fn lemma_unmap_keeps_others(pv: PagingView, vaddr: u32, other: u32)
    requires
        pv.wf(),
        other / 4096 != vaddr / 4096,
    ensures
        pv.unmapped(vaddr).translate(other) == pv.translate(other),
        pv.unmapped(vaddr).frame_of(other) == pv.frame_of(other),
{
    lemma_index_bits(vaddr, 0);
    lemma_index_bits(other, 0);
}

/// How many of the first `n` entries of `table` are present and have all
/// bits of `mask` set.
pub open spec fn count_entries(table: Seq<u32>, n: int, mask: u32) -> int
    decreases n,
{
    if n <= 0 {
        0
    } else {
        count_entries(table, n - 1, mask) + if entry_present_spec(table[n - 1]) && table[n - 1] & mask == mask {
            1int
        } else {
            0int
        }
    }
}

/// How many pages in the tables of the first `n` directory slots are mapped
/// with all bits of `mask` set.
pub open spec fn count_pages(pv: PagingView, n: int, mask: u32) -> int
    decreases n,
{
    if n <= 0 {
        0
    } else {
        count_pages(pv, n - 1, mask) + if entry_present_spec(pv.dir[n - 1]) {
            count_entries(pv.tables[n - 1], ENTRIES_PER_TABLE as int, mask)
        } else {
            0int
        }
    }
}

/// How many of the first `n` directory slots refer to a table.
pub open spec fn count_tables(pv: PagingView, n: int) -> int
    decreases n,
{
    if n <= 0 {
        0
    } else {
        count_tables(pv, n - 1) + if entry_present_spec(pv.dir[n - 1]) {
            1int
        } else {
            0int
        }
    }
}

/// The figures of the page tables that the kernel shows to its user.
#[derive(Clone, Copy, Debug, PartialEq, Eq, Structural)]
pub struct PagingInfo {
    /// Whether paging is on.
    pub enabled: bool,
    /// Physical address of the directory; zero before initialisation.
    pub directory: u32,
    /// Directory slots that refer to a table: regions of 4 MiB.
    pub mapped_regions: u32,
    /// Pages that are mapped.
    pub total_pages: u32,
    /// Mapped pages that may be written.
    pub rw_pages: u32,
    /// Mapped pages that user mode may reach.
    pub user_pages: u32,
}

proof fn lemma_count_entries_bounds(table: Seq<u32>, n: int, mask: u32)
    requires
        0 <= n,
    ensures
        0 <= count_entries(table, n, mask) <= n,
    decreases n,
{
    if n > 0 {
        lemma_count_entries_bounds(table, n - 1, mask);
    }
}

proof fn lemma_count_pages_bounds(pv: PagingView, n: int, mask: u32)
    requires
        0 <= n,
    ensures
        0 <= count_pages(pv, n, mask) <= n * 1024,
        0 <= count_tables(pv, n) <= n,
    decreases n,
{
    if n > 0 {
        lemma_count_pages_bounds(pv, n - 1, mask);
        lemma_count_entries_bounds(pv.tables[n - 1], ENTRIES_PER_TABLE as int, mask);
    }
}

/// How many entries of `table` are present and have all bits of `mask` set.
fn count_in_table(table: &Vec<u32>, mask: u32) -> (r: u32)
    requires
        table@.len() == ENTRIES_PER_TABLE,
    ensures
        r == count_entries(table@, ENTRIES_PER_TABLE as int, mask),
        r <= ENTRIES_PER_TABLE,
{
    let mut n: u32 = 0;
    let mut i: usize = 0;
    while i < ENTRIES_PER_TABLE
        invariant
            i <= ENTRIES_PER_TABLE,
            table@.len() == ENTRIES_PER_TABLE,
            n == count_entries(table@, i as int, mask),
            n <= i,
        decreases ENTRIES_PER_TABLE - i,
    {
        let e: u32 = table[i];
        if entry_present(e) && e & mask == mask {
            n += 1;
        }
        i += 1;
    }
    n
}

/// The figures of the page tables: how many regions and pages are mapped,
/// and how many of the pages may be written or reached from user mode.
pub fn paging_info(pt: &PageTables) -> (r: PagingInfo)
    requires
        pt.wf(),
    ensures
        r.enabled == pt@.enabled,
        r.directory == match pt@.root {
            Some(a) => a,
            None => 0,
        },
        pt@.root is None ==> r.mapped_regions == 0 && r.total_pages == 0 && r.rw_pages == 0 && r.user_pages == 0,
        pt@.root is Some ==> {
            &&& r.mapped_regions == count_tables(pt@, ENTRIES_PER_TABLE as int)
            &&& r.total_pages == count_pages(pt@, ENTRIES_PER_TABLE as int, 0)
            &&& r.rw_pages == count_pages(pt@, ENTRIES_PER_TABLE as int, PAGE_WRITABLE)
            &&& r.user_pages == count_pages(pt@, ENTRIES_PER_TABLE as int, PAGE_USER)
        },
{
    let directory: u32 = match pt.root {
        Some(a) => a,
        None => {
            return PagingInfo {
                enabled: pt.enabled,
                directory: 0,
                mapped_regions: 0,
                total_pages: 0,
                rw_pages: 0,
                user_pages: 0,
            };
        },
    };
    let mut mapped: u32 = 0;
    let mut total: u32 = 0;
    let mut rw: u32 = 0;
    let mut user: u32 = 0;
    let mut i: usize = 0;
    while i < ENTRIES_PER_TABLE
        invariant
            i <= ENTRIES_PER_TABLE,
            pt.wf(),
            pt@.root is Some,
            mapped == count_tables(pt@, i as int),
            total == count_pages(pt@, i as int, 0),
            rw == count_pages(pt@, i as int, PAGE_WRITABLE),
            user == count_pages(pt@, i as int, PAGE_USER),
        decreases ENTRIES_PER_TABLE - i,
    {
        proof {
            lemma_count_pages_bounds(pt@, i as int, 0);
            lemma_count_pages_bounds(pt@, i as int, PAGE_WRITABLE);
            lemma_count_pages_bounds(pt@, i as int, PAGE_USER);
        }
        if entry_present(pt.dir[i]) {
            assert(pt@.tables[i as int] == pt.tables@[i as int]@);
            mapped += 1;
            total += count_in_table(&pt.tables[i], 0);
            rw += count_in_table(&pt.tables[i], PAGE_WRITABLE);
            user += count_in_table(&pt.tables[i], PAGE_USER);
        }
        i += 1;
    }
    PagingInfo { enabled: pt.enabled, directory, mapped_regions: mapped, total_pages: total, rw_pages: rw, user_pages: user }
}

} // verus!
