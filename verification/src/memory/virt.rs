//! Virtually contiguous allocator.
//!
//! Allocations come from a region of virtual addresses of their own, above
//! the identity-mapped memory.  Each page of an allocation is backed by a
//! physical frame of its own, so the frames need not be contiguous.  The
//! region is handed out from a cursor that only moves up: an address that was
//! freed is never handed out again.

use vstd::prelude::*;
use super::MemError;
use super::PAGE_SIZE;
use super::align_up_spec;
use super::lemma_align_bounds;
use super::frame::FrameAllocator;
use super::frame::MAX_FRAMES;
use super::frame::alloc_frame;
use super::frame::count_used;
use super::frame::lemma_count_update;
use super::frame::released;
use super::frame::first_fit;
use super::frame::free_frame;
use super::frame::free_frame_check;
use super::paging::HwAction;
use super::paging::PAGE_PRESENT;
use super::paging::PAGE_WRITABLE;
use super::paging::PageTables;
use super::paging::PagingView;
use super::paging::lemma_first_fit;
use super::paging::lemma_frame_aligned;
use super::paging::lemma_map_frames;
use super::paging::lemma_map_keeps_others;
use super::paging::lemma_map_then_translate;
use super::paging::lemma_unmap_keeps_others;
use super::paging::lemma_unmap_then_translate;
use super::paging::map_outcome;
use super::paging::map_page;
use super::paging::unmap_page;
use super::paging::zero_page;

verus! {

/// First address of the region.
pub const VMALLOC_BASE: u32 = 0xD000_0000;

/// Size of the region in bytes.
pub const VMALLOC_MAX_SIZE: u32 = 0x1000_0000;

/// First address past the region.
pub const VMALLOC_END: u32 = 0xE000_0000;

/// How many allocations can be live at a time.
pub const MAX_VMALLOC_ENTRIES: usize = 256;

/// One slot of the allocation table.
#[derive(Clone, Copy, Debug, PartialEq, Eq, Structural)]
pub struct VmallocEntry {
    /// First address of the allocation.
    pub vaddr: u32,
    /// Its size in bytes, a multiple of the page size.
    pub size: u32,
    /// Whether the slot holds a live allocation.
    pub in_use: bool,
}

/// The pages that `bytes` bytes take.
pub open spec fn pages_for(bytes: u32) -> int {
    (bytes + 4095) / 4096
}

/// The flags of every page that the allocator maps.
pub open spec fn vmalloc_flags() -> u32 {
    PAGE_PRESENT | PAGE_WRITABLE
}

/// How far a run of page commitments got.
pub enum CommitStatus {
    /// Every page is mapped.
    Done,
    /// No frame was left for the page with this index.
    Exhausted(int),
    /// The page tables refused a mapping.
    Failed(MemError),
}

/// Page tables and frame accounting after a run of steps, with how it ended.
pub struct Committed {
    pub pv: PagingView,
    pub used: Seq<bool>,
    pub status: CommitStatus,
}

/// Page tables and frame accounting after a run of releases, with the error
/// that stopped it, if any.
pub struct Released {
    pub pv: PagingView,
    pub used: Seq<bool>,
    pub err: Option<MemError>,
}

/// The address of page `j` of a run of pages that starts at `base`.
pub open spec fn page_addr(base: u32, j: int) -> u32 {
    (base + j * 4096) as u32
}

/// Commits the first `n` pages from `base` on, one after the other: a frame
/// is taken for the page, the page is mapped to it, present and writable,
/// and the page is to be filled with zero bytes.  The run stops at the first
/// page for which no frame is left, or whose mapping fails.
pub open spec fn commit_pages(pv: PagingView, used: Seq<bool>, base: u32, n: nat) -> Committed
    decreases n,
{
    if n == 0 {
        Committed { pv, used, status: CommitStatus::Done }
    } else {
        let prev = commit_pages(pv, used, base, (n - 1) as nat);
        if !(prev.status is Done) {
            prev
        } else {
            match first_fit(prev.used) {
                None => Committed { pv: prev.pv, used: prev.used, status: CommitStatus::Exhausted(n - 1) },
                Some(f) => {
                    let taken = prev.used.update(f, true);
                    match map_outcome(prev.pv, taken, page_addr(base, n - 1), (f * 4096) as u32, vmalloc_flags()) {
                        Ok((pv2, used2)) => Committed {
                            pv: pv2.told(HwAction::ZeroPage(page_addr(base, n - 1))),
                            used: used2,
                            status: CommitStatus::Done,
                        },
                        Err(e) => Committed { pv: prev.pv, used: taken, status: CommitStatus::Failed(e) },
                    }
                },
            }
        }
    }
}

/// Releases the first `n` pages from `base` on, one after the other: a page
/// that is mapped is unmapped and its frame is given back; one that is not
/// mapped is passed over.  The run stops at the first frame that is free
/// already.
pub open spec fn release_pages(pv: PagingView, used: Seq<bool>, base: u32, n: nat) -> Released
    decreases n,
{
    if n == 0 {
        Released { pv, used, err: None }
    } else {
        let prev = release_pages(pv, used, base, (n - 1) as nat);
        if prev.err is Some {
            prev
        } else {
            let v = page_addr(base, n - 1);
            match prev.pv.frame_of(v) {
                None => prev,
                Some(f) => match free_frame_check(prev.used, f) {
                    Ok(_) => Released { pv: prev.pv.unmapped(v), used: released(prev.used, f), err: None },
                    Err(e) => Released { pv: prev.pv.unmapped(v), used: prev.used, err: Some(e) },
                },
            }
        }
    }
}

/// What extending the region by `increment` bytes leads to.
pub struct VbrkOutcome {
    /// `Ok(Some(base))` with the first address of the new memory;
    /// `Ok(None)` when the region or the frames are used up; `Err` for an
    /// error that cannot be recovered from.
    pub result: Result<Option<u32>, MemError>,
    /// The cursor afterwards.
    pub brk: int,
    /// The page tables afterwards.
    pub pv: PagingView,
    /// The frame accounting afterwards.
    pub used: Seq<bool>,
}

/// Extending the region at cursor `brk` by `increment` bytes, rounded up to
/// whole pages.  Nothing happens for an increment of zero, nor when the
/// region would pass its end.  Else the pages are committed one by one.  When
/// the frames run out on the way, the pages committed so far are released
/// again and the cursor stays.
pub open spec fn vbrk_outcome(brk: u32, pv: PagingView, used: Seq<bool>, increment: u32) -> VbrkOutcome {
    let pages = pages_for(increment);
    if increment == 0 {
        VbrkOutcome { result: Ok(Some(brk)), brk: brk as int, pv, used }
    } else if brk + pages * 4096 > VMALLOC_END {
        VbrkOutcome { result: Ok(None), brk: brk as int, pv, used }
    } else {
        let c = commit_pages(pv, used, brk, pages as nat);
        match c.status {
            CommitStatus::Done => VbrkOutcome {
                result: Ok(Some(brk)),
                brk: brk + pages * 4096,
                pv: c.pv,
                used: c.used,
            },
            CommitStatus::Failed(e) => VbrkOutcome { result: Err(e), brk: brk as int, pv: c.pv, used: c.used },
            CommitStatus::Exhausted(k) => {
                let r = release_pages(c.pv, c.used, brk, k as nat);
                VbrkOutcome {
                    result: match r.err {
                        None => Ok(None),
                        Some(e) => Err(e),
                    },
                    brk: brk as int,
                    pv: r.pv,
                    used: r.used,
                }
            },
        }
    }
}

/// A run of commitments that has stopped stays as it is.
pub proof fn lemma_commit_stops(pv: PagingView, used: Seq<bool>, base: u32, k: nat, n: nat)
    requires
        k <= n,
        !(commit_pages(pv, used, base, k).status is Done),
    ensures
        commit_pages(pv, used, base, n) == commit_pages(pv, used, base, k),
    decreases n,
{
    if n > k {
        lemma_commit_stops(pv, used, base, k, (n - 1) as nat);
    }
}

/// A run of releases that has stopped stays as it is.
pub proof fn lemma_release_stops(pv: PagingView, used: Seq<bool>, base: u32, k: nat, n: nat)
    requires
        k <= n,
        release_pages(pv, used, base, k).err is Some,
    ensures
        release_pages(pv, used, base, n) == release_pages(pv, used, base, k),
    decreases n,
{
    if n > k {
        lemma_release_stops(pv, used, base, k, (n - 1) as nat);
    }
}

/// What a complete run of commitments has done: every page of the run is
/// mapped to a frame of its own that was free before and is in use now, no
/// frame that was in use has been freed, and no address outside the run
/// translates otherwise than before.
pub proof fn lemma_commit_done(pv: PagingView, used: Seq<bool>, base: u32, n: nat)
    requires
        pv.wf(),
        used.len() <= MAX_FRAMES,
        base % 4096 == 0,
        base + n * 4096 <= u32::MAX + 1,
        commit_pages(pv, used, base, n).status is Done,
    ensures
        commit_pages(pv, used, base, n).pv.wf(),
        commit_pages(pv, used, base, n).used.len() == used.len(),
        forall|f: int| 0 <= f < used.len() && used[f] ==> #[trigger] commit_pages(pv, used, base, n).used[f],
        forall|j: int|
            0 <= j < n ==> {
                let a = commit_pages(pv, used, base, n).pv.frame_of(#[trigger] page_addr(base, j));
                &&& a is Some
                &&& a.unwrap() % 4096 == 0
                &&& a.unwrap() / 4096 < used.len()
                &&& !used[a.unwrap() as int / 4096]
                &&& commit_pages(pv, used, base, n).used[a.unwrap() as int / 4096]
            },
        forall|j1: int, j2: int|
            0 <= j1 < j2 < n ==> commit_pages(pv, used, base, n).pv.frame_of(#[trigger] page_addr(base, j1))
                != commit_pages(pv, used, base, n).pv.frame_of(#[trigger] page_addr(base, j2)),
        forall|v: u32|
            !(base <= v < base + n * 4096) ==> #[trigger] commit_pages(pv, used, base, n).pv.translate(v)
                == pv.translate(v),
        forall|v: u32|
            !(base <= v < base + n * 4096) ==> #[trigger] commit_pages(pv, used, base, n).pv.frame_of(v)
                == pv.frame_of(v),
    decreases n,
{
    if n > 0 {
        let prev = commit_pages(pv, used, base, (n - 1) as nat);
        let c = commit_pages(pv, used, base, n);
        assert(prev.status is Done);
        lemma_commit_done(pv, used, base, (n - 1) as nat);
        lemma_first_fit(prev.used);
        let f = first_fit(prev.used).unwrap();
        let taken = prev.used.update(f, true);
        let v = page_addr(base, n - 1);
        let pa = (f * 4096) as u32;
        assert(map_outcome(prev.pv, taken, v, pa, vmalloc_flags()) is Ok);
        lemma_map_then_translate(prev.pv, taken, v, pa, vmalloc_flags(), 0);
        lemma_map_frames(prev.pv, taken, v, pa, vmalloc_flags());
        assert(c.pv.frame_of(v) == Some(pa));
        assert forall|f2: int| 0 <= f2 < used.len() && used[f2] implies #[trigger] c.used[f2] by {
            assert(prev.used[f2]);
            assert(taken[f2]);
        }
        assert(c.used[f]) by {
            assert(taken[f]);
        }
        assert forall|j: int| 0 <= j < n implies {
            let a = c.pv.frame_of(#[trigger] page_addr(base, j));
            &&& a is Some
            &&& a.unwrap() % 4096 == 0
            &&& a.unwrap() / 4096 < used.len()
            &&& !used[a.unwrap() as int / 4096]
            &&& c.used[a.unwrap() as int / 4096]
        } by {
            if j < n - 1 {
                let vj = page_addr(base, j);
                lemma_map_keeps_others(prev.pv, taken, v, pa, vmalloc_flags(), vj);
                let a = prev.pv.frame_of(vj);
                assert(a is Some);
                assert(prev.used[a.unwrap() as int / 4096]);
                assert(taken[a.unwrap() as int / 4096]);
            }
        }
        assert forall|j1: int, j2: int| 0 <= j1 < j2 < n implies c.pv.frame_of(
            #[trigger] page_addr(base, j1),
        ) != c.pv.frame_of(#[trigger] page_addr(base, j2)) by {
            let v1 = page_addr(base, j1);
            let v2 = page_addr(base, j2);
            lemma_map_keeps_others(prev.pv, taken, v, pa, vmalloc_flags(), v1);
            if j2 < n - 1 {
                lemma_map_keeps_others(prev.pv, taken, v, pa, vmalloc_flags(), v2);
            } else {
                let a1 = prev.pv.frame_of(v1);
                assert(a1 is Some);
                assert(prev.used[a1.unwrap() as int / 4096]);
            }
        }
        assert forall|w: u32| !(base <= w < base + n * 4096) implies #[trigger] c.pv.translate(w) == pv.translate(
            w,
        ) by {
            lemma_map_keeps_others(prev.pv, taken, v, pa, vmalloc_flags(), w);
        }
        assert forall|w: u32| !(base <= w < base + n * 4096) implies #[trigger] c.pv.frame_of(w) == pv.frame_of(
            w,
        ) by {
            lemma_map_keeps_others(prev.pv, taken, v, pa, vmalloc_flags(), w);
        }
    }
}

/// A run of commitments that ran out of frames at page `k` is a complete
/// run of `k` pages.
pub proof fn lemma_commit_exhausted(pv: PagingView, used: Seq<bool>, base: u32, n: nat)
    requires
        commit_pages(pv, used, base, n).status is Exhausted,
    ensures
        ({
            let c = commit_pages(pv, used, base, n);
            let k = c.status->Exhausted_0;
            &&& 0 <= k < n
            &&& commit_pages(pv, used, base, k as nat).status is Done
            &&& commit_pages(pv, used, base, k as nat).pv == c.pv
            &&& commit_pages(pv, used, base, k as nat).used == c.used
            &&& first_fit(c.used) is None
        }),
    decreases n,
{
    if n > 0 {
        let prev = commit_pages(pv, used, base, (n - 1) as nat);
        if !(prev.status is Done) {
            lemma_commit_exhausted(pv, used, base, (n - 1) as nat);
        }
    }
}

/// Frame `f` backs one of the first `k` pages from `base` on.
pub open spec fn backs(pv: PagingView, base: u32, k: nat, f: int) -> bool {
    exists|j: int| 0 <= j < k && pv.frame_of(#[trigger] page_addr(base, j)) == Some((f * 4096) as u32)
}

/// Releasing pages that are mapped to frames in use, each to a frame of its
/// own, never fails.  Afterwards none of the pages is mapped, their frames
/// are free, no other frame has changed, and no address outside the run
/// translates otherwise than before.
pub proof fn lemma_release_mapped(pv: PagingView, used: Seq<bool>, base: u32, k: nat)
    requires
        pv.wf(),
        used.len() <= MAX_FRAMES,
        base % 4096 == 0,
        base + k * 4096 <= u32::MAX + 1,
        forall|j: int|
            0 <= j < k ==> {
                let a = pv.frame_of(#[trigger] page_addr(base, j));
                &&& a is Some
                &&& a.unwrap() / 4096 < used.len()
                &&& used[a.unwrap() as int / 4096]
            },
        forall|j1: int, j2: int|
            0 <= j1 < j2 < k ==> pv.frame_of(#[trigger] page_addr(base, j1)) != pv.frame_of(
                #[trigger] page_addr(base, j2),
            ),
    ensures
        release_pages(pv, used, base, k).err is None,
        release_pages(pv, used, base, k).pv.wf(),
        release_pages(pv, used, base, k).used.len() == used.len(),
        forall|j: int|
            0 <= j < k ==> release_pages(pv, used, base, k).pv.frame_of(#[trigger] page_addr(base, j)) is None,
        forall|j: int|
            0 <= j < k ==> !release_pages(pv, used, base, k).used[pv.frame_of(
                #[trigger] page_addr(base, j),
            ).unwrap() as int / 4096],
        forall|f: int|
            0 <= f < used.len() && !backs(pv, base, k, f) ==> #[trigger] release_pages(pv, used, base, k).used[f]
                == used[f],
        count_used(release_pages(pv, used, base, k).used, used.len() as int) == count_used(
            used,
            used.len() as int,
        ) - k,
        forall|v: u32|
            !(base <= v < base + k * 4096) ==> #[trigger] release_pages(pv, used, base, k).pv.translate(v)
                == pv.translate(v),
        forall|v: u32|
            !(base <= v < base + k * 4096) ==> #[trigger] release_pages(pv, used, base, k).pv.frame_of(v)
                == pv.frame_of(v),
    decreases k,
{
    if k > 0 {
        let prev = release_pages(pv, used, base, (k - 1) as nat);
        let r = release_pages(pv, used, base, k);
        lemma_release_mapped(pv, used, base, (k - 1) as nat);
        let v = page_addr(base, k - 1);
        let a = pv.frame_of(v).unwrap();
        let f = a as int / 4096;
        assert(prev.pv.frame_of(v) == pv.frame_of(v));
        lemma_frame_aligned(pv, v);
        assert(!backs(pv, base, (k - 1) as nat, f)) by {
            if backs(pv, base, (k - 1) as nat, f) {
                let j = choose|j: int|
                    0 <= j < k - 1 && pv.frame_of(#[trigger] page_addr(base, j)) == Some((f * 4096) as u32);
                assert(pv.frame_of(page_addr(base, j)) != pv.frame_of(page_addr(base, k - 1)));
            }
        }
        assert(prev.used[f]);
        assert(free_frame_check(prev.used, a) is Ok);
        lemma_unmap_then_translate(prev.pv, v, 0);
        lemma_count_update(prev.used, used.len() as int, f, false);
        assert(r.pv == prev.pv.unmapped(v));
        assert(r.used == prev.used.update(f, false));
        assert forall|j: int| 0 <= j < k implies r.pv.frame_of(#[trigger] page_addr(base, j)) is None by {
            if j < k - 1 {
                lemma_unmap_keeps_others(prev.pv, v, page_addr(base, j));
            }
        }
        assert forall|j: int| 0 <= j < k implies !r.used[pv.frame_of(#[trigger] page_addr(base, j)).unwrap() as int
            / 4096] by {
            if j < k - 1 {
                assert(!prev.used[pv.frame_of(page_addr(base, j)).unwrap() as int / 4096]);
            }
        }
        assert forall|g: int| 0 <= g < used.len() && !backs(pv, base, k, g) implies #[trigger] r.used[g]
            == used[g] by {
            lemma_frame_aligned(pv, v);
            if g == f {
                assert(pv.frame_of(page_addr(base, k - 1)) == Some((g * 4096) as u32));
                assert(backs(pv, base, k, g));
            }
            if backs(pv, base, (k - 1) as nat, g) {
                let j = choose|j: int|
                    0 <= j < k - 1 && pv.frame_of(#[trigger] page_addr(base, j)) == Some((g * 4096) as u32);
                assert(backs(pv, base, k, g));
            }
        }
        assert forall|w: u32| !(base <= w < base + k * 4096) implies #[trigger] r.pv.translate(w) == pv.translate(
            w,
        ) by {
            lemma_unmap_keeps_others(prev.pv, v, w);
        }
        assert forall|w: u32| !(base <= w < base + k * 4096) implies #[trigger] r.pv.frame_of(w) == pv.frame_of(
            w,
        ) by {
            lemma_unmap_keeps_others(prev.pv, v, w);
        }
    }
}

/// When the frames run out while the region is being extended, the call
/// reports so and leaves no trace but the page tables that it installed:
/// none of the pages that it had committed is mapped, their frames are free
/// again, and no address outside the new pages translates otherwise than
/// before.  When the extension succeeds, every new page is mapped to a frame
/// of its own that was free before.
pub proof fn lemma_vbrk(brk: u32, pv: PagingView, used: Seq<bool>, increment: u32)
    requires
        pv.wf(),
        used.len() <= MAX_FRAMES,
        brk % 4096 == 0,
        VMALLOC_BASE <= brk <= VMALLOC_END,
        increment > 0,
        brk + pages_for(increment) * 4096 <= VMALLOC_END,
    ensures
        ({
            let pages = pages_for(increment);
            let c = commit_pages(pv, used, brk, pages as nat);
            let out = vbrk_outcome(brk, pv, used, increment);
            &&& out.used.len() == used.len()
            &&& forall|v: u32|
                !(brk <= v < brk + pages * 4096) && !(c.status is Failed) ==> #[trigger] out.pv.translate(v)
                    == pv.translate(v)
            &&& c.status is Exhausted ==> {
                &&& out.result == Ok::<Option<u32>, MemError>(None)
                &&& out.brk == brk
                &&& out.pv.wf()
                &&& forall|j: int|
                    0 <= j < c.status->Exhausted_0 ==> out.pv.frame_of(#[trigger] page_addr(brk, j)) is None
                &&& count_used(out.used, used.len() as int) == count_used(c.used, used.len() as int)
                    - c.status->Exhausted_0
                &&& forall|f: int| 0 <= f < used.len() && used[f] ==> #[trigger] out.used[f]
            }
            &&& c.status is Done ==> {
                &&& out.result == Ok::<Option<u32>, MemError>(Some(brk))
                &&& out.brk == brk + pages * 4096
                &&& out.pv.wf()
                &&& forall|j: int|
                    0 <= j < pages ==> {
                        let a = out.pv.frame_of(#[trigger] page_addr(brk, j));
                        &&& a is Some
                        &&& !used[a.unwrap() as int / 4096]
                        &&& out.used[a.unwrap() as int / 4096]
                    }
                &&& forall|j1: int, j2: int|
                    0 <= j1 < j2 < pages ==> out.pv.frame_of(#[trigger] page_addr(brk, j1)) != out.pv.frame_of(
                        #[trigger] page_addr(brk, j2),
                    )
                &&& forall|f: int| 0 <= f < used.len() && used[f] ==> #[trigger] out.used[f]
            }
        }),
{
    let pages = pages_for(increment);
    let c = commit_pages(pv, used, brk, pages as nat);
    let out = vbrk_outcome(brk, pv, used, increment);
    match c.status {
        CommitStatus::Done => {
            lemma_commit_done(pv, used, brk, pages as nat);
        },
        CommitStatus::Failed(e) => {
            lemma_commit_len(pv, used, brk, pages as nat);
        },
        CommitStatus::Exhausted(k) => {
            lemma_commit_exhausted(pv, used, brk, pages as nat);
            lemma_commit_done(pv, used, brk, k as nat);
            lemma_release_mapped(c.pv, c.used, brk, k as nat);
            let r = release_pages(c.pv, c.used, brk, k as nat);
            assert forall|f: int| 0 <= f < used.len() && used[f] implies #[trigger] out.used[f] by {
                assert(c.used[f]);
                if backs(c.pv, brk, k as nat, f) {
                    let j = choose|j: int|
                        0 <= j < k && c.pv.frame_of(#[trigger] page_addr(brk, j)) == Some((f * 4096) as u32);
                    let a = c.pv.frame_of(page_addr(brk, j)).unwrap();
                    assert(!used[a as int / 4096]);
                }
            }
        },
    }
}

/// A run of commitments keeps the number of frames.
pub proof fn lemma_commit_len(pv: PagingView, used: Seq<bool>, base: u32, n: nat)
    ensures
        commit_pages(pv, used, base, n).used.len() == used.len(),
    decreases n,
{
    if n > 0 {
        lemma_commit_len(pv, used, base, (n - 1) as nat);
        let prev = commit_pages(pv, used, base, (n - 1) as nat);
        if prev.status is Done {
            lemma_first_fit(prev.used);
            match first_fit(prev.used) {
                Some(f) => {
                    let taken = prev.used.update(f, true);
                    let v = page_addr(base, n - 1);
                    if map_outcome(prev.pv, taken, v, (f * 4096) as u32, vmalloc_flags()) is Ok {
                        lemma_map_frames(prev.pv, taken, v, (f * 4096) as u32, vmalloc_flags());
                    }
                },
                None => {},
            }
        }
    }
}

/// Unmaps the first `n` pages from `base` on and frees their frames.
fn release_range(frames: &mut FrameAllocator, pt: &mut PageTables, base: u32, n: u32) -> (r: Result<
    (),
    MemError,
>)
    requires
        old(frames).wf(),
        old(pt).wf(),
        base + n * 4096 <= u32::MAX,
    ensures
        final(frames).wf(),
        final(pt).wf(),
        final(frames)@.len() == old(frames)@.len(),
        final(pt)@ == release_pages(old(pt)@, old(frames)@, base, n as nat).pv,
        final(frames)@ == release_pages(old(pt)@, old(frames)@, base, n as nat).used,
        r == match release_pages(old(pt)@, old(frames)@, base, n as nat).err {
            None => Ok::<(), MemError>(()),
            Some(e) => Err::<(), MemError>(e),
        },
{
    let mut page: u32 = 0;
    while page < n
        invariant
            page <= n,
            base + n * 4096 <= u32::MAX,
            frames.wf(),
            pt.wf(),
            frames@.len() == old(frames)@.len(),
            release_pages(old(pt)@, old(frames)@, base, page as nat) == (Released {
                pv: pt@,
                used: frames@,
                err: None,
            }),
        decreases n - page,
    {
        let vaddr: u32 = base + page * PAGE_SIZE;
        match unmap_page(pt, vaddr) {
            None => {},
            Some(phys) => {
                match free_frame(frames, phys) {
                    Ok(_) => {},
                    Err(e) => {
                        proof {
                            lemma_release_stops(old(pt)@, old(frames)@, base, (page + 1) as nat, n as nat);
                        }
                        return Err(e);
                    },
                }
            },
        }
        page += 1;
    }
    Ok(())
}

/// Commits the first `n` pages from `base` on.
fn commit_range(frames: &mut FrameAllocator, pt: &mut PageTables, base: u32, n: u32) -> (r: Result<
    Option<u32>,
    MemError,
>)
    requires
        old(frames).wf(),
        old(pt).wf(),
        base + n * 4096 <= u32::MAX,
    ensures
        final(frames).wf(),
        final(pt).wf(),
        final(frames)@.len() == old(frames)@.len(),
        final(pt)@ == commit_pages(old(pt)@, old(frames)@, base, n as nat).pv,
        final(frames)@ == commit_pages(old(pt)@, old(frames)@, base, n as nat).used,
        match commit_pages(old(pt)@, old(frames)@, base, n as nat).status {
            CommitStatus::Done => r == Ok::<Option<u32>, MemError>(None),
            CommitStatus::Exhausted(k) => r == Ok::<Option<u32>, MemError>(Some(k as u32)) && 0 <= k < n,
            CommitStatus::Failed(e) => r == Err::<Option<u32>, MemError>(e),
        },
{
    let mut page: u32 = 0;
    while page < n
        invariant
            page <= n,
            base + n * 4096 <= u32::MAX,
            frames.wf(),
            pt.wf(),
            frames@.len() == old(frames)@.len(),
            commit_pages(old(pt)@, old(frames)@, base, page as nat) == (Committed {
                pv: pt@,
                used: frames@,
                status: CommitStatus::Done,
            }),
        decreases n - page,
    {
        let phys: u32 = match alloc_frame(frames) {
            Some(phys) => phys,
            None => {
                proof {
                    lemma_commit_stops(old(pt)@, old(frames)@, base, (page + 1) as nat, n as nat);
                }
                return Ok(Some(page));
            },
        };
        let vaddr: u32 = base + page * PAGE_SIZE;
        match map_page(pt, frames, vaddr, phys, PAGE_PRESENT | PAGE_WRITABLE) {
            Ok(_) => {},
            Err(e) => {
                proof {
                    lemma_commit_stops(old(pt)@, old(frames)@, base, (page + 1) as nat, n as nat);
                }
                return Err(e);
            },
        }
        zero_page(pt, vaddr);
        page += 1;
    }
    Ok(None)
}

/// How many of the first `n` slots of `entries` hold a live allocation.
pub open spec fn active_count(entries: Seq<VmallocEntry>, n: int) -> int
    decreases n,
{
    if n <= 0 {
        0
    } else {
        active_count(entries, n - 1) + if entries[n - 1].in_use { 1int } else { 0int }
    }
}

/// The lowest slot at or above `from` that holds no live allocation.
pub open spec fn free_slot_from(entries: Seq<VmallocEntry>, from: int) -> Option<int>
    decreases entries.len() - from,
{
    if from < 0 || from >= entries.len() {
        None
    } else if !entries[from].in_use {
        Some(from)
    } else {
        free_slot_from(entries, from + 1)
    }
}

/// The lowest slot at or above `from` that holds the live allocation at `ptr`.
pub open spec fn slot_from(entries: Seq<VmallocEntry>, ptr: u32, from: int) -> Option<int>
    decreases entries.len() - from,
{
    if from < 0 || from >= entries.len() {
        None
    } else if entries[from].in_use && entries[from].vaddr == ptr {
        Some(from)
    } else {
        slot_from(entries, ptr, from + 1)
    }
}

/// The allocator as plain values.
pub struct VmallocView {
    /// The allocation table.
    pub entries: Seq<VmallocEntry>,
    /// The cursor: the next address to hand out.
    pub brk: int,
    /// The running count of live allocations.
    pub count: int,
}

impl VmallocView {
    /// The cursor lies in the region on a page boundary.  Every live
    /// allocation is made of whole pages between the start of the region and
    /// the cursor, no two of them overlap, and the running count is their
    /// number.
    pub open spec fn wf(self) -> bool {
        &&& self.entries.len() == MAX_VMALLOC_ENTRIES
        &&& VMALLOC_BASE <= self.brk <= VMALLOC_END
        &&& self.brk % 4096 == 0
        &&& self.count == active_count(self.entries, self.entries.len() as int)
        &&& forall|i: int|
            0 <= i < self.entries.len() && (#[trigger] self.entries[i]).in_use ==> {
                &&& self.entries[i].vaddr % 4096 == 0
                &&& self.entries[i].size % 4096 == 0
                &&& self.entries[i].size > 0
                &&& VMALLOC_BASE <= self.entries[i].vaddr
                &&& self.entries[i].vaddr + self.entries[i].size <= self.brk
            }
        &&& forall|i: int, j: int|
            0 <= i < self.entries.len() && 0 <= j < self.entries.len() && i != j && (
            #[trigger] self.entries[i]).in_use && (#[trigger] self.entries[j]).in_use ==> {
                ||| self.entries[i].vaddr + self.entries[i].size <= self.entries[j].vaddr
                ||| self.entries[j].vaddr + self.entries[j].size <= self.entries[i].vaddr
            }
    }

    /// The allocator after `size` bytes at the cursor have been recorded in
    /// slot `slot`.
    pub open spec fn recorded(self, slot: int, size: u32) -> Self {
        VmallocView {
            entries: self.entries.update(slot, VmallocEntry { vaddr: self.brk as u32, size, in_use: true }),
            brk: self.brk + size,
            count: self.count + 1,
        }
    }

    /// The allocator after slot `slot` has been given up.
    pub open spec fn cleared(self, slot: int) -> Self {
        VmallocView {
            entries: self.entries.update(slot, VmallocEntry { vaddr: 0, size: 0, in_use: false }),
            brk: self.brk,
            count: self.count - 1,
        }
    }

    /// The recorded size of the live allocation at `ptr`; zero for the null
    /// address and where there is none.
    pub open spec fn size_of(self, ptr: u32) -> int {
        if ptr == 0 {
            0
        } else {
            match slot_from(self.entries, ptr, 0) {
                Some(i) => self.entries[i].size as int,
                None => 0,
            }
        }
    }
}

/// What an allocation or a release leads to.
pub struct VmallocOutcome<T> {
    /// What the call returns.
    pub result: Result<T, MemError>,
    /// The allocator afterwards.
    pub vm: VmallocView,
    /// The page tables afterwards.
    pub pv: PagingView,
    /// The frame accounting afterwards.
    pub used: Seq<bool>,
}

/// Allocating `size` bytes: the size is rounded up to whole pages, a free
/// slot of the table is found, the region is extended by that many bytes, and
/// the new memory is recorded in the slot.  `Ok(None)` for a size of zero,
/// with a full table, and when the region cannot be extended.
pub open spec fn vmalloc_outcome(vm: VmallocView, pv: PagingView, used: Seq<bool>, size: u32) -> VmallocOutcome<
    Option<u32>,
> {
    let alloc = align_up_spec(size as int, 4096);
    if size == 0 || alloc > VMALLOC_MAX_SIZE {
        VmallocOutcome { result: Ok(None), vm, pv, used }
    } else {
        match free_slot_from(vm.entries, 0) {
            None => VmallocOutcome { result: Ok(None), vm, pv, used },
            Some(slot) => {
                let b = vbrk_outcome(vm.brk as u32, pv, used, alloc as u32);
                match b.result {
                    Ok(Some(base)) => VmallocOutcome {
                        result: Ok(Some(base)),
                        vm: vm.recorded(slot, alloc as u32),
                        pv: b.pv,
                        used: b.used,
                    },
                    other => VmallocOutcome { result: other, vm, pv: b.pv, used: b.used },
                }
            },
        }
    }
}

/// Freeing the allocation at `ptr`: its pages are released one by one and
/// its slot is given up.  Nothing happens for the null address.  An address
/// at which no live allocation starts is an error, and so is a page whose
/// frame is free already; the slot then stays as it is.
pub open spec fn vfree_outcome(vm: VmallocView, pv: PagingView, used: Seq<bool>, ptr: u32) -> VmallocOutcome<()> {
    if ptr == 0 {
        VmallocOutcome { result: Ok(()), vm, pv, used }
    } else {
        match slot_from(vm.entries, ptr, 0) {
            None => VmallocOutcome { result: Err(MemError::UnknownPointer), vm, pv, used },
            Some(slot) => {
                let r = release_pages(pv, used, ptr, (vm.entries[slot].size as int / 4096) as nat);
                match r.err {
                    None => VmallocOutcome { result: Ok(()), vm: vm.cleared(slot), pv: r.pv, used: r.used },
                    Some(e) => VmallocOutcome { result: Err(e), vm, pv: r.pv, used: r.used },
                }
            },
        }
    }
}

/// Changing one slot changes the count of live allocations by that slot alone.
pub proof fn lemma_active_update(entries: Seq<VmallocEntry>, n: int, i: int, e: VmallocEntry)
    requires
        0 <= i < entries.len(),
        n <= entries.len(),
    ensures
        active_count(entries.update(i, e), n) == active_count(entries, n) + if i < n {
            (if e.in_use { 1int } else { 0int }) - (if entries[i].in_use { 1int } else { 0int })
        } else {
            0int
        },
        0 <= active_count(entries, n) || n < 0,
    decreases n,
{
    if n > 0 {
        lemma_active_update(entries, n - 1, i, e);
    }
}

/// A count of live allocations lies between zero and the number of slots.
pub proof fn lemma_active_bounds(entries: Seq<VmallocEntry>, n: int)
    requires
        0 <= n,
    ensures
        0 <= active_count(entries, n) <= n,
    decreases n,
{
    if n > 0 {
        lemma_active_bounds(entries, n - 1);
    }
}

/// What the searches of the table find.
pub proof fn lemma_slots(entries: Seq<VmallocEntry>, ptr: u32, from: int)
    requires
        0 <= from,
    ensures
        match free_slot_from(entries, from) {
            Some(i) => from <= i < entries.len() && !entries[i].in_use,
            None => forall|k: int| from <= k < entries.len() ==> (#[trigger] entries[k]).in_use,
        },
        match slot_from(entries, ptr, from) {
            Some(i) => from <= i < entries.len() && entries[i].in_use && entries[i].vaddr == ptr,
            None => forall|k: int|
                from <= k < entries.len() ==> !((#[trigger] entries[k]).in_use && entries[k].vaddr == ptr),
        },
    decreases entries.len() - from,
{
    if from < entries.len() {
        lemma_slots(entries, ptr, from + 1);
    }
}

/// The allocator of virtually contiguous memory.
pub struct Vmalloc {
    table: Vec<VmallocEntry>,
    brk: u32,
    count: u32,
}

impl Vmalloc {
    /// The allocator as plain values.
    pub closed spec fn view(&self) -> VmallocView {
        VmallocView { entries: self.table@, brk: self.brk as int, count: self.count as int }
    }

    /// The table is consistent with the cursor.
    pub open spec fn wf(&self) -> bool {
        self@.wf()
    }

    /// The lowest slot that holds no live allocation.
    fn find_free_entry(&self) -> (r: Option<usize>)
        requires
            self.wf(),
        ensures
            match r {
                Some(i) => free_slot_from(self@.entries, 0) == Some(i as int) && i < MAX_VMALLOC_ENTRIES,
                None => free_slot_from(self@.entries, 0) is None,
            },
    {
        let mut i: usize = 0;
        while i < MAX_VMALLOC_ENTRIES
            invariant
                i <= MAX_VMALLOC_ENTRIES,
                self.wf(),
                free_slot_from(self@.entries, 0) == free_slot_from(self@.entries, i as int),
            decreases MAX_VMALLOC_ENTRIES - i,
        {
            if !self.table[i].in_use {
                return Some(i);
            }
            i += 1;
        }
        None
    }

    /// The lowest slot that holds the live allocation at `ptr`.
    fn find_entry(&self, ptr: u32) -> (r: Option<usize>)
        requires
            self.wf(),
        ensures
            match r {
                Some(i) => slot_from(self@.entries, ptr, 0) == Some(i as int) && i < MAX_VMALLOC_ENTRIES
                    && self@.entries[i as int].in_use && self@.entries[i as int].vaddr == ptr,
                None => slot_from(self@.entries, ptr, 0) is None,
            },
    {
        let mut i: usize = 0;
        while i < MAX_VMALLOC_ENTRIES
            invariant
                i <= MAX_VMALLOC_ENTRIES,
                self.wf(),
                slot_from(self@.entries, ptr, 0) == slot_from(self@.entries, ptr, i as int),
            decreases MAX_VMALLOC_ENTRIES - i,
        {
            if self.table[i].in_use && self.table[i].vaddr == ptr {
                return Some(i);
            }
            i += 1;
        }
        None
    }
}

/// An allocator with nothing handed out: the cursor is at the start of the
/// region and every slot is free.
pub fn init() -> (vm: Vmalloc)
    ensures
        vm.wf(),
        vm@.brk == VMALLOC_BASE,
        vm@.count == 0,
        forall|i: int| 0 <= i < MAX_VMALLOC_ENTRIES ==> !(#[trigger] vm@.entries[i]).in_use,
{
    let vm = Vmalloc {
        table: vec![VmallocEntry { vaddr: 0, size: 0, in_use: false }; MAX_VMALLOC_ENTRIES],
        brk: VMALLOC_BASE,
        count: 0,
    };
    proof {
        lemma_all_free(vm.table@, MAX_VMALLOC_ENTRIES as int);
    }
    vm
}

/// A table without a live allocation counts none.
proof fn lemma_all_free(entries: Seq<VmallocEntry>, n: int)
    requires
        0 <= n <= entries.len(),
        forall|i: int| 0 <= i < n ==> !(#[trigger] entries[i]).in_use,
    ensures
        active_count(entries, n) == 0,
    decreases n,
{
    if n > 0 {
        lemma_all_free(entries, n - 1);
    }
}

/// Extends the region by `increment` bytes, rounded up to whole pages, and
/// returns the first address of the new memory.
///
/// For each page a frame is taken from `frames` and mapped at the next
/// address of the region.  The cursor moves up by the bytes committed; it
/// never moves down.  `Ok(None)` when the region would pass its end, with
/// nothing changed, and when the frames run out: the pages committed by this
/// call are then unmapped and their frames freed, and the cursor stays.  An
/// increment of zero returns the cursor.
pub fn vbrk(vm: &mut Vmalloc, frames: &mut FrameAllocator, pt: &mut PageTables, increment: u32) -> (r: Result<
    Option<u32>,
    MemError,
>)
    requires
        old(vm).wf(),
        old(frames).wf(),
        old(pt).wf(),
    ensures
        final(vm).wf(),
        final(frames).wf(),
        final(pt).wf(),
        final(frames)@.len() == old(frames)@.len(),
        r == vbrk_outcome(old(vm)@.brk as u32, old(pt)@, old(frames)@, increment).result,
        final(vm)@ == (VmallocView {
            brk: vbrk_outcome(old(vm)@.brk as u32, old(pt)@, old(frames)@, increment).brk,
            ..old(vm)@
        }),
        final(pt)@ == vbrk_outcome(old(vm)@.brk as u32, old(pt)@, old(frames)@, increment).pv,
        final(frames)@ == vbrk_outcome(old(vm)@.brk as u32, old(pt)@, old(frames)@, increment).used,
        final(vm)@.brk >= old(vm)@.brk,
{
    if increment == 0 {
        return Ok(Some(vm.brk));
    }
    let brk: u32 = vm.brk;
    if increment > VMALLOC_MAX_SIZE {
        return Ok(None);
    }
    let pages_needed: u32 = (increment + (PAGE_SIZE - 1)) / PAGE_SIZE;
    if pages_needed * PAGE_SIZE > VMALLOC_END - brk {
        return Ok(None);
    }
    let new_brk: u32 = brk + pages_needed * PAGE_SIZE;
    match commit_range(frames, pt, brk, pages_needed) {
        Err(e) => Err(e),
        Ok(None) => {
            vm.brk = new_brk;
            Ok(Some(brk))
        },
        Ok(Some(committed)) => match release_range(frames, pt, brk, committed) {
            Ok(_) => Ok(None),
            Err(e) => Err(e),
        },
    }
}

/// Allocates `size` bytes of virtually contiguous memory and returns its
/// first address, which lies on a page boundary.
///
/// `Ok(None)` for a size of zero, when all slots of the table are taken, and
/// when the region cannot be extended.
pub fn vmalloc(vm: &mut Vmalloc, frames: &mut FrameAllocator, pt: &mut PageTables, size: u32) -> (r: Result<
    Option<u32>,
    MemError,
>)
    requires
        old(vm).wf(),
        old(frames).wf(),
        old(pt).wf(),
    ensures
        final(vm).wf(),
        final(frames).wf(),
        final(pt).wf(),
        final(frames)@.len() == old(frames)@.len(),
        r == vmalloc_outcome(old(vm)@, old(pt)@, old(frames)@, size).result,
        final(vm)@ == vmalloc_outcome(old(vm)@, old(pt)@, old(frames)@, size).vm,
        final(pt)@ == vmalloc_outcome(old(vm)@, old(pt)@, old(frames)@, size).pv,
        final(frames)@ == vmalloc_outcome(old(vm)@, old(pt)@, old(frames)@, size).used,
        final(vm)@.brk >= old(vm)@.brk,
        r matches Ok(Some(base)) ==> base == old(vm)@.brk && base % 4096 == 0 && final(vm)@.brk >= base + size
            && final(vm)@.brk > base,
{
    if size == 0 {
        return Ok(None);
    }
    proof {
        lemma_align_bounds(size as int, 4096);
    }
    if size > VMALLOC_MAX_SIZE {
        return Ok(None);
    }
    let alloc_size: u32 = super::align_up(size, PAGE_SIZE);
    let entry_idx: usize = match vm.find_free_entry() {
        Some(i) => i,
        None => {
            return Ok(None);
        },
    };
    let vaddr: u32 = match vbrk(vm, frames, pt, alloc_size) {
        Ok(Some(vaddr)) => vaddr,
        Ok(None) => {
            return Ok(None);
        },
        Err(e) => {
            return Err(e);
        },
    };
    proof {
        lemma_active_update(
            vm@.entries,
            MAX_VMALLOC_ENTRIES as int,
            entry_idx as int,
            VmallocEntry { vaddr, size: alloc_size, in_use: true },
        );
        lemma_active_bounds(vm@.entries, MAX_VMALLOC_ENTRIES as int);
    }
    let ghost mid = vm@;
    proof {
        lemma_slots(old(vm)@.entries, 0, 0);
        assert(!mid.entries[entry_idx as int].in_use);
        assert(vaddr == old(vm)@.brk);
        assert(pages_for(alloc_size) * 4096 == alloc_size);
        assert(mid.brk == old(vm)@.brk + alloc_size);
        assert(mid.entries == old(vm)@.entries);
    }
    vm.table.set(entry_idx, VmallocEntry { vaddr, size: alloc_size, in_use: true });
    vm.count = vm.count + 1;
    proof {
        let after = vm@.entries;
        assert forall|i: int| 0 <= i < after.len() && (#[trigger] after[i]).in_use implies {
            &&& after[i].vaddr % 4096 == 0
            &&& after[i].size % 4096 == 0
            &&& after[i].size > 0
            &&& VMALLOC_BASE <= after[i].vaddr
            &&& after[i].vaddr + after[i].size <= vm@.brk
        } by {
            if i != entry_idx {
                assert(after[i] == mid.entries[i]);
            }
        }
        assert forall|i: int, j: int|
            0 <= i < after.len() && 0 <= j < after.len() && i != j && (#[trigger] after[i]).in_use && (
            #[trigger] after[j]).in_use implies {
            ||| after[i].vaddr + after[i].size <= after[j].vaddr
            ||| after[j].vaddr + after[j].size <= after[i].vaddr
        } by {
            if i != entry_idx {
                assert(after[i] == mid.entries[i]);
            }
            if j != entry_idx {
                assert(after[j] == mid.entries[j]);
            }
        }
    }
    Ok(Some(vaddr))
}

/// Frees the allocation that starts at `ptr`: every page of it is unmapped
/// and its frame freed, and the slot is given up.  The cursor stays where it
/// is.
///
/// Freeing the null address does nothing.  An address at which no live
/// allocation starts is an error, with nothing changed.
pub fn vfree(vm: &mut Vmalloc, frames: &mut FrameAllocator, pt: &mut PageTables, ptr: u32) -> (r: Result<
    (),
    MemError,
>)
    requires
        old(vm).wf(),
        old(frames).wf(),
        old(pt).wf(),
    ensures
        final(vm).wf(),
        final(frames).wf(),
        final(pt).wf(),
        final(frames)@.len() == old(frames)@.len(),
        r == vfree_outcome(old(vm)@, old(pt)@, old(frames)@, ptr).result,
        final(vm)@ == vfree_outcome(old(vm)@, old(pt)@, old(frames)@, ptr).vm,
        final(pt)@ == vfree_outcome(old(vm)@, old(pt)@, old(frames)@, ptr).pv,
        final(frames)@ == vfree_outcome(old(vm)@, old(pt)@, old(frames)@, ptr).used,
        final(vm)@.brk == old(vm)@.brk,
{
    if ptr == 0 {
        return Ok(());
    }
    let i: usize = match vm.find_entry(ptr) {
        Some(i) => i,
        None => {
            return Err(MemError::UnknownPointer);
        },
    };
    let entry: VmallocEntry = vm.table[i];
    let pages: u32 = entry.size / PAGE_SIZE;
    match release_range(frames, pt, ptr, pages) {
        Ok(_) => {},
        Err(e) => {
            return Err(e);
        },
    }
    proof {
        lemma_active_update(
            vm@.entries,
            MAX_VMALLOC_ENTRIES as int,
            i as int,
            VmallocEntry { vaddr: 0, size: 0, in_use: false },
        );
        lemma_active_bounds(vm@.entries.update(i as int, VmallocEntry { vaddr: 0, size: 0, in_use: false }), MAX_VMALLOC_ENTRIES as int);
    }
    vm.table.set(i, VmallocEntry { vaddr: 0, size: 0, in_use: false });
    vm.count = vm.count - 1;
    Ok(())
}

/// The recorded size of the live allocation that starts at `ptr`; zero for
/// the null address and where there is none.
pub fn vsize(vm: &Vmalloc, ptr: u32) -> (r: u32)
    requires
        vm.wf(),
    ensures
        r == vm@.size_of(ptr),
{
    if ptr == 0 {
        return 0;
    }
    match vm.find_entry(ptr) {
        Some(i) => vm.table[i].size,
        None => 0,
    }
}

/// An address that was handed out and freed is not handed out again: the
/// next allocation starts at the cursor, which has moved past it.
pub proof fn lemma_vmalloc_no_reuse(
    vm: VmallocView,
    pv: PagingView,
    used: Seq<bool>,
    size1: u32,
    size2: u32,
)
    requires
        vm.wf(),
        vmalloc_outcome(vm, pv, used, size1).result matches Ok(Some(_)),
    ensures
        ({
            let first = vmalloc_outcome(vm, pv, used, size1);
            let v1 = first.result.unwrap().unwrap();
            let freed = vfree_outcome(first.vm, first.pv, first.used, v1);
            let second = vmalloc_outcome(freed.vm, freed.pv, freed.used, size2);
            &&& first.vm.brk > v1
            &&& freed.vm.brk == first.vm.brk
            &&& second.result matches Ok(Some(v2)) ==> v2 > v1
        }),
{
    lemma_align_bounds(size1 as int, 4096);
    lemma_align_bounds(size2 as int, 4096);
}

/// Freeing an allocation right after it was made succeeds: every page of it
/// is unmapped, the frames of its pages are free again, the slot is given
/// up, and the cursor stays behind the allocation.
pub proof fn lemma_vfree_after_vmalloc(vm: VmallocView, pv: PagingView, used: Seq<bool>, size: u32)
    requires
        vm.wf(),
        pv.wf(),
        used.len() <= MAX_FRAMES,
        vmalloc_outcome(vm, pv, used, size).result matches Ok(Some(_)),
    ensures
        ({
            let made = vmalloc_outcome(vm, pv, used, size);
            let base = made.result.unwrap().unwrap();
            let freed = vfree_outcome(made.vm, made.pv, made.used, base);
            let pages = pages_for(size);
            &&& base == vm.brk
            &&& freed.result == Ok::<(), MemError>(())
            &&& freed.vm.brk == vm.brk + pages * 4096
            &&& freed.vm.count == vm.count
            &&& freed.vm.size_of(base) == 0
            &&& forall|j: int| 0 <= j < pages ==> freed.pv.frame_of(#[trigger] page_addr(base, j)) is None
            &&& count_used(freed.used, used.len() as int) == count_used(made.used, used.len() as int) - pages
            &&& forall|f: int| 0 <= f < used.len() && used[f] ==> #[trigger] freed.used[f]
        }),
{
    lemma_align_bounds(size as int, 4096);
    let alloc = align_up_spec(size as int, 4096) as u32;
    let pages = pages_for(size);
    assert(pages_for(alloc) == pages);
    assert(pages * 4096 == alloc);
    let made = vmalloc_outcome(vm, pv, used, size);
    let base = made.result.unwrap().unwrap();
    lemma_slots(vm.entries, base, 0);
    let slot = free_slot_from(vm.entries, 0).unwrap();
    let brk = vm.brk as u32;
    lemma_vbrk(brk, pv, used, alloc);
    lemma_commit_done(pv, used, brk, pages as nat);
    lemma_commit_len(pv, used, brk, pages as nat);
    // The new entry is the only live one that starts at the old cursor.
    lemma_slots(made.vm.entries, base, 0);
    assert(slot_from(made.vm.entries, base, 0) == Some(slot)) by {
        let found = slot_from(made.vm.entries, base, 0);
        assert(made.vm.entries[slot].in_use && made.vm.entries[slot].vaddr == base);
        assert(found is Some);
        let i = found.unwrap();
        if i != slot {
            assert(made.vm.entries[i] == vm.entries[i]);
            assert(vm.entries[i].vaddr + vm.entries[i].size <= vm.brk);
        }
    }
    assert(made.vm.entries[slot].size == alloc);
    lemma_release_mapped(made.pv, made.used, base, pages as nat);
    let freed = vfree_outcome(made.vm, made.pv, made.used, base);
    lemma_slots(freed.vm.entries, base, 0);
    assert(slot_from(freed.vm.entries, base, 0) is None) by {
        let found = slot_from(freed.vm.entries, base, 0);
        if found is Some {
            let i = found.unwrap();
            assert(i != slot);
            assert(freed.vm.entries[i] == vm.entries[i]);
            assert(vm.entries[i].vaddr + vm.entries[i].size <= vm.brk);
        }
    }
    assert forall|f: int| 0 <= f < used.len() && used[f] implies #[trigger] freed.used[f] by {
        assert(made.used[f]);
        if backs(made.pv, base, pages as nat, f) {
            let j = choose|j: int|
                0 <= j < pages && made.pv.frame_of(#[trigger] page_addr(base, j)) == Some((f * 4096) as u32);
            let a = made.pv.frame_of(page_addr(base, j)).unwrap();
            assert(!used[a as int / 4096]);
        }
    }
}

/// One line of the listing of live allocations.
#[derive(Clone, Copy, Debug, PartialEq, Eq, Structural)]
pub struct VmallocRow {
    /// The slot of the table.
    pub slot: u32,
    /// First address of the allocation.
    pub vaddr: u32,
    /// First address behind it.
    pub end: u32,
    /// Pages of the allocation.
    pub pages: u32,
}

/// The figures of the allocator that the kernel shows to its user.
#[derive(Debug, PartialEq, Eq)]
pub struct VmallocInfo {
    /// First address of the region.
    pub region_start: u32,
    /// First address past the region.
    pub region_end: u32,
    /// The cursor.
    pub brk: u32,
    /// Bytes of the region that were handed out so far.
    pub used_bytes: u32,
    /// Pages of the region that were handed out so far.
    pub used_pages: u32,
    /// Live allocations.
    pub count: u32,
    /// The live allocations, in the order of their slots.
    pub allocations: Vec<VmallocRow>,
}

/// The line for the live allocation in slot `slot`.
pub open spec fn row_of(slot: int, e: VmallocEntry) -> VmallocRow {
    VmallocRow { slot: slot as u32, vaddr: e.vaddr, end: (e.vaddr + e.size) as u32, pages: e.size / 4096 }
}

/// The lines for the live allocations among the first `n` slots.
pub open spec fn active_rows(entries: Seq<VmallocEntry>, n: int) -> Seq<VmallocRow>
    decreases n,
{
    if n <= 0 {
        Seq::empty()
    } else if entries[n - 1].in_use {
        active_rows(entries, n - 1).push(row_of(n - 1, entries[n - 1]))
    } else {
        active_rows(entries, n - 1)
    }
}

/// The figures of the allocator, with the listing of the live allocations.
pub fn vmalloc_info(vm: &Vmalloc) -> (r: VmallocInfo)
    requires
        vm.wf(),
    ensures
        r.region_start == VMALLOC_BASE,
        r.region_end == VMALLOC_END,
        r.brk == vm@.brk,
        r.used_bytes == vm@.brk - VMALLOC_BASE,
        r.used_pages == (vm@.brk - VMALLOC_BASE) / 4096,
        r.count == vm@.count,
        r.allocations@ == active_rows(vm@.entries, MAX_VMALLOC_ENTRIES as int),
        r.allocations@.len() == vm@.count,
{
    let mut rows: Vec<VmallocRow> = Vec::new();
    let mut i: usize = 0;
    while i < MAX_VMALLOC_ENTRIES
        invariant
            i <= MAX_VMALLOC_ENTRIES,
            vm.wf(),
            rows@ == active_rows(vm@.entries, i as int),
            rows@.len() == active_count(vm@.entries, i as int),
        decreases MAX_VMALLOC_ENTRIES - i,
    {
        let e: VmallocEntry = vm.table[i];
        if e.in_use {
            rows.push(VmallocRow { slot: i as u32, vaddr: e.vaddr, end: e.vaddr + e.size, pages: e.size / PAGE_SIZE });
        }
        i += 1;
    }
    VmallocInfo {
        region_start: VMALLOC_BASE,
        region_end: VMALLOC_END,
        brk: vm.brk,
        used_bytes: vm.brk - VMALLOC_BASE,
        used_pages: (vm.brk - VMALLOC_BASE) / PAGE_SIZE,
        count: vm.count,
        allocations: rows,
    }
}

} // verus!
