//! Physical frame allocator.
//!
//! Physical memory is handed out in frames of 4 KiB.  One bit per frame
//! records whether the frame is in use (1) or free (0).  Frames beyond the
//! detected memory are never free.

use vstd::prelude::*;
use super::KernelImage;
use super::MemError;
use super::MmapEntry;
use super::MultibootInfo;
use super::PAGE_SIZE;
use super::has_memory_info;
use super::has_mmap;

verus! {

/// Number of frames in a 32-bit physical address space.
pub const MAX_FRAMES: u32 = 0x10_0000;

/// Bytes in a bit vector that covers `MAX_FRAMES` frames.
pub const BITMAP_SIZE: usize = 0x2_0000;

/// Frames below 1 MiB.  They are never handed to the free pool, and a search
/// for a free frame looks at them last.
pub const LOW_MEMORY_FRAMES: u32 = 256;

/// Bit `bit` of `byte` is set.
pub open spec fn bit_of(byte: u8, bit: u32) -> bool {
    byte & (1u8 << bit) != 0
}

/// The bit of frame `frame` in the bit vector `bytes`.
pub open spec fn frame_bit(bytes: Seq<u8>, frame: int) -> bool {
    bit_of(bytes[frame / 8], (frame % 8) as u32)
}

/// How many of the first `n` frames are in use.
pub open spec fn count_used(used: Seq<bool>, n: int) -> int
    decreases n,
{
    if n <= 0 {
        0
    } else {
        count_used(used, n - 1) + if used[n - 1] { 1int } else { 0int }
    }
}

/// The lowest free frame in `lo..hi`, if there is one.
pub open spec fn lowest_free(used: Seq<bool>, lo: int, hi: int) -> Option<int>
    decreases hi - lo,
{
    if lo >= hi {
        None
    } else if !used[lo] {
        Some(lo)
    } else {
        lowest_free(used, lo + 1, hi)
    }
}

/// The frame that a single allocation takes: the lowest free frame at or
/// above 1 MiB, or else the lowest free frame below it.
pub open spec fn first_fit(used: Seq<bool>) -> Option<int> {
    let n = used.len() as int;
    let low = if n < LOW_MEMORY_FRAMES { n } else { LOW_MEMORY_FRAMES as int };
    match lowest_free(used, LOW_MEMORY_FRAMES as int, n) {
        Some(f) => Some(f),
        None => lowest_free(used, 0, low),
    }
}

/// The `count` frames from `base` on are all free.
pub open spec fn run_is_free(used: Seq<bool>, base: int, count: int) -> bool {
    forall|i: int| 0 <= i < count ==> !#[trigger] used[base + i]
}

/// The lowest base at or above `lo` of a run of `count` free frames.
pub open spec fn first_run(used: Seq<bool>, count: int, lo: int) -> Option<int>
    decreases used.len() - lo,
{
    if lo < 0 || count <= 0 || lo + count > used.len() {
        None
    } else if run_is_free(used, lo, count) {
        Some(lo)
    } else {
        first_run(used, count, lo + 1)
    }
}

/// The frames `base..base + count` of `used`, marked as in use.
pub open spec fn mark_run(used: Seq<bool>, base: int, count: int) -> Seq<bool> {
    Seq::new(used.len(), |f: int| used[f] || base <= f < base + count)
}

/// The frames `base..base + count` of `used`, marked as free.
pub open spec fn clear_run(used: Seq<bool>, base: int, count: int) -> Seq<bool> {
    Seq::new(used.len(), |f: int| used[f] && !(base <= f < base + count))
}

/// Frame `frame` lies wholly inside the usable region `region`, a base
/// address and a length in bytes.  A region that would pass the end of the
/// address space is cut off there.
pub open spec fn region_covers(region: (u32, u32), frame: int) -> bool {
    let end = if region.0 + region.1 > u32::MAX { u32::MAX as int } else { region.0 + region.1 };
    region.0 <= frame * 4096 && (frame + 1) * 4096 <= end
}

/// One of the first `n` regions of `regions` covers frame `frame`.
pub open spec fn covered_by_first(regions: Seq<(u32, u32)>, n: int, frame: int) -> bool {
    exists|i: int| 0 <= i < n && region_covers(#[trigger] regions[i], frame)
}

/// Some region of `regions` covers frame `frame`.
pub open spec fn is_usable(regions: Seq<(u32, u32)>, frame: int) -> bool {
    covered_by_first(regions, regions.len() as int, frame)
}

/// Frame `frame` holds a part of the kernel image.
pub open spec fn in_kernel(image: KernelImage, frame: int) -> bool {
    image.start / 4096 <= frame && frame * 4096 < image.end
}

/// Whether frame `frame` is in use right after initialisation: low memory
/// and the kernel image always are, and any other frame is unless a usable
/// region covers it.
pub open spec fn initially_used(regions: Seq<(u32, u32)>, image: KernelImage, frame: int) -> bool {
    frame < LOW_MEMORY_FRAMES || in_kernel(image, frame) || !is_usable(regions, frame)
}

/// The number of frames managed for `total_memory` bytes of detected memory.
/// When no memory was detected, the whole address space is assumed.
pub open spec fn frames_for(total_memory: u32) -> int {
    if total_memory > 0 {
        total_memory as int / 4096
    } else {
        MAX_FRAMES as int
    }
}

/// The outcome of freeing the single frame at `addr`: it is an error when
/// the address does not lie on a frame boundary, and when the frame is free
/// already.  A frame that is not managed counts as in use.
pub open spec fn free_frame_check(used: Seq<bool>, addr: u32) -> Result<(), MemError> {
    if addr % 4096 != 0 {
        Err(MemError::Misaligned)
    } else if addr / 4096 < used.len() && !used[addr as int / 4096] {
        Err(MemError::DoubleFree)
    } else {
        Ok(())
    }
}

/// The accounting after the frame at `addr` has been given back: a managed
/// frame is free then, and for a frame that is not managed nothing changes.
pub open spec fn released(used: Seq<bool>, addr: u32) -> Seq<bool> {
    if addr / 4096 < used.len() {
        used.update(addr as int / 4096, false)
    } else {
        used
    }
}

/// The first frame of the run that a request for `count` contiguous frames
/// takes.  A single frame is found as by a single allocation; a longer run is
/// searched first-fit from 1 MiB upwards only.
pub open spec fn contiguous_fit(used: Seq<bool>, count: u32) -> Option<int> {
    if count == 0 {
        None
    } else if count == 1 {
        first_fit(used)
    } else {
        first_run(used, count as int, LOW_MEMORY_FRAMES as int)
    }
}

/// A request to the allocator: for one frame, or to give back the frame at
/// an address.
pub enum FrameOp {
    Alloc,
    Free(u32),
}

/// The accounting after the request `op`.  A request that fails changes
/// nothing.
pub open spec fn apply_op(used: Seq<bool>, op: FrameOp) -> Seq<bool> {
    match op {
        FrameOp::Alloc => match first_fit(used) {
            Some(f) => used.update(f, true),
            None => used,
        },
        FrameOp::Free(addr) => match free_frame_check(used, addr) {
            Ok(_) => released(used, addr),
            Err(_) => used,
        },
    }
}

/// By how much the request `op` changes the number of outstanding
/// allocations: one more for an allocation that succeeds, one fewer for a
/// managed frame that is given back, and none for a request that fails or
/// that names a frame which is not managed.
pub open spec fn op_balance(used: Seq<bool>, op: FrameOp) -> int {
    match op {
        FrameOp::Alloc => if first_fit(used) is Some {
            1
        } else {
            0
        },
        FrameOp::Free(addr) => if free_frame_check(used, addr) is Ok && addr / 4096 < used.len() {
            -1
        } else {
            0
        },
    }
}

/// The accounting after the first `n` requests of `ops`, in order.
pub open spec fn apply_ops(used: Seq<bool>, ops: Seq<FrameOp>, n: int) -> Seq<bool>
    decreases n,
{
    if n <= 0 {
        used
    } else {
        apply_op(apply_ops(used, ops, n - 1), ops[n - 1])
    }
}

/// By how much the first `n` requests of `ops` change the number of
/// outstanding allocations.
pub open spec fn ops_balance(used: Seq<bool>, ops: Seq<FrameOp>, n: int) -> int
    decreases n,
{
    if n <= 0 {
        0
    } else {
        ops_balance(used, ops, n - 1) + op_balance(apply_ops(used, ops, n - 1), ops[n - 1])
    }
}

/// The accounting of physical frames.
pub struct FrameAllocator {
    bitmap: Vec<u8>,
    total_frames: u32,
    used_frames: u32,
}

impl FrameAllocator {
    /// For each managed frame, whether it is in use.
    pub closed spec fn view(&self) -> Seq<bool> {
        Seq::new(self.total_frames as nat, |f: int| frame_bit(self.bitmap@, f))
    }

    /// The running count of frames in use.
    pub closed spec fn used_count(&self) -> int {
        self.used_frames as int
    }

    /// The bit vector has its size and covers every managed frame.
    pub closed spec fn shaped(&self) -> bool {
        &&& self.bitmap@.len() == BITMAP_SIZE
        &&& self.total_frames <= MAX_FRAMES
    }

    /// The bit vector covers every managed frame, and the running count is the
    /// number of managed frames in use.
    pub closed spec fn wf(&self) -> bool {
        &&& self.shaped()
        &&& self.used_frames == count_used(self@, self.total_frames as int)
    }

    /// Frame `frame` is in use.  A frame that is not managed counts as in use.
    pub open spec fn is_used(&self, frame: int) -> bool {
        frame < 0 || frame >= self@.len() || self@[frame]
    }

    /// What well-formedness says in terms of the view.
    pub proof fn lemma_wf(&self)
        requires
            self.wf(),
        ensures
            self@.len() <= MAX_FRAMES,
            self.used_count() == count_used(self@, self@.len() as int),
            0 <= self.used_count() <= self@.len(),
    {
        lemma_count_bounds(self@, self@.len() as int);
    }
}

/// A count of frames in use lies between zero and the number of frames counted.
pub proof fn lemma_count_bounds(used: Seq<bool>, n: int)
    requires
        0 <= n,
    ensures
        0 <= count_used(used, n) <= n,
    decreases n,
{
    if n > 0 {
        lemma_count_bounds(used, n - 1);
    }
}

/// Two bit vectors that agree on the first `n` frames have the same count there.
pub proof fn lemma_count_agree(a: Seq<bool>, b: Seq<bool>, n: int)
    requires
        forall|f: int| 0 <= f < n ==> a[f] == b[f],
    ensures
        count_used(a, n) == count_used(b, n),
    decreases n,
{
    if n > 0 {
        lemma_count_agree(a, b, n - 1);
    }
}

/// Changing one frame changes the count by that frame alone.
pub proof fn lemma_count_update(used: Seq<bool>, n: int, f: int, v: bool)
    requires
        0 <= f < used.len(),
        n <= used.len(),
    ensures
        count_used(used.update(f, v), n) == count_used(used, n) + if f < n {
            (if v { 1int } else { 0int }) - (if used[f] { 1int } else { 0int })
        } else {
            0int
        },
    decreases n,
{
    if n > 0 {
        lemma_count_update(used, n - 1, f, v);
    }
}

/// If every one of the first `n` frames is in use, the count is `n`, and the
/// other way round.
pub proof fn lemma_count_full(used: Seq<bool>, n: int)
    requires
        0 <= n <= used.len(),
    ensures
        count_used(used, n) == n <==> (forall|f: int| 0 <= f < n ==> used[f]),
    decreases n,
{
    if n > 0 {
        lemma_count_full(used, n - 1);
        lemma_count_bounds(used, n - 1);
        if count_used(used, n) == n {
            assert forall|f: int| 0 <= f < n implies used[f] by {
                if f < n - 1 {
                }
            }
        }
    }
}

/// What `lowest_free` finds: a free frame with only used frames before it, or
/// nothing when the whole range is in use.
pub proof fn lemma_lowest_free(used: Seq<bool>, lo: int, hi: int)
    ensures
        match lowest_free(used, lo, hi) {
            Some(f) => lo <= f < hi && !used[f] && (forall|g: int| lo <= g < f ==> used[g]),
            None => forall|g: int| lo <= g < hi ==> used[g],
        },
    decreases hi - lo,
{
    if lo < hi && used[lo] {
        lemma_lowest_free(used, lo + 1, hi);
    }
}

/// What `first_run` finds: a free run with no free run at a lower base, or
/// nothing when no base at or above `lo` starts a free run.
pub proof fn lemma_first_run(used: Seq<bool>, count: int, lo: int)
    requires
        0 <= lo,
        0 < count,
    ensures
        match first_run(used, count, lo) {
            Some(b) => lo <= b && b + count <= used.len() && run_is_free(used, b, count) && (
            forall|c: int| lo <= c < b ==> !run_is_free(used, c, count)),
            None => forall|c: int| lo <= c && c + count <= used.len() ==> !run_is_free(used, c, count),
        },
    decreases used.len() - lo,
{
    if lo + count <= used.len() && !run_is_free(used, lo, count) {
        lemma_first_run(used, count, lo + 1);
    }
}

/// After any sequence of allocations and frees, the count of frames in use
/// has changed by the number of allocations that succeeded less the number
/// of frames that were given back.
pub proof fn lemma_count_follows_ops(used: Seq<bool>, ops: Seq<FrameOp>, n: int)
    requires
        0 <= n <= ops.len(),
    ensures
        apply_ops(used, ops, n).len() == used.len(),
        count_used(apply_ops(used, ops, n), used.len() as int) == count_used(used, used.len() as int)
            + ops_balance(used, ops, n),
    decreases n,
{
    if n > 0 {
        lemma_count_follows_ops(used, ops, n - 1);
        let prev = apply_ops(used, ops, n - 1);
        let len = used.len() as int;
        match ops[n - 1] {
            FrameOp::Alloc => {
                let low = if len < LOW_MEMORY_FRAMES { len } else { LOW_MEMORY_FRAMES as int };
                lemma_lowest_free(prev, LOW_MEMORY_FRAMES as int, len);
                lemma_lowest_free(prev, 0, low);
                match first_fit(prev) {
                    Some(f) => {
                        lemma_count_update(prev, len, f, true);
                    },
                    None => {},
                }
            },
            FrameOp::Free(addr) => {
                if free_frame_check(prev, addr) is Ok && addr / 4096 < len {
                    lemma_count_update(prev, len, addr as int / 4096, false);
                }
            },
        }
    }
}

/// Giving back the frame that an allocation has just handed out leaves the
/// accounting as it was before the allocation.
pub proof fn lemma_alloc_then_free(used: Seq<bool>)
    requires
        used.len() <= MAX_FRAMES,
        first_fit(used) is Some,
    ensures
        apply_op(apply_op(used, FrameOp::Alloc), FrameOp::Free((first_fit(used).unwrap() * 4096) as u32)) == used,
{
    let len = used.len() as int;
    let low = if len < LOW_MEMORY_FRAMES { len } else { LOW_MEMORY_FRAMES as int };
    lemma_lowest_free(used, LOW_MEMORY_FRAMES as int, len);
    lemma_lowest_free(used, 0, low);
    let f = first_fit(used).unwrap();
    let taken = used.update(f, true);
    let addr = (f * 4096) as u32;
    assert(free_frame_check(taken, addr) is Ok);
    assert(taken.update(f, false) =~= used);
}

proof fn lemma_set_bit(b: u8, i: u32, j: u32)
    by (bit_vector)
    requires
        i < 8,
        j < 8,
    ensures
        ((b | (1u8 << i)) & (1u8 << j) != 0) == (i == j || b & (1u8 << j) != 0),
{
}

proof fn lemma_clear_bit(b: u8, i: u32, j: u32)
    by (bit_vector)
    requires
        i < 8,
        j < 8,
    ensures
        ((b & !(1u8 << i)) & (1u8 << j) != 0) == (i != j && b & (1u8 << j) != 0),
{
}

proof fn lemma_full_byte(j: u32)
    by (bit_vector)
    requires
        j < 8,
    ensures
        0xFFu8 & (1u8 << j) != 0,
{
}

impl FrameAllocator {
    /// Marks frame `frame` as in use in the bit vector.
    fn bitmap_set(&mut self, frame: u32)
        requires
            old(self).shaped(),
            frame < old(self).total_frames,
        ensures
            final(self).shaped(),
            final(self).total_frames == old(self).total_frames,
            final(self).used_frames == old(self).used_frames,
            final(self)@ == old(self)@.update(frame as int, true),
    {
        let idx: usize = (frame / 8) as usize;
        let bit: u32 = frame % 8;
        let byte: u8 = self.bitmap[idx];
        let mask: u8 = 1u8 << bit;
        self.bitmap.set(idx, byte | mask);
        proof {
            assert forall|f: int| 0 <= f < self.total_frames implies frame_bit(self.bitmap@, f) == (
            f == frame || frame_bit(old(self).bitmap@, f)) by {
                if f / 8 == idx as int {
                    lemma_set_bit(byte, bit, (f % 8) as u32);
                }
            }
            assert(self@ =~= old(self)@.update(frame as int, true));
        }
    }

    /// Marks frame `frame` as free in the bit vector.
    fn bitmap_clear(&mut self, frame: u32)
        requires
            old(self).shaped(),
            frame < old(self).total_frames,
        ensures
            final(self).shaped(),
            final(self).total_frames == old(self).total_frames,
            final(self).used_frames == old(self).used_frames,
            final(self)@ == old(self)@.update(frame as int, false),
    {
        let idx: usize = (frame / 8) as usize;
        let bit: u32 = frame % 8;
        let byte: u8 = self.bitmap[idx];
        let mask: u8 = 1u8 << bit;
        self.bitmap.set(idx, byte & !mask);
        proof {
            assert forall|f: int| 0 <= f < self.total_frames implies frame_bit(self.bitmap@, f) == (
            f != frame && frame_bit(old(self).bitmap@, f)) by {
                if f / 8 == idx as int {
                    lemma_clear_bit(byte, bit, (f % 8) as u32);
                }
            }
            assert(self@ =~= old(self)@.update(frame as int, false));
        }
    }

    /// Whether frame `frame` is in use.  A frame that is not managed is.
    fn bitmap_test(&self, frame: u32) -> (r: bool)
        requires
            self.shaped(),
        ensures
            r == self.is_used(frame as int),
    {
        if frame < self.total_frames {
            let idx: usize = (frame / 8) as usize;
            let bit: u32 = frame % 8;
            let mask: u8 = 1u8 << bit;
            (self.bitmap[idx] & mask) != 0
        } else {
            true
        }
    }
}

/// Marking a free run as used raises the count by the length of the run.
proof fn lemma_count_mark_run(used: Seq<bool>, base: int, count: int)
    requires
        0 <= base,
        0 <= count,
        base + count <= used.len(),
        run_is_free(used, base, count),
    ensures
        count_used(mark_run(used, base, count), used.len() as int) == count_used(
            used,
            used.len() as int,
        ) + count,
    decreases count,
{
    if count == 0 {
        assert(mark_run(used, base, 0) =~= used);
    } else {
        lemma_count_mark_run(used, base, count - 1);
        let prev = mark_run(used, base, count - 1);
        assert(!used[base + (count - 1)]);
        assert(mark_run(used, base, count) =~= prev.update(base + count - 1, true));
        lemma_count_update(prev, used.len() as int, base + count - 1, true);
    }
}

impl FrameAllocator {
    /// Marks the managed frames among `lo..hi` as in use.
    fn set_range(&mut self, lo: u32, hi: u32)
        requires
            old(self).shaped(),
        ensures
            final(self).shaped(),
            final(self).total_frames == old(self).total_frames,
            final(self).used_frames == old(self).used_frames,
            final(self)@ == mark_run(old(self)@, lo as int, hi - lo),
    {
        let stop: u32 = if hi < self.total_frames { hi } else { self.total_frames };
        let mut f: u32 = lo;
        proof {
            assert(self@ =~= mark_run(old(self)@, lo as int, 0));
        }
        while f < stop
            invariant
                self.shaped(),
                self.total_frames == old(self).total_frames,
                self.used_frames == old(self).used_frames,
                stop <= hi,
                stop <= self.total_frames,
                stop == hi || stop == self.total_frames,
                lo <= f,
                f <= stop || f == lo,
                self@ == mark_run(old(self)@, lo as int, f - lo),
            decreases stop - f,
        {
            self.bitmap_set(f);
            f += 1;
            proof {
                assert(self@ =~= mark_run(old(self)@, lo as int, f - lo));
            }
        }
        proof {
            assert(self@ =~= mark_run(old(self)@, lo as int, hi - lo));
        }
    }

    /// Marks the managed frames among `lo..hi` as free.
    fn clear_range(&mut self, lo: u32, hi: u32)
        requires
            old(self).shaped(),
        ensures
            final(self).shaped(),
            final(self).total_frames == old(self).total_frames,
            final(self).used_frames == old(self).used_frames,
            final(self)@ == clear_run(old(self)@, lo as int, hi - lo),
    {
        let stop: u32 = if hi < self.total_frames { hi } else { self.total_frames };
        let mut f: u32 = lo;
        proof {
            assert(self@ =~= clear_run(old(self)@, lo as int, 0));
        }
        while f < stop
            invariant
                self.shaped(),
                self.total_frames == old(self).total_frames,
                self.used_frames == old(self).used_frames,
                stop <= hi,
                stop <= self.total_frames,
                stop == hi || stop == self.total_frames,
                lo <= f,
                f <= stop || f == lo,
                self@ == clear_run(old(self)@, lo as int, f - lo),
            decreases stop - f,
        {
            self.bitmap_clear(f);
            f += 1;
            proof {
                assert(self@ =~= clear_run(old(self)@, lo as int, f - lo));
            }
        }
        proof {
            assert(self@ =~= clear_run(old(self)@, lo as int, hi - lo));
        }
    }
}

/// Number of the frame that holds `addr`, rounded up to the next frame when
/// `addr` is not on a frame boundary.
fn frame_ceil(addr: u32) -> (r: u32)
    ensures
        r == (addr + 4095) / 4096,
{
    if addr % PAGE_SIZE == 0 {
        addr / PAGE_SIZE
    } else {
        addr / PAGE_SIZE + 1
    }
}

/// Sets up the accounting for `total_memory` bytes of physical memory.
///
/// Every frame starts as in use.  The frames that lie wholly inside one of the
/// usable `regions` (base address and length in bytes) become free.  Then the
/// frames below 1 MiB and those of the kernel image are marked as in use
/// again, whatever the regions said.  With `total_memory` zero, the whole
/// 32-bit address space is managed.
pub fn init(regions: &[(u32, u32)], image: &KernelImage, total_memory: u32) -> (fa: FrameAllocator)
    ensures
        fa.wf(),
        fa@.len() == frames_for(total_memory),
        forall|f: int| 0 <= f < fa@.len() ==> fa@[f] == initially_used(regions@, *image, f),
{
    let max_frame: u32 = if total_memory > 0 { total_memory / PAGE_SIZE } else { MAX_FRAMES };
    let mut fa = FrameAllocator { bitmap: vec![0xFFu8; BITMAP_SIZE], total_frames: max_frame, used_frames: 0 };
    proof {
        assert forall|f: int| 0 <= f < max_frame implies fa@[f] by {
            lemma_full_byte((f % 8) as u32);
        }
    }
    let mut i: usize = 0;
    while i < regions.len()
        invariant
            i <= regions.len(),
            fa.shaped(),
            fa.total_frames == max_frame,
            forall|f: int| 0 <= f < max_frame ==> fa@[f] == !covered_by_first(regions@, i as int, f),
        decreases regions.len() - i,
    {
        let base: u32 = regions[i].0;
        let length: u32 = regions[i].1;
        let start_frame: u32 = frame_ceil(base);
        let end_addr: u32 = if length > u32::MAX - base { u32::MAX } else { base + length };
        let end_frame: u32 = end_addr / PAGE_SIZE;
        let ghost before = fa@;
        fa.clear_range(start_frame, end_frame);
        proof {
            assert forall|f: int| 0 <= f < max_frame implies fa@[f] == !covered_by_first(
                regions@,
                i + 1,
                f,
            ) by {
                let here = region_covers(regions@[i as int], f);
                assert(here == (start_frame <= f < end_frame));
                if covered_by_first(regions@, i + 1, f) {
                    let j = choose|j: int| 0 <= j < i + 1 && region_covers(#[trigger] regions@[j], f);
                    if j < i {
                        assert(covered_by_first(regions@, i as int, f));
                    }
                } else {
                    if covered_by_first(regions@, i as int, f) {
                        let j = choose|j: int| 0 <= j < i && region_covers(#[trigger] regions@[j], f);
                        assert(region_covers(regions@[j], f));
                    }
                    assert(!region_covers(regions@[i as int], f));
                }
            }
        }
        i += 1;
    }
    fa.set_range(0, LOW_MEMORY_FRAMES);
    let kernel_first: u32 = image.start / PAGE_SIZE;
    let kernel_stop: u32 = frame_ceil(image.end);
    fa.set_range(kernel_first, kernel_stop);
    proof {
        assert forall|f: int| 0 <= f < max_frame implies fa@[f] == initially_used(regions@, *image, f) by {
            assert(in_kernel(*image, f) == (kernel_first <= f < kernel_stop));
        }
    }
    let mut used: u32 = 0;
    let mut f: u32 = 0;
    while f < max_frame
        invariant
            f <= max_frame,
            fa.shaped(),
            fa.total_frames == max_frame,
            used == count_used(fa@, f as int),
            used <= f,
        decreases max_frame - f,
    {
        if fa.bitmap_test(f) {
            used += 1;
        }
        f += 1;
    }
    fa.used_frames = used;
    fa
}

/// Takes one free frame and returns its physical address.
///
/// The search is first-fit from 1 MiB upwards; the frames below 1 MiB are
/// looked at last.  `None` means that every managed frame is in use.
pub fn alloc_frame(fa: &mut FrameAllocator) -> (r: Option<u32>)
    requires
        old(fa).wf(),
    ensures
        final(fa).wf(),
        final(fa)@.len() == old(fa)@.len(),
        final(fa)@ == apply_op(old(fa)@, FrameOp::Alloc),
        final(fa).used_count() == old(fa).used_count() + op_balance(old(fa)@, FrameOp::Alloc),
        match first_fit(old(fa)@) {
            Some(f) => {
                &&& r == Some((f * 4096) as u32)
                &&& 0 <= f < old(fa)@.len()
                &&& !old(fa)@[f]
                &&& final(fa)@ == old(fa)@.update(f, true)
                &&& final(fa).used_count() == old(fa).used_count() + 1
            },
            None => {
                &&& r is None
                &&& *final(fa) == *old(fa)
                &&& forall|f: int| 0 <= f < old(fa)@.len() ==> old(fa)@[f]
            },
        },
{
    let total: u32 = fa.total_frames;
    let low: u32 = if total < LOW_MEMORY_FRAMES { total } else { LOW_MEMORY_FRAMES };
    let mut frame: u32 = LOW_MEMORY_FRAMES;
    while frame < total
        invariant
            LOW_MEMORY_FRAMES <= frame,
            *fa == *old(fa),
            fa.wf(),
            total == fa.total_frames,
            forall|g: int| LOW_MEMORY_FRAMES <= g < frame && g < total ==> fa@[g],
        decreases total - frame,
    {
        if !fa.bitmap_test(frame) {
            proof {
                lemma_lowest_free(fa@, LOW_MEMORY_FRAMES as int, total as int);
                lemma_count_update(fa@, total as int, frame as int, true);
                lemma_count_bounds(fa@.update(frame as int, true), total as int);
            }
            fa.bitmap_set(frame);
            fa.used_frames = fa.used_frames + 1;
            return Some(frame * PAGE_SIZE);
        }
        frame += 1;
    }
    proof {
        lemma_lowest_free(fa@, LOW_MEMORY_FRAMES as int, total as int);
    }
    frame = 0;
    while frame < low
        invariant
            *fa == *old(fa),
            fa.wf(),
            total == fa.total_frames,
            low == if total < LOW_MEMORY_FRAMES { total } else { LOW_MEMORY_FRAMES },
            lowest_free(fa@, LOW_MEMORY_FRAMES as int, total as int) is None,
            forall|g: int| 0 <= g < frame ==> fa@[g],
        decreases low - frame,
    {
        if !fa.bitmap_test(frame) {
            proof {
                lemma_lowest_free(fa@, 0, low as int);
                lemma_count_update(fa@, total as int, frame as int, true);
                lemma_count_bounds(fa@.update(frame as int, true), total as int);
            }
            fa.bitmap_set(frame);
            fa.used_frames = fa.used_frames + 1;
            return Some(frame * PAGE_SIZE);
        }
        frame += 1;
    }
    proof {
        lemma_lowest_free(fa@, 0, low as int);
    }
    None
}

/// Returns the frame at `addr` to the free pool.
///
/// Fails, and changes nothing, when `addr` is not on a frame boundary or
/// when the frame is already free.  A frame that is not managed is never
/// free: giving it back succeeds and changes nothing.
pub fn free_frame(fa: &mut FrameAllocator, addr: u32) -> (r: Result<(), MemError>)
    requires
        old(fa).wf(),
    ensures
        final(fa).wf(),
        final(fa)@.len() == old(fa)@.len(),
        r == free_frame_check(old(fa)@, addr),
        r is Err <==> addr % 4096 != 0 || !old(fa).is_used(addr as int / 4096),
        final(fa)@ == apply_op(old(fa)@, FrameOp::Free(addr)),
        final(fa).used_count() == old(fa).used_count() + op_balance(old(fa)@, FrameOp::Free(addr)),
        r is Ok ==> final(fa)@ == released(old(fa)@, addr),
        r is Ok && addr / 4096 < old(fa)@.len() ==> final(fa).used_count() == old(fa).used_count() - 1,
        r is Err || addr / 4096 >= old(fa)@.len() ==> *final(fa) == *old(fa),
{
    if addr % PAGE_SIZE != 0 {
        return Err(MemError::Misaligned);
    }
    let frame: u32 = addr / PAGE_SIZE;
    if frame >= fa.total_frames {
        return Ok(());
    }
    if !fa.bitmap_test(frame) {
        return Err(MemError::DoubleFree);
    }
    proof {
        lemma_count_update(fa@, fa.total_frames as int, frame as int, false);
        lemma_count_bounds(fa@.update(frame as int, false), fa.total_frames as int);
    }
    fa.bitmap_clear(frame);
    fa.used_frames = fa.used_frames - 1;
    Ok(())
}

/// Takes `count` contiguous free frames and returns the physical address of
/// the first.
///
/// The frames of the run are all free at the time of the call.  When no run
/// is found nothing changes, and no frame of a partial run is taken.
pub fn alloc_frames(fa: &mut FrameAllocator, count: u32) -> (r: Option<u32>)
    requires
        old(fa).wf(),
    ensures
        final(fa).wf(),
        final(fa)@.len() == old(fa)@.len(),
        match contiguous_fit(old(fa)@, count) {
            Some(b) => {
                &&& r == Some((b * 4096) as u32)
                &&& 0 <= b
                &&& b + count <= old(fa)@.len()
                &&& run_is_free(old(fa)@, b, count as int)
                &&& final(fa)@ == mark_run(old(fa)@, b, count as int)
                &&& final(fa).used_count() == old(fa).used_count() + count
            },
            None => {
                &&& r is None
                &&& *final(fa) == *old(fa)
            },
        },
{
    if count == 0 {
        return None;
    }
    if count == 1 {
        let r = alloc_frame(fa);
        proof {
            if r is Some {
                let f = first_fit(old(fa)@).unwrap();
                assert(old(fa)@[f + 0] == old(fa)@[f]);
                assert(fa@ =~= mark_run(old(fa)@, f, 1));
            }
        }
        return r;
    }
    let total: u32 = fa.total_frames;
    if count > total {
        proof {
            lemma_first_run(fa@, count as int, LOW_MEMORY_FRAMES as int);
        }
        return None;
    }
    let mut frame: u32 = LOW_MEMORY_FRAMES;
    while frame <= total - count
        invariant
            LOW_MEMORY_FRAMES <= frame,
            2 <= count <= total,
            *fa == *old(fa),
            fa.wf(),
            total == fa.total_frames,
            forall|c: int| LOW_MEMORY_FRAMES <= c < frame ==> !run_is_free(fa@, c, count as int),
        decreases total + 1 - frame,
    {
        let mut i: u32 = 0;
        let mut all_free = true;
        while i < count
            invariant_except_break
                all_free,
            invariant
                i <= count,
                frame + count <= total,
                *fa == *old(fa),
                fa.wf(),
                total == fa.total_frames,
                forall|k: int| 0 <= k < i ==> !#[trigger] fa@[frame + k],
            ensures
                all_free ==> i == count,
                !all_free ==> i < count && fa@[frame + i],
            decreases count - i,
        {
            if fa.bitmap_test(frame + i) {
                all_free = false;
                break ;
            }
            i += 1;
        }
        if all_free {
            proof {
                assert(run_is_free(fa@, frame as int, count as int));
                lemma_first_run(fa@, count as int, LOW_MEMORY_FRAMES as int);
                lemma_count_mark_run(fa@, frame as int, count as int);
                lemma_count_bounds(mark_run(fa@, frame as int, count as int), total as int);
            }
            fa.set_range(frame, frame + count);
            fa.used_frames = fa.used_frames + count;
            return Some(frame * PAGE_SIZE);
        }
        proof {
            assert forall|c: int| frame <= c < frame + i + 1 implies !run_is_free(
                fa@,
                c,
                count as int,
            ) by {
                assert(fa@[c + (frame + i - c)]);
            }
        }
        frame = frame + i + 1;
    }
    proof {
        lemma_first_run(fa@, count as int, LOW_MEMORY_FRAMES as int);
    }
    None
}

/// Frees the frames among the `count` frames from `addr` on that are in use.
///
/// A frame of the run that is already free, or not managed, is passed over in
/// silence.
pub fn free_frames(fa: &mut FrameAllocator, addr: u32, count: u32)
    requires
        old(fa).wf(),
    ensures
        final(fa).wf(),
        final(fa)@ == clear_run(old(fa)@, addr as int / 4096, count as int),
{
    let start: u32 = addr / PAGE_SIZE;
    let total: u32 = fa.total_frames;
    let stop: u32 = if count < total && start < total - count { start + count } else { total };
    let mut f: u32 = start;
    proof {
        assert(fa@ =~= clear_run(old(fa)@, start as int, 0));
    }
    while f < stop
        invariant
            fa.wf(),
            total == fa.total_frames,
            total == old(fa).total_frames,
            stop <= total,
            stop == start + count || (stop == total && total <= start + count),
            start <= f,
            f <= stop || f == start,
            fa@ == clear_run(old(fa)@, start as int, f - start),
        decreases stop - f,
    {
        if fa.bitmap_test(f) {
            proof {
                lemma_count_update(fa@, total as int, f as int, false);
                lemma_count_bounds(fa@.update(f as int, false), total as int);
            }
            fa.bitmap_clear(f);
            fa.used_frames = fa.used_frames - 1;
        }
        f += 1;
        proof {
            assert(fa@ =~= clear_run(old(fa)@, start as int, f - start));
        }
    }
    proof {
        assert(fa@ =~= clear_run(old(fa)@, start as int, count as int));
    }
}

/// Number of frames under management.
pub fn total_frames(fa: &FrameAllocator) -> (r: u32)
    requires
        fa.wf(),
    ensures
        r == fa@.len(),
{
    fa.total_frames
}

/// Number of managed frames in use.
pub fn used_frames(fa: &FrameAllocator) -> (r: u32)
    requires
        fa.wf(),
    ensures
        r == fa.used_count(),
        r == count_used(fa@, fa@.len() as int),
{
    fa.used_frames
}

/// Number of managed frames that are free.
pub fn free_frames_count(fa: &FrameAllocator) -> (r: u32)
    requires
        fa.wf(),
    ensures
        r == fa@.len() - fa.used_count(),
{
    proof {
        fa.lemma_wf();
    }
    let total: u32 = fa.total_frames;
    let used: u32 = fa.used_frames;
    if total > used {
        total - used
    } else {
        0
    }
}

/// Forces the frame at `addr` to be in use.  Nothing changes when it already
/// is, or when the frame is not managed.
pub fn reserve_frame(fa: &mut FrameAllocator, addr: u32)
    requires
        old(fa).wf(),
    ensures
        final(fa).wf(),
        final(fa)@.len() == old(fa)@.len(),
        final(fa).is_used(addr as int / 4096),
        final(fa)@ == if addr / 4096 < old(fa)@.len() {
            old(fa)@.update(addr as int / 4096, true)
        } else {
            old(fa)@
        },
        final(fa).used_count() == old(fa).used_count() + if old(fa).is_used(addr as int / 4096) {
            0int
        } else {
            1int
        },
{
    let frame: u32 = addr / PAGE_SIZE;
    if !fa.bitmap_test(frame) {
        proof {
            lemma_count_update(fa@, fa.total_frames as int, frame as int, true);
            lemma_count_bounds(fa@.update(frame as int, true), fa.total_frames as int);
        }
        fa.bitmap_set(frame);
        fa.used_frames = fa.used_frames + 1;
    } else {
        proof {
            if frame < fa.total_frames {
                assert(fa@ =~= fa@.update(frame as int, true));
            }
        }
    }
}

/// Whether the frame at `addr` is in use.  A frame that is not managed is.
pub fn is_frame_used(fa: &FrameAllocator, addr: u32) -> (r: bool)
    requires
        fa.wf(),
    ensures
        r == fa.is_used(addr as int / 4096),
{
    fa.bitmap_test(addr / PAGE_SIZE)
}

/// The figures of the frame allocator that the kernel shows to its user.
#[derive(Clone, Copy, Debug, PartialEq, Eq, Structural)]
pub struct FrameInfo {
    /// Bytes in a frame.
    pub page_size: u32,
    /// Frames under management.
    pub total_frames: u32,
    /// Managed frames in use.
    pub used_frames: u32,
    /// Managed frames that are free.
    pub free_frames: u32,
    /// First address of the kernel image.
    pub kernel_start: u32,
    /// First address past the kernel image.
    pub kernel_end: u32,
    /// Size of the kernel image in KiB, rounded down.
    pub kernel_kib: u32,
}

/// The figures of the frame allocator.
pub fn frame_info(fa: &FrameAllocator, image: &KernelImage) -> (r: FrameInfo)
    requires
        fa.wf(),
        image.start <= image.end,
    ensures
        r.page_size == PAGE_SIZE,
        r.total_frames == fa@.len(),
        r.used_frames == fa.used_count(),
        r.free_frames == fa@.len() - fa.used_count(),
        r.kernel_start == image.start,
        r.kernel_end == image.end,
        r.kernel_kib == (image.end - image.start) / 1024,
{
    FrameInfo {
        page_size: PAGE_SIZE,
        total_frames: total_frames(fa),
        used_frames: used_frames(fa),
        free_frames: free_frames_count(fa),
        kernel_start: image.start,
        kernel_end: image.end,
        kernel_kib: super::kernel_size(image) / 1024,
    }
}

/// What kind of memory an entry of the memory map describes.
#[derive(Clone, Copy, Debug, PartialEq, Eq, Structural)]
pub enum MemoryKind {
    Available,
    Reserved,
    AcpiReclaimable,
    AcpiNvs,
    BadMemory,
    Unknown,
}

/// The kind of memory that the type number `entry_type` stands for.
pub open spec fn kind_of(entry_type: u32) -> MemoryKind {
    if entry_type == 1 {
        MemoryKind::Available
    } else if entry_type == 2 {
        MemoryKind::Reserved
    } else if entry_type == 3 {
        MemoryKind::AcpiReclaimable
    } else if entry_type == 4 {
        MemoryKind::AcpiNvs
    } else if entry_type == 5 {
        MemoryKind::BadMemory
    } else {
        MemoryKind::Unknown
    }
}

/// The kind of memory that the type number `entry_type` stands for.
pub fn memory_kind(entry_type: u32) -> (r: MemoryKind)
    ensures
        r == kind_of(entry_type),
{
    if entry_type == 1 {
        MemoryKind::Available
    } else if entry_type == 2 {
        MemoryKind::Reserved
    } else if entry_type == 3 {
        MemoryKind::AcpiReclaimable
    } else if entry_type == 4 {
        MemoryKind::AcpiNvs
    } else if entry_type == 5 {
        MemoryKind::BadMemory
    } else {
        MemoryKind::Unknown
    }
}

/// One line of the memory-map listing.
#[derive(Clone, Copy, Debug, PartialEq, Eq, Structural)]
pub struct MmapRow {
    /// Low half of the base address.
    pub base: u32,
    /// Low half of the length, in KiB, rounded down.
    pub length_kib: u32,
    /// The kind of memory.
    pub kind: MemoryKind,
}

/// The line for entry `e`.
pub open spec fn row_of(e: MmapEntry) -> MmapRow {
    MmapRow { base: e.base_addr_low, length_kib: e.length_low / 1024, kind: kind_of(e.entry_type) }
}

/// What the boot loader reported about memory, ready for listing.
#[derive(Debug, PartialEq, Eq)]
pub enum MmapListing {
    /// The boot loader handed over nothing.
    NoInfo,
    /// The memory map, entry by entry.
    Entries(Vec<MmapRow>),
    /// No memory map, but lower and upper memory in KiB.
    Sizes(u32, u32),
    /// Neither a memory map nor sizes.
    NoMap,
}

/// The listing of the memory that the boot loader reported: every entry of
/// the memory map where there is one, usable or not.
pub fn mmap_listing(info: Option<&MultibootInfo>) -> (r: MmapListing)
    ensures
        match info {
            None => r is NoInfo,
            Some(i) => if has_mmap(i.flags) {
                &&& r is Entries
                &&& r->Entries_0@.len() == i.mmap@.len()
                &&& forall|k: int| 0 <= k < i.mmap@.len() ==> r->Entries_0@[k] == row_of(#[trigger] i.mmap@[k])
            } else if has_memory_info(i.flags) {
                r == MmapListing::Sizes(i.mem_lower, i.mem_upper)
            } else {
                r is NoMap
            },
        },
{
    match info {
        None => MmapListing::NoInfo,
        Some(i) => {
            if i.flags & super::BOOT_FLAG_MMAP != 0 {
                let mut rows: Vec<MmapRow> = Vec::new();
                let mut k: usize = 0;
                while k < i.mmap.len()
                    invariant
                        k <= i.mmap@.len(),
                        rows@.len() == k,
                        forall|j: int| 0 <= j < k ==> rows@[j] == row_of(#[trigger] i.mmap@[j]),
                    decreases i.mmap@.len() - k,
                {
                    let e: MmapEntry = i.mmap[k];
                    rows.push(
                        MmapRow {
                            base: e.base_addr_low,
                            length_kib: e.length_low / 1024,
                            kind: memory_kind(e.entry_type),
                        },
                    );
                    k += 1;
                }
                MmapListing::Entries(rows)
            } else if i.flags & super::BOOT_FLAG_MEMORY != 0 {
                MmapListing::Sizes(i.mem_lower, i.mem_upper)
            } else {
                MmapListing::NoMap
            }
        },
    }
}

} // verus!
