//! Kernel heap.
//!
//! The heap is an arena of identity-mapped memory that starts on the first
//! frame boundary after the kernel image and only ever grows.  The arena is a
//! chain of blocks without gaps: each block is a header of eight bytes
//! followed by its data, and the next block starts where the data ends.
//! Allocation is first-fit over that chain.

use vstd::prelude::*;
use super::KernelImage;
use super::MemError;
use super::PAGE_SIZE;
use super::align_up;
use super::align_up_spec;
use super::lemma_align_bounds;
use super::frame::FrameAllocator;
use super::frame::mark_run;
use super::frame::reserve_frame;
use super::frame::total_frames;

verus! {

/// Bytes of a block header.
pub const HEADER_SIZE: u32 = 8;

/// The flag bit of a header that marks the block as free.
pub const FLAG_FREE: u32 = 1;

/// The smallest data size of a block.
pub const MIN_ALLOC: u32 = 8;

/// The header that precedes the data of each block.
#[derive(Clone, Copy, Debug)]
pub struct BlockHeader {
    /// Bytes of data that follow the header.
    pub size: u32,
    /// Bit 0 is set while the block is free.
    pub flags: u32,
}

proof fn lemma_flag_bits(flags: u32)
    by (bit_vector)
    ensures
        (flags | 1u32) & 1u32 != 0,
        (flags & !1u32) & 1u32 == 0,
        0u32 & 1u32 == 0,
        1u32 & 1u32 != 0,
{
}

impl BlockHeader {
    /// The block is free.
    pub open spec fn free(&self) -> bool {
        self.flags & FLAG_FREE != 0
    }

    /// Whether the block is free.
    pub fn is_free(&self) -> (r: bool)
        ensures
            r == self.free(),
    {
        self.flags & FLAG_FREE != 0
    }

    /// Marks the block as free.
    pub fn set_free(&mut self)
        ensures
            final(self).free(),
            final(self).size == old(self).size,
            final(self).flags == old(self).flags | FLAG_FREE,
    {
        proof {
            lemma_flag_bits(self.flags);
        }
        self.flags = self.flags | FLAG_FREE;
    }

    /// Address of the data of the block, whose header lies at `addr`.
    pub fn data_ptr(&self, addr: u32) -> (r: u32)
        requires
            addr + HEADER_SIZE <= u32::MAX,
        ensures
            r == addr + HEADER_SIZE,
    {
        addr + HEADER_SIZE
    }

    /// Address of the header of the next block, given that the header of
    /// this block lies at `addr`.
    pub fn next(&self, addr: u32) -> (r: u32)
        requires
            addr + HEADER_SIZE + self.size <= u32::MAX,
        ensures
            r == addr + HEADER_SIZE + self.size,
    {
        addr + HEADER_SIZE + self.size
    }

    /// Marks the block as in use.
    pub fn set_used(&mut self)
        ensures
            !final(self).free(),
            final(self).size == old(self).size,
            final(self).flags == old(self).flags & !FLAG_FREE,
    {
        proof {
            lemma_flag_bits(self.flags);
        }
        self.flags = self.flags & !FLAG_FREE;
    }
}

/// The bounds of an arena: the memory from `start` up to the break `brk` is
/// handed out, and the frames up to `end` are reserved for it.
pub struct ArenaView {
    pub start: int,
    pub brk: int,
    pub end: int,
}

impl ArenaView {
    /// The bounds lie in this order, on frame boundaries where they must.
    pub open spec fn wf(self) -> bool {
        &&& 0 <= self.start <= self.brk <= self.end
        &&& self.brk <= u32::MAX
        &&& self.start % 4096 == 0
        &&& self.end % 4096 == 0
    }

    /// The break can move up by `increment` bytes when the new break still
    /// fits in 32 bits and lies in memory of which `frames` frames are managed.
    pub open spec fn can_grow(self, frames: int, increment: int) -> bool {
        &&& self.brk + increment <= u32::MAX
        &&& align_up_spec(self.brk + increment, 4096) <= frames * 4096
    }

    /// The end of the reserved frames once the break has moved up by
    /// `increment` bytes.
    pub open spec fn grown_end(self, increment: int) -> int {
        if align_up_spec(self.brk + increment, 4096) > self.end {
            align_up_spec(self.brk + increment, 4096)
        } else {
            self.end
        }
    }

    /// The arena with the break moved up by `increment` bytes.
    pub open spec fn grown(self, increment: int) -> ArenaView {
        ArenaView { start: self.start, brk: self.brk + increment, end: self.grown_end(increment) }
    }
}

/// A range of memory with a break that only moves up.
pub struct Arena {
    start: u32,
    brk: u32,
    end_frame: u32,
}

impl Arena {
    /// The bounds of the arena.
    pub closed spec fn view(&self) -> ArenaView {
        ArenaView { start: self.start as int, brk: self.brk as int, end: self.end_frame * 4096 }
    }

    /// The bounds lie in order.
    pub open spec fn wf(&self) -> bool {
        self@.wf()
    }

    /// An empty arena at `start`, a frame boundary, with no frame reserved.
    pub fn new(start: u32) -> (arena: Arena)
        requires
            start % 4096 == 0,
        ensures
            arena.wf(),
            arena@ == (ArenaView { start: start as int, brk: start as int, end: start as int }),
    {
        Arena { start, brk: start, end_frame: start / PAGE_SIZE }
    }

    /// First address of the arena.
    pub fn start(&self) -> (r: u32)
        ensures
            r == self@.start,
    {
        self.start
    }

    /// The break: the first address that is not handed out.
    pub fn brk(&self) -> (r: u32)
        ensures
            r == self@.brk,
    {
        self.brk
    }

    /// Whether the break can move up by `increment` bytes.
    fn can_grow(&self, frames: &FrameAllocator, increment: u32) -> (r: bool)
        requires
            self.wf(),
            frames.wf(),
        ensures
            r == self@.can_grow(frames@.len() as int, increment as int),
    {
        if increment > u32::MAX - self.brk {
            return false;
        }
        let new_brk: u32 = self.brk + increment;
        let needed: u32 = if new_brk % PAGE_SIZE == 0 {
            new_brk / PAGE_SIZE
        } else {
            new_brk / PAGE_SIZE + 1
        };
        proof {
            lemma_align_bounds(new_brk as int, 4096);
        }
        needed <= total_frames(frames)
    }
}

/// Moves the break of `arena` up by `increment` bytes and returns the old
/// break.
///
/// Every frame that the arena newly reaches into is reserved in `frames`;
/// the memory itself is identity-mapped already.  The break moves by exactly
/// `increment`, so it may come to lie inside a frame.  An increment of zero
/// returns the break and changes nothing.  `None`, with nothing changed,
/// when the new break would not fit in 32 bits or would lie beyond the
/// managed memory.
pub fn kbrk(arena: &mut Arena, frames: &mut FrameAllocator, increment: u32) -> (r: Option<u32>)
    requires
        old(arena).wf(),
        old(frames).wf(),
    ensures
        final(arena).wf(),
        final(frames).wf(),
        final(frames)@.len() == old(frames)@.len(),
        if increment == 0 {
            &&& r == Some(old(arena)@.brk as u32)
            &&& *final(arena) == *old(arena)
            &&& *final(frames) == *old(frames)
        } else if old(arena)@.can_grow(old(frames)@.len() as int, increment as int) {
            &&& r == Some(old(arena)@.brk as u32)
            &&& final(arena)@ == old(arena)@.grown(increment as int)
            &&& final(frames)@ == mark_run(
                old(frames)@,
                old(arena)@.end / 4096,
                (final(arena)@.end - old(arena)@.end) / 4096,
            )
        } else {
            &&& r is None
            &&& *final(arena) == *old(arena)
            &&& *final(frames) == *old(frames)
        },
{
    if increment == 0 {
        return Some(arena.brk);
    }
    if !arena.can_grow(frames, increment) {
        return None;
    }
    let old_brk: u32 = arena.brk;
    let new_brk: u32 = old_brk + increment;
    let needed: u32 = if new_brk % PAGE_SIZE == 0 {
        new_brk / PAGE_SIZE
    } else {
        new_brk / PAGE_SIZE + 1
    };
    proof {
        lemma_align_bounds(new_brk as int, 4096);
        assert(frames@ =~= mark_run(old(frames)@, old(arena).end_frame as int, 0));
    }
    let total: u32 = total_frames(frames);
    let mut current: u32 = arena.end_frame;
    while current < needed
        invariant
            frames.wf(),
            frames@.len() == old(frames)@.len(),
            total == frames@.len(),
            needed <= total,
            old(arena).end_frame <= current,
            current <= needed || current == old(arena).end_frame,
            frames@ == mark_run(old(frames)@, old(arena).end_frame as int, current - old(arena).end_frame),
        decreases needed - current,
    {
        proof {
            frames.lemma_wf();
        }
        reserve_frame(frames, current * PAGE_SIZE);
        current += 1;
        proof {
            assert(frames@ =~= mark_run(
                old(frames)@,
                old(arena).end_frame as int,
                current - old(arena).end_frame,
            ));
        }
    }
    arena.brk = new_brk;
    arena.end_frame = current;
    Some(old_brk)
}

/// A block of the heap as plain values: the size of its data and whether it
/// is free.
pub struct Block {
    pub size: u32,
    pub free: bool,
}

/// The bytes that the blocks `blocks` take, headers included.
pub open spec fn total_span(blocks: Seq<Block>) -> int
    decreases blocks.len(),
{
    if blocks.len() == 0 {
        0
    } else {
        total_span(blocks.drop_last()) + 8 + blocks.last().size
    }
}

/// How many of the blocks `blocks` are in use.
pub open spec fn used_blocks(blocks: Seq<Block>) -> int
    decreases blocks.len(),
{
    if blocks.len() == 0 {
        0
    } else {
        used_blocks(blocks.drop_last()) + if blocks.last().free { 0int } else { 1int }
    }
}

/// The data size of the block that serves a request for `size` bytes: at
/// least the minimum, and a multiple of four.
pub open spec fn rounded(size: u32) -> int {
    if size < MIN_ALLOC {
        MIN_ALLOC as int
    } else {
        align_up_spec(size as int, 4)
    }
}

/// Block `b` can serve a request that needs `need` bytes of data.
pub open spec fn fits(b: Block, need: int) -> bool {
    b.free && b.size >= need
}

/// The first block at or after index `from` that can serve a request that
/// needs `need` bytes of data.
pub open spec fn first_fit_block(blocks: Seq<Block>, need: int, from: int) -> Option<int>
    decreases blocks.len() - from,
{
    if from < 0 || from >= blocks.len() {
        None
    } else if fits(blocks[from], need) {
        Some(from)
    } else {
        first_fit_block(blocks, need, from + 1)
    }
}

/// The blocks after block `i` has been handed out for a request that needs
/// `need` bytes.  Where more than a header and a minimal block would be left
/// over, the block is cut down to `need` and the rest becomes a free block
/// behind it; else the whole block is handed out.
pub open spec fn take_block(blocks: Seq<Block>, i: int, need: int) -> Seq<Block> {
    let b = blocks[i];
    if b.size - need > HEADER_SIZE + MIN_ALLOC {
        blocks.update(i, Block { size: need as u32, free: false }).insert(
            i + 1,
            Block { size: (b.size - need - HEADER_SIZE) as u32, free: true },
        )
    } else {
        blocks.update(i, Block { size: b.size, free: false })
    }
}

/// The blocks after block `i` has been freed.  Where the block behind it is
/// free as well, the two become one; the block before it is never looked at.
pub open spec fn release_block(blocks: Seq<Block>, i: int) -> Seq<Block> {
    if i + 1 < blocks.len() && blocks[i + 1].free {
        blocks.update(
            i,
            Block { size: (blocks[i].size + HEADER_SIZE + blocks[i + 1].size) as u32, free: true },
        ).remove(i + 1)
    } else {
        blocks.update(i, Block { size: blocks[i].size, free: true })
    }
}

/// The heap as plain values.
pub struct HeapView {
    /// The bounds of the arena.
    pub arena: ArenaView,
    /// The blocks of the arena, in the order of their addresses.
    pub blocks: Seq<Block>,
    /// The running count of blocks in use.
    pub alloc_count: int,
}

impl HeapView {
    /// Address of the header of block `i`.
    pub open spec fn header_addr(self, i: int) -> int {
        self.arena.start + total_span(self.blocks.take(i))
    }

    /// Address of the data of block `i`: what an allocation returns.
    pub open spec fn data_addr(self, i: int) -> int {
        self.header_addr(i) + HEADER_SIZE
    }

    /// The blocks fill the arena from its start to the break without a gap,
    /// each holds at least the minimum and a multiple of four bytes, and the
    /// running count is the number of blocks in use.
    pub open spec fn wf(self) -> bool {
        &&& self.arena.wf()
        &&& self.arena.start + total_span(self.blocks) == self.arena.brk
        &&& forall|i: int|
            0 <= i < self.blocks.len() ==> (#[trigger] self.blocks[i]).size >= MIN_ALLOC && self.blocks[i].size
                % 4 == 0
        &&& self.alloc_count == used_blocks(self.blocks)
    }

    /// The data of block `i` starts at `ptr`.
    pub open spec fn holds_block(self, ptr: u32, i: int) -> bool {
        0 <= i < self.blocks.len() && self.data_addr(i) == ptr
    }

    /// The block whose data starts at `ptr`, if there is one.
    pub open spec fn block_of(self, ptr: u32) -> Option<int> {
        if exists|i: int| self.holds_block(ptr, i) {
            Some(choose|i: int| self.holds_block(ptr, i))
        } else {
            None
        }
    }
}

/// What a request for `size` bytes leads to on a heap whose frame allocator
/// manages `frames` frames: the new heap and the address handed out, or
/// `None` when the request is for nothing or cannot be served.  The first
/// fitting block is taken; when none fits the arena grows by a header and the
/// rounded size, and the new block lies at the old break.
pub open spec fn kmalloc_outcome(hv: HeapView, frames: int, size: u32) -> Option<(HeapView, u32)> {
    let need = rounded(size);
    if size == 0 {
        None
    } else {
        match first_fit_block(hv.blocks, need, 0) {
            Some(i) => Some(
                (
                    HeapView {
                        arena: hv.arena,
                        blocks: take_block(hv.blocks, i, need),
                        alloc_count: hv.alloc_count + 1,
                    },
                    hv.data_addr(i) as u32,
                ),
            ),
            None => if hv.arena.can_grow(frames, HEADER_SIZE + need) {
                Some(
                    (
                        HeapView {
                            arena: hv.arena.grown(HEADER_SIZE + need),
                            blocks: hv.blocks.push(Block { size: need as u32, free: false }),
                            alloc_count: hv.alloc_count + 1,
                        },
                        (hv.arena.brk + HEADER_SIZE) as u32,
                    ),
                )
            } else {
                None
            },
        }
    }
}

/// What freeing `ptr` leads to: the new heap, or the error.  Freeing the null
/// address changes nothing.
pub open spec fn kfree_outcome(hv: HeapView, ptr: u32) -> Result<HeapView, MemError> {
    if ptr == 0 {
        Ok(hv)
    } else {
        match hv.block_of(ptr) {
            None => Err(MemError::UnknownPointer),
            Some(i) => if hv.blocks[i].free {
                Err(MemError::DoubleFree)
            } else {
                Ok(
                    HeapView {
                        arena: hv.arena,
                        blocks: release_block(hv.blocks, i),
                        alloc_count: hv.alloc_count - 1,
                    },
                )
            },
        }
    }
}

/// The data size of the block at `ptr`; zero for the null address and for an
/// address where no block starts.
pub open spec fn ksize_spec(hv: HeapView, ptr: u32) -> int {
    if ptr == 0 {
        0
    } else {
        match hv.block_of(ptr) {
            Some(i) => hv.blocks[i].size as int,
            None => 0,
        }
    }
}

/// The span of two runs of blocks is the sum of their spans, and so is the
/// number of blocks in use.
pub proof fn lemma_concat(a: Seq<Block>, b: Seq<Block>)
    ensures
        total_span(a + b) == total_span(a) + total_span(b),
        used_blocks(a + b) == used_blocks(a) + used_blocks(b),
    decreases b.len(),
{
    if b.len() == 0 {
        assert(a + b =~= a);
    } else {
        assert((a + b).drop_last() =~= a + b.drop_last());
        lemma_concat(a, b.drop_last());
    }
}

/// Span and use of a single block and of two blocks.
pub proof fn lemma_small(x: Block, y: Block)
    ensures
        total_span(seq![x]) == 8 + x.size,
        used_blocks(seq![x]) == if x.free { 0int } else { 1int },
        total_span(seq![x, y]) == 16 + x.size + y.size,
        used_blocks(seq![x, y]) == (if x.free { 0int } else { 1int }) + (if y.free { 0int } else { 1int }),
{
    let one = seq![x];
    let two = seq![x, y];
    assert(one.drop_last() =~= Seq::<Block>::empty());
    assert(two.drop_last() =~= one);
    assert(total_span(one.drop_last()) == 0);
    assert(used_blocks(one.drop_last()) == 0);
    assert(total_span(one) == 8 + x.size);
    assert(used_blocks(one) == if x.free { 0int } else { 1int });
    assert(two.last() == y);
    assert(total_span(two) == total_span(two.drop_last()) + 8 + y.size);
    assert(used_blocks(two) == used_blocks(two.drop_last()) + if y.free { 0int } else { 1int });
}

/// A chain of blocks cut in two at index `k`.
pub proof fn lemma_split(s: Seq<Block>, k: int)
    requires
        0 <= k <= s.len(),
    ensures
        total_span(s) == total_span(s.take(k)) + total_span(s.skip(k)),
        used_blocks(s) == used_blocks(s.take(k)) + used_blocks(s.skip(k)),
        0 <= total_span(s.take(k)) <= total_span(s),
        0 <= used_blocks(s.take(k)) <= used_blocks(s),
{
    assert(s.take(k) + s.skip(k) =~= s);
    lemma_concat(s.take(k), s.skip(k));
    lemma_nonneg(s.take(k));
    lemma_nonneg(s.skip(k));
}

/// Spans and counts are never negative.
pub proof fn lemma_nonneg(s: Seq<Block>)
    ensures
        0 <= total_span(s),
        0 <= used_blocks(s) <= s.len(),
        8 * s.len() <= total_span(s),
    decreases s.len(),
{
    if s.len() > 0 {
        lemma_nonneg(s.drop_last());
    }
}

/// The header of a later block lies at or behind the end of an earlier block.
pub proof fn lemma_addr_order(hv: HeapView, i: int, j: int)
    requires
        0 <= i < j <= hv.blocks.len(),
    ensures
        hv.data_addr(i) + hv.blocks[i].size <= hv.header_addr(j),
        hv.arena.start <= hv.header_addr(i),
        hv.header_addr(j) <= hv.arena.start + total_span(hv.blocks),
{
    let s = hv.blocks;
    lemma_split(s, j);
    lemma_split(s.take(j), i);
    assert(s.take(j).take(i) =~= s.take(i));
    let rest = s.take(j).skip(i);
    lemma_split(rest, 1);
    assert(rest.take(1) =~= seq![s[i]]);
    lemma_small(s[i], s[i]);
    lemma_nonneg(rest.skip(1));
    lemma_nonneg(s.take(i));
}

/// The data ranges of two different blocks do not overlap: the one with the
/// lower index ends before the header of the other begins.
pub proof fn lemma_blocks_disjoint(hv: HeapView, i: int, j: int)
    requires
        hv.wf(),
        0 <= i < hv.blocks.len(),
        0 <= j < hv.blocks.len(),
        i != j,
    ensures
        hv.data_addr(i) + hv.blocks[i].size <= hv.data_addr(j) || hv.data_addr(j) + hv.blocks[j].size
            <= hv.data_addr(i),
        hv.data_addr(i) != hv.data_addr(j),
{
    if i < j {
        lemma_addr_order(hv, i, j);
    } else {
        lemma_addr_order(hv, j, i);
    }
}

/// At most one block starts at a given address.
pub proof fn lemma_block_of(hv: HeapView, ptr: u32, i: int)
    requires
        hv.wf(),
        hv.holds_block(ptr, i),
    ensures
        hv.block_of(ptr) == Some(i),
{
    let j = choose|j: int| hv.holds_block(ptr, j);
    if i != j {
        lemma_blocks_disjoint(hv, i, j);
    }
}

/// What `first_fit_block` finds: a fitting block with no fitting block
/// between `from` and it, or nothing when no block from `from` on fits.
pub proof fn lemma_first_fit_block(blocks: Seq<Block>, need: int, from: int)
    requires
        0 <= from,
    ensures
        match first_fit_block(blocks, need, from) {
            Some(i) => from <= i < blocks.len() && fits(blocks[i], need) && (forall|k: int|
                from <= k < i ==> !fits(#[trigger] blocks[k], need)),
            None => forall|k: int| from <= k < blocks.len() ==> !fits(#[trigger] blocks[k], need),
        },
    decreases blocks.len() - from,
{
    if from < blocks.len() && !fits(blocks[from], need) {
        lemma_first_fit_block(blocks, need, from + 1);
    }
}

/// A fitting block that no fitting block precedes is the one that
/// `first_fit_block` finds.
pub proof fn lemma_first_fit_is(blocks: Seq<Block>, need: int, i: int)
    requires
        0 <= i < blocks.len(),
        fits(blocks[i], need),
        forall|k: int| 0 <= k < i ==> !fits(#[trigger] blocks[k], need),
    ensures
        first_fit_block(blocks, need, 0) == Some(i),
{
    lemma_first_fit_block(blocks, need, 0);
}

/// Handing out block `i` keeps the chain: the span is the same, the blocks
/// before `i` and the address of block `i` are untouched, every size is still
/// valid, and one more block is in use.
pub proof fn lemma_take_block(blocks: Seq<Block>, i: int, need: int)
    requires
        0 <= i < blocks.len(),
        fits(blocks[i], need),
        need >= MIN_ALLOC,
        need % 4 == 0,
        forall|k: int| 0 <= k < blocks.len() ==> (#[trigger] blocks[k]).size >= MIN_ALLOC && blocks[k].size % 4 == 0,
    ensures
        total_span(take_block(blocks, i, need)) == total_span(blocks),
        used_blocks(take_block(blocks, i, need)) == used_blocks(blocks) + 1,
        take_block(blocks, i, need).take(i) == blocks.take(i),
        take_block(blocks, i, need).len() > i,
        !take_block(blocks, i, need)[i].free,
        take_block(blocks, i, need)[i].size >= need,
        forall|k: int|
            0 <= k < take_block(blocks, i, need).len() ==> (#[trigger] take_block(blocks, i, need)[k]).size
                >= MIN_ALLOC && take_block(blocks, i, need)[k].size % 4 == 0,
{
    let b = blocks[i];
    let after = take_block(blocks, i, need);
    lemma_split(blocks, i);
    lemma_split(blocks.skip(i), 1);
    assert(blocks.skip(i).take(1) =~= seq![b]);
    assert(blocks.skip(i).skip(1) =~= blocks.skip(i + 1));
    lemma_small(b, b);
    assert(after.take(i) =~= blocks.take(i));
    lemma_split(after, i);
    if b.size - need > HEADER_SIZE + MIN_ALLOC {
        let head = Block { size: need as u32, free: false };
        let tail = Block { size: (b.size - need - HEADER_SIZE) as u32, free: true };
        lemma_split(after.skip(i), 2);
        assert(after.skip(i).take(2) =~= seq![head, tail]);
        assert(after.skip(i).skip(2) =~= blocks.skip(i + 1));
        lemma_small(head, tail);
        assert forall|k: int| 0 <= k < after.len() implies (#[trigger] after[k]).size >= MIN_ALLOC && after[k].size
            % 4 == 0 by {
            if k < i {
                assert(after[k] == blocks[k]);
            } else if k > i + 1 {
                assert(after[k] == blocks[k - 1]);
            }
        }
    } else {
        let head = Block { size: b.size, free: false };
        lemma_split(after.skip(i), 1);
        assert(after.skip(i).take(1) =~= seq![head]);
        assert(after.skip(i).skip(1) =~= blocks.skip(i + 1));
        lemma_small(head, head);
        assert forall|k: int| 0 <= k < after.len() implies (#[trigger] after[k]).size >= MIN_ALLOC && after[k].size
            % 4 == 0 by {
            if k != i {
                assert(after[k] == blocks[k]);
            }
        }
    }
}

/// Freeing block `i` keeps the chain: the span is the same, the blocks before
/// `i` and the address of block `i` are untouched, every size is still valid,
/// and one block fewer is in use.
pub proof fn lemma_release_block(blocks: Seq<Block>, i: int)
    requires
        0 <= i < blocks.len(),
        !blocks[i].free,
        total_span(blocks) <= u32::MAX,
        forall|k: int| 0 <= k < blocks.len() ==> (#[trigger] blocks[k]).size >= MIN_ALLOC && blocks[k].size % 4 == 0,
    ensures
        total_span(release_block(blocks, i)) == total_span(blocks),
        used_blocks(release_block(blocks, i)) == used_blocks(blocks) - 1,
        release_block(blocks, i).take(i) == blocks.take(i),
        release_block(blocks, i).len() > i,
        release_block(blocks, i)[i].free,
        release_block(blocks, i)[i].size >= blocks[i].size,
        i + 1 < blocks.len() && blocks[i + 1].free ==> release_block(blocks, i)[i].size == blocks[i].size + 8
            + blocks[i + 1].size,
        forall|k: int|
            0 <= k < release_block(blocks, i).len() ==> (#[trigger] release_block(blocks, i)[k]).size
                >= MIN_ALLOC && release_block(blocks, i)[k].size % 4 == 0,
{
    let b = blocks[i];
    let after = release_block(blocks, i);
    lemma_split(blocks, i);
    assert(after.take(i) =~= blocks.take(i));
    lemma_split(after, i);
    if i + 1 < blocks.len() && blocks[i + 1].free {
        let c = blocks[i + 1];
        lemma_split(blocks.skip(i), 2);
        assert(blocks.skip(i).take(2) =~= seq![b, c]);
        assert(blocks.skip(i).skip(2) =~= blocks.skip(i + 2));
        lemma_small(b, c);
        lemma_nonneg(blocks.take(i));
        lemma_nonneg(blocks.skip(i + 2));
        let merged = Block { size: (b.size + HEADER_SIZE + c.size) as u32, free: true };
        assert(b.size + HEADER_SIZE + c.size <= u32::MAX);
        lemma_split(after.skip(i), 1);
        assert(after.skip(i).take(1) =~= seq![merged]);
        assert(after.skip(i).skip(1) =~= blocks.skip(i + 2));
        lemma_small(merged, merged);
        assert forall|k: int| 0 <= k < after.len() implies (#[trigger] after[k]).size >= MIN_ALLOC && after[k].size
            % 4 == 0 by {
            if k < i {
                assert(after[k] == blocks[k]);
            } else if k > i {
                assert(after[k] == blocks[k + 1]);
            }
        }
    } else {
        let head = Block { size: b.size, free: true };
        lemma_split(blocks.skip(i), 1);
        assert(blocks.skip(i).take(1) =~= seq![b]);
        assert(blocks.skip(i).skip(1) =~= blocks.skip(i + 1));
        lemma_small(b, b);
        lemma_split(after.skip(i), 1);
        assert(after.skip(i).take(1) =~= seq![head]);
        assert(after.skip(i).skip(1) =~= blocks.skip(i + 1));
        lemma_small(head, head);
        assert forall|k: int| 0 <= k < after.len() implies (#[trigger] after[k]).size >= MIN_ALLOC && after[k].size
            % 4 == 0 by {
            if k != i {
                assert(after[k] == blocks[k]);
            }
        }
    }
}

/// The index of the block that serves a request for `size` bytes: the first
/// block that fits, or a new block behind the last one.
pub open spec fn served_index(hv: HeapView, size: u32) -> int {
    match first_fit_block(hv.blocks, rounded(size), 0) {
        Some(i) => i,
        None => hv.blocks.len() as int,
    }
}

/// A successful allocation leaves a well-formed heap in which a block in use
/// starts at the address handed out.  The block holds at least the bytes
/// asked for and lies inside the arena, and the blocks before it are
/// untouched.
pub proof fn lemma_kmalloc_block(hv: HeapView, frames: int, size: u32)
    requires
        hv.wf(),
        kmalloc_outcome(hv, frames, size) is Some,
    ensures
        kmalloc_outcome(hv, frames, size).unwrap().0.wf(),
        kmalloc_outcome(hv, frames, size).unwrap().0.holds_block(
            kmalloc_outcome(hv, frames, size).unwrap().1,
            served_index(hv, size),
        ),
        kmalloc_outcome(hv, frames, size).unwrap().0.blocks.take(served_index(hv, size)) == hv.blocks.take(
            served_index(hv, size),
        ),
        !kmalloc_outcome(hv, frames, size).unwrap().0.blocks[served_index(hv, size)].free,
        kmalloc_outcome(hv, frames, size).unwrap().0.blocks[served_index(hv, size)].size >= rounded(size)
            >= size,
        kmalloc_outcome(hv, frames, size).unwrap().1 + kmalloc_outcome(hv, frames, size).unwrap().0.blocks[served_index(
            hv,
            size,
        )].size <= kmalloc_outcome(hv, frames, size).unwrap().0.arena.brk,
        kmalloc_outcome(hv, frames, size).unwrap().1 >= hv.arena.start + HEADER_SIZE,
        kmalloc_outcome(hv, frames, size).unwrap().1 % 4 == 0,
{
    lemma_align_bounds(size as int, 4);
    lemma_first_fit_block(hv.blocks, rounded(size), 0);
    if first_fit_block(hv.blocks, rounded(size), 0) is Some {
        lemma_kmalloc_fit(hv, served_index(hv, size), rounded(size));
    } else {
        lemma_kmalloc_grow(hv, frames, rounded(size));
    }
}

/// The heap after block `i`, which fits, has been handed out.
proof fn lemma_kmalloc_fit(hv: HeapView, i: int, need: int)
    requires
        hv.wf(),
        0 <= i < hv.blocks.len(),
        fits(hv.blocks[i], need),
        need >= MIN_ALLOC,
        need % 4 == 0,
    ensures
        ({
            let h1 = HeapView {
                arena: hv.arena,
                blocks: take_block(hv.blocks, i, need),
                alloc_count: hv.alloc_count + 1,
            };
            &&& h1.wf()
            &&& h1.data_addr(i) == hv.data_addr(i)
            &&& hv.arena.start + HEADER_SIZE <= hv.data_addr(i) <= u32::MAX
            &&& hv.data_addr(i) % 4 == 0
            &&& i < h1.blocks.len()
            &&& h1.blocks.take(i) == hv.blocks.take(i)
            &&& !h1.blocks[i].free
            &&& h1.blocks[i].size >= need
            &&& h1.data_addr(i) + h1.blocks[i].size <= h1.arena.brk
        }),
{
    let h1 = HeapView { arena: hv.arena, blocks: take_block(hv.blocks, i, need), alloc_count: hv.alloc_count + 1 };
    lemma_take_block(hv.blocks, i, need);
    lemma_addr_order(hv, i, i + 1);
    lemma_split(hv.blocks, i);
    lemma_span_aligned(hv.blocks.take(i));
    assert(h1.wf());
    lemma_addr_order(h1, i, i + 1);
}

/// The heap after the arena has grown for a new block of `need` bytes.
proof fn lemma_kmalloc_grow(hv: HeapView, frames: int, need: int)
    requires
        hv.wf(),
        hv.arena.can_grow(frames, HEADER_SIZE + need),
        MIN_ALLOC <= need <= u32::MAX,
        need % 4 == 0,
    ensures
        ({
            let i = hv.blocks.len() as int;
            let h1 = HeapView {
                arena: hv.arena.grown(HEADER_SIZE + need),
                blocks: hv.blocks.push(Block { size: need as u32, free: false }),
                alloc_count: hv.alloc_count + 1,
            };
            &&& h1.wf()
            &&& h1.data_addr(i) == hv.arena.brk + HEADER_SIZE
            &&& hv.arena.brk + HEADER_SIZE <= u32::MAX
            &&& (hv.arena.brk + HEADER_SIZE) % 4 == 0
            &&& h1.blocks.take(i) == hv.blocks.take(i)
            &&& !h1.blocks[i].free
            &&& h1.blocks[i].size == need
            &&& h1.data_addr(i) + h1.blocks[i].size <= h1.arena.brk
        }),
{
    let i = hv.blocks.len() as int;
    let fresh = Block { size: need as u32, free: false };
    let h1 = HeapView {
        arena: hv.arena.grown(HEADER_SIZE + need),
        blocks: hv.blocks.push(fresh),
        alloc_count: hv.alloc_count + 1,
    };
    lemma_align_bounds(hv.arena.brk + HEADER_SIZE + need, 4096);
    lemma_nonneg(hv.blocks);
    lemma_span_aligned(hv.blocks);
    assert(h1.blocks.drop_last() =~= hv.blocks);
    assert(h1.blocks.take(i) =~= hv.blocks);
    assert(hv.blocks.take(i) =~= hv.blocks);
    assert(total_span(h1.blocks) == total_span(hv.blocks) + 8 + need);
    assert(used_blocks(h1.blocks) == used_blocks(hv.blocks) + 1);
    assert(h1.arena.wf());
    assert(h1.wf());
}

/// After a successful allocation, freeing the block and asking for the same
/// size again hands out the same address: the freed block is the first that
/// fits.
pub proof fn lemma_free_then_alloc_reuses(hv: HeapView, frames: int, size: u32)
    requires
        hv.wf(),
        kmalloc_outcome(hv, frames, size) is Some,
    ensures
        kmalloc_outcome(hv, frames, size).unwrap().0.wf(),
        kfree_outcome(kmalloc_outcome(hv, frames, size).unwrap().0, kmalloc_outcome(hv, frames, size).unwrap().1)
            is Ok,
        kmalloc_outcome(
            kfree_outcome(
                kmalloc_outcome(hv, frames, size).unwrap().0,
                kmalloc_outcome(hv, frames, size).unwrap().1,
            ).unwrap(),
            frames,
            size,
        ) is Some,
        kmalloc_outcome(
            kfree_outcome(
                kmalloc_outcome(hv, frames, size).unwrap().0,
                kmalloc_outcome(hv, frames, size).unwrap().1,
            ).unwrap(),
            frames,
            size,
        ).unwrap().1 == kmalloc_outcome(hv, frames, size).unwrap().1,
{
    let need = rounded(size);
    let (h1, p) = kmalloc_outcome(hv, frames, size).unwrap();
    let i = served_index(hv, size);
    lemma_kmalloc_block(hv, frames, size);
    lemma_first_fit_block(hv.blocks, need, 0);
    lemma_block_of(h1, p, i);
    lemma_nonneg(h1.blocks);
    lemma_release_block(h1.blocks, i);
    let h2 = kfree_outcome(h1, p).unwrap();
    assert(h2.blocks == release_block(h1.blocks, i));
    assert forall|k: int| 0 <= k < i implies !fits(#[trigger] h2.blocks[k], need) by {
        assert(h2.blocks[k] == h2.blocks.take(i)[k]);
        assert(hv.blocks[k] == hv.blocks.take(i)[k]);
    }
    lemma_first_fit_is(h2.blocks, need, i);
    assert(h2.blocks.take(i) == hv.blocks.take(i));
}

/// `n` bytes of zero.
pub open spec fn zeros(n: int) -> Seq<u8> {
    Seq::new(n as nat, |i: int| 0u8)
}

/// The bytes `mem` with the `n` bytes from offset `at` on set to zero.
pub open spec fn zeroed(mem: Seq<u8>, at: int, n: int) -> Seq<u8> {
    Seq::new(mem.len(), |i: int| if at <= i < at + n { 0u8 } else { mem[i] })
}

/// The kernel heap: an arena, the chain of blocks that fills it, and the
/// bytes of the arena.
pub struct Heap {
    arena: Arena,
    blocks: Vec<BlockHeader>,
    alloc_count: u32,
    bytes: Vec<u8>,
}

impl Heap {
    /// The heap as plain values.
    pub closed spec fn view(&self) -> HeapView {
        HeapView {
            arena: self.arena@,
            blocks: Seq::new(
                self.blocks@.len(),
                |i: int| Block { size: self.blocks@[i].size, free: self.blocks@[i].free() },
            ),
            alloc_count: self.alloc_count as int,
        }
    }

    /// The bytes of the arena, from its start to the break.  The bytes of a
    /// block's data lie at the offset of its data address from the start.
    pub closed spec fn mem(&self) -> Seq<u8> {
        self.bytes@
    }

    /// The blocks fill the arena without a gap, and there is a byte for each
    /// address of the arena.
    pub open spec fn wf(&self) -> bool {
        &&& self@.wf()
        &&& self.mem().len() == self@.arena.brk - self@.arena.start
    }
}

/// Sets up an empty heap on the first frame boundary after the kernel image
/// and reserves its first frame in `frames`.  Fails, with nothing changed,
/// when that frame is not managed.
pub fn init(image: &KernelImage, frames: &mut FrameAllocator) -> (r: Result<Heap, MemError>)
    requires
        old(frames).wf(),
    ensures
        final(frames).wf(),
        final(frames)@.len() == old(frames)@.len(),
        r is Ok <==> align_up_spec(image.end as int, 4096) + 4096 <= old(frames)@.len() * 4096,
        match r {
            Ok(heap) => {
                &&& heap.wf()
                &&& heap@.arena.start == align_up_spec(image.end as int, 4096)
                &&& heap@.arena.brk == heap@.arena.start
                &&& heap@.arena.end == heap@.arena.start + 4096
                &&& heap@.blocks.len() == 0
                &&& heap.mem().len() == 0
                &&& final(frames)@ == old(frames)@.update(heap@.arena.start / 4096, true)
            },
            Err(e) => e == MemError::OutOfFrames && *final(frames) == *old(frames),
        },
{
    proof {
        lemma_align_bounds(image.end as int, 4096);
        frames.lemma_wf();
    }
    let total: u32 = total_frames(frames);
    let end: u32 = image.end;
    let first: u32 = if end % PAGE_SIZE == 0 {
        end / PAGE_SIZE
    } else {
        end / PAGE_SIZE + 1
    };
    if first >= total {
        return Err(MemError::OutOfFrames);
    }
    let heap_start: u32 = first * PAGE_SIZE;
    reserve_frame(frames, heap_start);
    let heap = Heap {
        arena: Arena { start: heap_start, brk: heap_start, end_frame: first + 1 },
        blocks: Vec::new(),
        alloc_count: 0,
        bytes: Vec::new(),
    };
    proof {
        assert(heap@.blocks =~= Seq::<Block>::empty());
    }
    Ok(heap)
}

impl Heap {
    /// The first block that can serve a request that needs `alloc_size` bytes,
    /// with the address of its header.
    fn locate_fit(&self, alloc_size: u32) -> (r: Option<(usize, u32)>)
        requires
            self.wf(),
        ensures
            match first_fit_block(self@.blocks, alloc_size as int, 0) {
                Some(i) => r == Some((i as usize, self@.header_addr(i) as u32)) && 0 <= i < self@.blocks.len()
                    && self@.data_addr(i) <= u32::MAX,
                None => r is None,
            },
    {
        let n: usize = self.blocks.len();
        let mut i: usize = 0;
        let mut addr: u32 = self.arena.start;
        proof {
            assert(self@.blocks.take(0) =~= Seq::<Block>::empty());
        }
        while i < n
            invariant
                i <= n,
                n == self.blocks@.len(),
                self.wf(),
                addr == self@.header_addr(i as int),
                forall|k: int| 0 <= k < i ==> !fits(#[trigger] self@.blocks[k], alloc_size as int),
            decreases n - i,
        {
            let block: BlockHeader = self.blocks[i];
            proof {
                lemma_addr_order(self@, i as int, i + 1);
                assert(self@.blocks[i as int].size == block.size);
                assert(self@.blocks[i as int].free == block.free());
            }
            if block.is_free() && block.size >= alloc_size {
                proof {
                    lemma_first_fit_is(self@.blocks, alloc_size as int, i as int);
                }
                return Some((i, addr));
            }
            addr = block.next(addr);
            i += 1;
            proof {
                let s = self@.blocks;
                assert(s.take(i as int).drop_last() =~= s.take(i - 1));
            }
        }
        proof {
            lemma_first_fit_block(self@.blocks, alloc_size as int, 0);
        }
        None
    }

    /// Hands out block `i` for a request that needs `alloc_size` bytes.
    fn hand_out(&mut self, i: usize, alloc_size: u32)
        requires
            old(self).wf(),
            i < old(self)@.blocks.len(),
            fits(old(self)@.blocks[i as int], alloc_size as int),
            alloc_size >= MIN_ALLOC,
            alloc_size % 4 == 0,
        ensures
            final(self).wf(),
            final(self).mem() == old(self).mem(),
            final(self)@ == (HeapView {
                arena: old(self)@.arena,
                blocks: take_block(old(self)@.blocks, i as int, alloc_size as int),
                alloc_count: old(self)@.alloc_count + 1,
            }),
    {
        let block: BlockHeader = self.blocks[i];
        proof {
            assert(self@.blocks[i as int].size == block.size);
            lemma_take_block(self@.blocks, i as int, alloc_size as int);
            lemma_nonneg(self@.blocks);
            lemma_flag_bits(block.flags);
        }
        let remaining: u32 = block.size - alloc_size;
        let mut head: BlockHeader = block;
        if remaining > HEADER_SIZE + MIN_ALLOC {
            head.size = alloc_size;
            head.set_used();
            self.blocks.set(i, head);
            self.blocks.insert(i + 1, BlockHeader { size: block.size - alloc_size - HEADER_SIZE, flags: FLAG_FREE });
        } else {
            head.set_used();
            self.blocks.set(i, head);
        }
        self.alloc_count = self.alloc_count + 1;
        proof {
            assert(self@.blocks =~= take_block(old(self)@.blocks, i as int, alloc_size as int));
        }
    }

    /// Appends a block in use of `alloc_size` bytes, for which the arena has
    /// just grown.
    fn append(&mut self, alloc_size: u32)
        requires
            old(self)@.arena.wf(),
            forall|k: int|
                0 <= k < old(self)@.blocks.len() ==> (#[trigger] old(self)@.blocks[k]).size >= MIN_ALLOC && old(
                    self,
                )@.blocks[k].size % 4 == 0,
            old(self)@.alloc_count == used_blocks(old(self)@.blocks),
            old(self)@.arena.start + total_span(old(self)@.blocks) + HEADER_SIZE + alloc_size == old(
                self,
            )@.arena.brk,
            old(self).mem().len() == total_span(old(self)@.blocks),
            alloc_size >= MIN_ALLOC,
            alloc_size % 4 == 0,
        ensures
            final(self).wf(),
            final(self).mem() == old(self).mem() + zeros(HEADER_SIZE + alloc_size),
            final(self)@ == (HeapView {
                arena: old(self)@.arena,
                blocks: old(self)@.blocks.push(Block { size: alloc_size, free: false }),
                alloc_count: old(self)@.alloc_count + 1,
            }),
    {
        proof {
            lemma_nonneg(self@.blocks);
        }
        let new_len: usize = (self.arena.brk - self.arena.start) as usize;
        self.bytes.resize(new_len, 0u8);
        proof {
            assert(self.bytes@ =~= old(self).bytes@ + zeros(HEADER_SIZE + alloc_size));
        }
        self.blocks.push(BlockHeader { size: alloc_size, flags: 0 });
        self.alloc_count = self.alloc_count + 1;
        proof {
            let fresh = Block { size: alloc_size, free: false };
            lemma_flag_bits(0);
            assert(self@.blocks =~= old(self)@.blocks.push(fresh));
            assert(self@.blocks.drop_last() =~= old(self)@.blocks);
        }
    }
}

/// Allocates `size` bytes and returns the address of the data.
///
/// The size is rounded up to at least eight bytes and to a multiple of four.
/// The first free block that is large enough is used: cut in two when more
/// than a header and a minimal block would be left over, whole otherwise.
/// When no block fits, the arena grows by a header and the rounded size, and
/// the new block lies at the old break.  `None`, with nothing changed, for a
/// request of zero bytes or when the arena cannot grow.
pub fn kmalloc(heap: &mut Heap, frames: &mut FrameAllocator, size: u32) -> (r: Option<u32>)
    requires
        old(heap).wf(),
        old(frames).wf(),
    ensures
        final(heap).wf(),
        final(frames).wf(),
        final(frames)@.len() == old(frames)@.len(),
        match kmalloc_outcome(old(heap)@, old(frames)@.len() as int, size) {
            Some((hv, p)) => {
                &&& r == Some(p)
                &&& p % 4 == 0
                &&& final(heap)@ == hv
                &&& final(heap).mem() == old(heap).mem() + zeros(hv.arena.brk - old(heap)@.arena.brk)
                &&& final(frames)@ == mark_run(
                    old(frames)@,
                    old(heap)@.arena.end / 4096,
                    (hv.arena.end - old(heap)@.arena.end) / 4096,
                )
            },
            None => {
                &&& r is None
                &&& *final(heap) == *old(heap)
                &&& *final(frames) == *old(frames)
            },
        },
{
    if size == 0 {
        return None;
    }
    proof {
        lemma_align_bounds(size as int, 4);
        lemma_nonneg(heap@.blocks);
        lemma_first_fit_block(heap@.blocks, rounded(size), 0);
        if kmalloc_outcome(heap@, frames@.len() as int, size) is Some {
            lemma_kmalloc_block(heap@, frames@.len() as int, size);
        }
    }
    if size > 0xFFFF_FFFC {
        return None;
    }
    let alloc_size: u32 = if size < MIN_ALLOC {
        MIN_ALLOC
    } else {
        align_up(size, 4)
    };
    match heap.locate_fit(alloc_size) {
        Some((i, addr)) => {
            proof {
                assert(frames@ =~= mark_run(old(frames)@, old(heap)@.arena.end / 4096, 0));
                assert(heap.mem() =~= heap.mem() + zeros(0));
            }
            heap.hand_out(i, alloc_size);
            Some(addr + HEADER_SIZE)
        },
        None => {
            if alloc_size > u32::MAX - HEADER_SIZE {
                return None;
            }
            match kbrk(&mut heap.arena, frames, HEADER_SIZE + alloc_size) {
                None => None,
                Some(old_brk) => {
                    heap.append(alloc_size);
                    Some(old_brk + HEADER_SIZE)
                },
            }
        },
    }
}

impl Heap {
    /// The block whose data starts at `ptr`.
    fn locate_block(&self, ptr: u32) -> (r: Option<usize>)
        requires
            self.wf(),
        ensures
            match r {
                Some(i) => self@.block_of(ptr) == Some(i as int) && self@.holds_block(ptr, i as int),
                None => self@.block_of(ptr) is None,
            },
    {
        let n: usize = self.blocks.len();
        let mut i: usize = 0;
        let mut addr: u32 = self.arena.start;
        proof {
            assert(self@.blocks.take(0) =~= Seq::<Block>::empty());
        }
        while i < n
            invariant
                i <= n,
                n == self.blocks@.len(),
                self.wf(),
                addr == self@.header_addr(i as int),
                forall|k: int| 0 <= k < i ==> !self@.holds_block(ptr, k),
            decreases n - i,
        {
            let block: BlockHeader = self.blocks[i];
            proof {
                lemma_addr_order(self@, i as int, i + 1);
                assert(self@.blocks[i as int].size == block.size);
            }
            if addr + HEADER_SIZE == ptr {
                proof {
                    lemma_block_of(self@, ptr, i as int);
                }
                return Some(i);
            }
            addr = block.next(addr);
            i += 1;
            proof {
                let s = self@.blocks;
                assert(s.take(i as int).drop_last() =~= s.take(i - 1));
            }
        }
        None
    }
}

/// Frees the block whose data starts at `ptr`.
///
/// The block is marked as free; where the block right behind it is free as
/// well, the two become one block.  The block before it is left alone.
/// Freeing the null address does nothing.  Fails, with nothing changed, when
/// no block starts at `ptr` or when the block is free already.
pub fn kfree(heap: &mut Heap, ptr: u32) -> (r: Result<(), MemError>)
    requires
        old(heap).wf(),
    ensures
        final(heap).wf(),
        final(heap).mem() == old(heap).mem(),
        match kfree_outcome(old(heap)@, ptr) {
            Ok(hv) => r is Ok && final(heap)@ == hv,
            Err(e) => r == Err::<(), MemError>(e) && *final(heap) == *old(heap),
        },
{
    if ptr == 0 {
        return Ok(());
    }
    let i: usize = match heap.locate_block(ptr) {
        Some(i) => i,
        None => {
            return Err(MemError::UnknownPointer);
        },
    };
    let mut block: BlockHeader = heap.blocks[i];
    proof {
        assert(heap@.blocks[i as int].size == block.size);
        assert(heap@.blocks[i as int].free == block.free());
    }
    if block.is_free() {
        return Err(MemError::DoubleFree);
    }
    proof {
        lemma_nonneg(heap@.blocks);
        lemma_release_block(heap@.blocks, i as int);
        lemma_nonneg(release_block(heap@.blocks, i as int));
        lemma_flag_bits(block.flags);
    }
    block.set_free();
    if i + 1 < heap.blocks.len() {
        let next: BlockHeader = heap.blocks[i + 1];
        proof {
            assert(heap@.blocks[i + 1].size == next.size);
            assert(heap@.blocks[i + 1].free == next.free());
        }
        if next.is_free() {
            block.size = block.size + HEADER_SIZE + next.size;
            heap.blocks.set(i, block);
            heap.blocks.remove(i + 1);
        } else {
            heap.blocks.set(i, block);
        }
    } else {
        heap.blocks.set(i, block);
    }
    heap.alloc_count = heap.alloc_count - 1;
    proof {
        assert(heap@.blocks =~= release_block(old(heap)@.blocks, i as int));
    }
    Ok(())
}

/// The data size of the block at `ptr`, which may be more than was asked
/// for.  Zero for the null address and for an address where no block starts.
pub fn ksize(heap: &Heap, ptr: u32) -> (r: u32)
    requires
        heap.wf(),
    ensures
        r == ksize_spec(heap@, ptr),
{
    if ptr == 0 {
        return 0;
    }
    match heap.locate_block(ptr) {
        Some(i) => {
            proof {
                assert(heap@.blocks[i as int].size == heap.blocks@[i as int].size);
            }
            heap.blocks[i].size
        },
        None => 0,
    }
}

/// Allocates `size` bytes as `kmalloc` does and fills them with zero.
pub fn kmalloc_zeroed(heap: &mut Heap, frames: &mut FrameAllocator, size: u32) -> (r: Option<u32>)
    requires
        old(heap).wf(),
        old(frames).wf(),
    ensures
        final(heap).wf(),
        final(frames).wf(),
        final(frames)@.len() == old(frames)@.len(),
        match kmalloc_outcome(old(heap)@, old(frames)@.len() as int, size) {
            Some((hv, p)) => {
                &&& r == Some(p)
                &&& final(heap)@ == hv
                &&& p - hv.arena.start + size <= final(heap).mem().len()
                &&& final(heap).mem() == zeroed(
                    old(heap).mem() + zeros(hv.arena.brk - old(heap)@.arena.brk),
                    p - hv.arena.start,
                    size as int,
                )
                &&& final(frames)@ == mark_run(
                    old(frames)@,
                    old(heap)@.arena.end / 4096,
                    (hv.arena.end - old(heap)@.arena.end) / 4096,
                )
            },
            None => {
                &&& r is None
                &&& *final(heap) == *old(heap)
                &&& *final(frames) == *old(frames)
            },
        },
{
    let ptr: u32 = match kmalloc(heap, frames, size) {
        Some(ptr) => ptr,
        None => {
            return None;
        },
    };
    let ghost after = heap.mem();
    let ghost hv = heap@;
    proof {
        lemma_kmalloc_block(old(heap)@, old(frames)@.len() as int, size);
        assert(after =~= zeroed(after, ptr - hv.arena.start, 0));
    }
    let base: usize = (ptr - heap.arena.start) as usize;
    let mut k: u32 = 0;
    while k < size
        invariant
            k <= size,
            heap.wf(),
            heap@ == hv,
            base == ptr - hv.arena.start,
            base + size <= heap.mem().len(),
            heap.mem() == zeroed(after, base as int, k as int),
        decreases size - k,
    {
        heap.bytes.set(base + k as usize, 0u8);
        k += 1;
        proof {
            assert(heap.mem() =~= zeroed(after, base as int, k as int));
        }
    }
    Some(ptr)
}

/// The byte at `addr`, or `None` when `addr` lies outside the arena.
pub fn read_byte(heap: &Heap, addr: u32) -> (r: Option<u8>)
    requires
        heap.wf(),
    ensures
        r == if heap@.arena.start <= addr < heap@.arena.brk {
            Some(heap.mem()[addr - heap@.arena.start])
        } else {
            None
        },
{
    if addr >= heap.arena.start && addr < heap.arena.brk {
        Some(heap.bytes[(addr - heap.arena.start) as usize])
    } else {
        None
    }
}

/// Writes `value` to the byte at `addr` and says whether `addr` lies in the
/// arena; nothing is written when it does not.  The headers of the blocks
/// are kept apart from these bytes, so no write can damage the chain.
pub fn write_byte(heap: &mut Heap, addr: u32, value: u8) -> (r: bool)
    requires
        old(heap).wf(),
    ensures
        final(heap).wf(),
        final(heap)@ == old(heap)@,
        r == (old(heap)@.arena.start <= addr < old(heap)@.arena.brk),
        final(heap).mem() == if r {
            old(heap).mem().update(addr - old(heap)@.arena.start, value)
        } else {
            old(heap).mem()
        },
{
    if addr >= heap.arena.start && addr < heap.arena.brk {
        heap.bytes.set((addr - heap.arena.start) as usize, value);
        true
    } else {
        false
    }
}

/// The span of a chain of blocks whose sizes are multiples of four is one too.
pub proof fn lemma_span_aligned(s: Seq<Block>)
    requires
        forall|k: int| 0 <= k < s.len() ==> (#[trigger] s[k]).size % 4 == 0,
    ensures
        total_span(s) % 4 == 0,
    decreases s.len(),
{
    if s.len() > 0 {
        lemma_span_aligned(s.drop_last());
    }
}

/// One line of the block listing.
#[derive(Clone, Copy, Debug, PartialEq, Eq, Structural)]
pub struct BlockInfo {
    /// Address of the header of the block.
    pub addr: u32,
    /// Bytes of data in the block.
    pub size: u32,
    /// Whether the block is free.
    pub free: bool,
}

/// The figures of the heap that the kernel shows to its user.
#[derive(Debug, PartialEq, Eq)]
pub struct HeapInfo {
    /// First address of the arena.
    pub start: u32,
    /// The break.
    pub brk: u32,
    /// First address behind the frames reserved for the arena.
    pub end: u64,
    /// Bytes between the start and the break.
    pub used_bytes: u32,
    /// Frames reserved for the arena.
    pub pages: u32,
    /// Blocks in use.
    pub alloc_count: u32,
    /// Every block, in the order of the addresses.
    pub blocks: Vec<BlockInfo>,
    /// Bytes of data in the blocks in use.
    pub total_used: u32,
    /// Bytes of data in the free blocks.
    pub total_free: u32,
}

/// The bytes of data in those of the first `n` blocks that are free, or in
/// those that are in use.
pub open spec fn data_bytes(blocks: Seq<Block>, n: int, free: bool) -> int
    decreases n,
{
    if n <= 0 {
        0
    } else {
        data_bytes(blocks, n - 1, free) + if blocks[n - 1].free == free {
            blocks[n - 1].size as int
        } else {
            0int
        }
    }
}

/// The data of the first `n` blocks, free and in use together, fits in their
/// span.
pub proof fn lemma_data_bytes(blocks: Seq<Block>, n: int)
    requires
        0 <= n <= blocks.len(),
    ensures
        0 <= data_bytes(blocks, n, true),
        0 <= data_bytes(blocks, n, false),
        data_bytes(blocks, n, true) + data_bytes(blocks, n, false) + 8 * n == total_span(blocks.take(n)),
    decreases n,
{
    if n > 0 {
        lemma_data_bytes(blocks, n - 1);
        assert(blocks.take(n).drop_last() =~= blocks.take(n - 1));
    } else {
        assert(blocks.take(0) =~= Seq::<Block>::empty());
    }
}

/// The figures of the heap, with the listing of all its blocks.
pub fn heap_info(heap: &Heap) -> (r: HeapInfo)
    requires
        heap.wf(),
    ensures
        r.start == heap@.arena.start,
        r.brk == heap@.arena.brk,
        r.end == heap@.arena.end,
        r.used_bytes == heap@.arena.brk - heap@.arena.start,
        r.pages == (heap@.arena.end - heap@.arena.start) / 4096,
        r.alloc_count == heap@.alloc_count,
        r.blocks@.len() == heap@.blocks.len(),
        forall|i: int|
            0 <= i < heap@.blocks.len() ==> #[trigger] r.blocks@[i] == (BlockInfo {
                addr: heap@.header_addr(i) as u32,
                size: heap@.blocks[i].size,
                free: heap@.blocks[i].free,
            }),
        r.total_used == data_bytes(heap@.blocks, heap@.blocks.len() as int, false),
        r.total_free == data_bytes(heap@.blocks, heap@.blocks.len() as int, true),
{
    let n: usize = heap.blocks.len();
    let mut blocks: Vec<BlockInfo> = Vec::new();
    let mut total_used: u32 = 0;
    let mut total_free: u32 = 0;
    let mut addr: u32 = heap.arena.start;
    let mut i: usize = 0;
    proof {
        assert(heap@.blocks.take(0) =~= Seq::<Block>::empty());
    }
    while i < n
        invariant
            i <= n,
            n == heap.blocks@.len(),
            heap.wf(),
            addr == heap@.header_addr(i as int),
            blocks@.len() == i,
            forall|k: int|
                0 <= k < i ==> #[trigger] blocks@[k] == (BlockInfo {
                    addr: heap@.header_addr(k) as u32,
                    size: heap@.blocks[k].size,
                    free: heap@.blocks[k].free,
                }),
            total_used == data_bytes(heap@.blocks, i as int, false),
            total_free == data_bytes(heap@.blocks, i as int, true),
        decreases n - i,
    {
        let block: BlockHeader = heap.blocks[i];
        proof {
            lemma_addr_order(heap@, i as int, i + 1);
            lemma_data_bytes(heap@.blocks, i + 1);
            lemma_split(heap@.blocks, i + 1);
            assert(heap@.blocks[i as int].size == block.size);
            assert(heap@.blocks[i as int].free == block.free());
        }
        let free: bool = block.is_free();
        blocks.push(BlockInfo { addr, size: block.size, free });
        if free {
            total_free += block.size;
        } else {
            total_used += block.size;
        }
        addr = block.next(addr);
        i += 1;
        proof {
            let s = heap@.blocks;
            assert(s.take(i as int).drop_last() =~= s.take(i - 1));
        }
    }
    let start_frame: u32 = heap.arena.start / PAGE_SIZE;
    HeapInfo {
        start: heap.arena.start,
        brk: heap.arena.brk,
        end: heap.arena.end_frame as u64 * 4096,
        used_bytes: heap.arena.brk - heap.arena.start,
        pages: heap.arena.end_frame - start_frame,
        alloc_count: heap.alloc_count,
        blocks,
        total_used,
        total_free,
    }
}

} // verus!
