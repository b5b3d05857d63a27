use tacos::memory::frame::{init as frame_init, is_frame_used, used_frames, FrameAllocator};
use tacos::memory::heap::{
    init, kbrk, kfree, kmalloc, kmalloc_zeroed, ksize, read_byte, write_byte, Arena, BlockHeader, Heap,
};
use tacos::memory::{KernelImage, MemError};

const MIB: u32 = 1024 * 1024;

fn setup() -> (Heap, FrameAllocator) {
    let image = KernelImage { start: MIB, end: 2 * MIB + 1 };
    let mut fa = frame_init(&[(0, 16 * MIB)], &image, 16 * MIB);
    let heap = init(&image, &mut fa).unwrap();
    (heap, fa)
}

const START: u32 = 2 * MIB + 4096;

#[test]
fn init_reserves_the_first_frame_behind_the_kernel() {
    let image = KernelImage { start: MIB, end: 2 * MIB + 1 };
    let mut fa = frame_init(&[(0, 16 * MIB)], &image, 16 * MIB);
    let used = used_frames(&fa);
    assert!(!is_frame_used(&fa, START));
    let heap = init(&image, &mut fa).unwrap();
    assert!(is_frame_used(&fa, START));
    assert_eq!(used_frames(&fa), used + 1);
    assert_eq!(ksize(&heap, START + 8), 0);
}

#[test]
fn init_fails_beyond_the_managed_memory() {
    let image = KernelImage { start: MIB, end: 16 * MIB };
    let mut fa = frame_init(&[(0, 16 * MIB)], &image, 16 * MIB);
    let used = used_frames(&fa);
    assert!(matches!(init(&image, &mut fa), Err(MemError::OutOfFrames)));
    assert_eq!(used_frames(&fa), used);
}

#[test]
fn block_header_flags() {
    let mut h = BlockHeader { size: 24, flags: 0 };
    assert!(!h.is_free());
    h.set_free();
    assert!(h.is_free());
    assert_eq!(h.flags, 1);
    h.set_used();
    assert!(!h.is_free());
    assert_eq!((h.size, h.flags), (24, 0));
    let mut g = BlockHeader { size: 8, flags: 0xF0 };
    g.set_free();
    assert_eq!(g.flags, 0xF1);
    g.set_used();
    assert_eq!(g.flags, 0xF0);
    assert_eq!(g.data_ptr(0x1000), 0x1008);
    assert_eq!(g.next(0x1000), 0x1010);
    assert_eq!(h.next(0x2000), 0x2020);
}

#[test]
fn kmalloc_rounds_and_reuses_without_split() {
    let (mut heap, mut fa) = setup();
    let p = kmalloc(&mut heap, &mut fa, 10).unwrap();
    assert_eq!(p, START + 8);
    assert_eq!(ksize(&heap, p), 12);
    assert_eq!(kfree(&mut heap, p), Ok(()));
    let q = kmalloc(&mut heap, &mut fa, 8).unwrap();
    assert_eq!(q, p);
    // The remainder of four bytes is too small for a block of its own.
    assert_eq!(ksize(&heap, q), 12);
}

#[test]
fn kmalloc_of_zero_is_null() {
    let (mut heap, mut fa) = setup();
    assert_eq!(kmalloc(&mut heap, &mut fa, 0), None);
    assert_eq!(kmalloc_zeroed(&mut heap, &mut fa, 0), None);
}

#[test]
fn kmalloc_has_a_minimum_size() {
    let (mut heap, mut fa) = setup();
    let p = kmalloc(&mut heap, &mut fa, 1).unwrap();
    assert_eq!(ksize(&heap, p), 8);
    let q = kmalloc(&mut heap, &mut fa, 9).unwrap();
    assert_eq!(q, p + 8 + 8);
    assert_eq!(ksize(&heap, q), 12);
    let r = kmalloc(&mut heap, &mut fa, 16).unwrap();
    assert_eq!(r, q + 12 + 8);
    assert_eq!(ksize(&heap, r), 16);
}

#[test]
fn free_then_alloc_returns_the_same_address() {
    let (mut heap, mut fa) = setup();
    let a = kmalloc(&mut heap, &mut fa, 100).unwrap();
    let _b = kmalloc(&mut heap, &mut fa, 100).unwrap();
    for s in [1u32, 50, 100] {
        assert_eq!(kfree(&mut heap, a), Ok(()));
        assert_eq!(kmalloc(&mut heap, &mut fa, s), Some(a));
    }
    let c = kmalloc(&mut heap, &mut fa, 4000).unwrap();
    assert_eq!(kfree(&mut heap, c), Ok(()));
    assert_eq!(kmalloc(&mut heap, &mut fa, 4000), Some(c));
}

#[test]
fn kmalloc_splits_a_large_free_block() {
    let (mut heap, mut fa) = setup();
    let a = kmalloc(&mut heap, &mut fa, 100).unwrap();
    let b = kmalloc(&mut heap, &mut fa, 8).unwrap();
    assert_eq!(kfree(&mut heap, a), Ok(()));
    let c = kmalloc(&mut heap, &mut fa, 40).unwrap();
    assert_eq!(c, a);
    assert_eq!(ksize(&heap, c), 40);
    // The rest is a free block of 100 - 40 - 8 bytes right behind.
    let d = kmalloc(&mut heap, &mut fa, 52).unwrap();
    assert_eq!(d, a + 40 + 8);
    assert_eq!(ksize(&heap, d), 52);
    assert_eq!(d + 52 + 8, b);
}

#[test]
fn kmalloc_does_not_split_at_the_threshold() {
    let (mut heap, mut fa) = setup();
    let a = kmalloc(&mut heap, &mut fa, 40).unwrap();
    let _b = kmalloc(&mut heap, &mut fa, 8).unwrap();
    assert_eq!(kfree(&mut heap, a), Ok(()));
    // 40 - 24 = 16 is not more than a header and a minimal block.
    let c = kmalloc(&mut heap, &mut fa, 24).unwrap();
    assert_eq!(c, a);
    assert_eq!(ksize(&heap, c), 40);
    assert_eq!(kfree(&mut heap, c), Ok(()));
    // 40 - 20 = 20 is.
    let d = kmalloc(&mut heap, &mut fa, 20).unwrap();
    assert_eq!(d, a);
    assert_eq!(ksize(&heap, d), 20);
    assert_eq!(ksize(&heap, d + 20 + 8), 12);
}

#[test]
fn kfree_coalesces_forward_only() {
    let (mut heap, mut fa) = setup();
    let a = kmalloc(&mut heap, &mut fa, 16).unwrap();
    let b = kmalloc(&mut heap, &mut fa, 16).unwrap();
    let c = kmalloc(&mut heap, &mut fa, 16).unwrap();
    let _d = kmalloc(&mut heap, &mut fa, 16).unwrap();
    // Freeing a, then b: b does not look back, so both stay apart.
    assert_eq!(kfree(&mut heap, a), Ok(()));
    assert_eq!(kfree(&mut heap, b), Ok(()));
    assert_eq!(ksize(&heap, a), 16);
    assert_eq!(ksize(&heap, b), 16);
    // Freeing c absorbs nothing (d is in use).
    assert_eq!(kfree(&mut heap, c), Ok(()));
    assert_eq!(ksize(&heap, c), 16);
    // A request of 40 fits in none of the three.
    let e = kmalloc(&mut heap, &mut fa, 40).unwrap();
    assert!(e > c);
    assert_eq!(kfree(&mut heap, e), Ok(()));
}

#[test]
fn kfree_absorbs_the_free_block_behind() {
    let (mut heap, mut fa) = setup();
    let a = kmalloc(&mut heap, &mut fa, 16).unwrap();
    let b = kmalloc(&mut heap, &mut fa, 24).unwrap();
    let _c = kmalloc(&mut heap, &mut fa, 16).unwrap();
    assert_eq!(kfree(&mut heap, b), Ok(()));
    assert_eq!(kfree(&mut heap, a), Ok(()));
    assert_eq!(ksize(&heap, a), 16 + 8 + 24);
    // The header of b is gone.
    assert_eq!(ksize(&heap, b), 0);
    assert_eq!(kfree(&mut heap, b), Err(MemError::UnknownPointer));
    assert_eq!(kmalloc(&mut heap, &mut fa, 48), Some(a));
}

#[test]
fn kfree_errors() {
    let (mut heap, mut fa) = setup();
    let a = kmalloc(&mut heap, &mut fa, 16).unwrap();
    assert_eq!(kfree(&mut heap, 0), Ok(()));
    assert_eq!(kfree(&mut heap, a + 4), Err(MemError::UnknownPointer));
    assert_eq!(kfree(&mut heap, a - 8), Err(MemError::UnknownPointer));
    assert_eq!(kfree(&mut heap, a), Ok(()));
    assert_eq!(kfree(&mut heap, a), Err(MemError::DoubleFree));
    assert_eq!(ksize(&heap, a), 16);
}

#[test]
fn ksize_of_unknown_pointers_is_zero() {
    let (mut heap, mut fa) = setup();
    let a = kmalloc(&mut heap, &mut fa, 16).unwrap();
    assert_eq!(ksize(&heap, 0), 0);
    assert_eq!(ksize(&heap, a + 1), 0);
    assert_eq!(ksize(&heap, 0x1234), 0);
    assert_eq!(ksize(&heap, a), 16);
}

#[test]
fn live_allocations_do_not_overlap() {
    let (mut heap, mut fa) = setup();
    let mut live: Vec<u32> = Vec::new();
    for s in [3u32, 100, 8, 40, 4000, 12, 1, 64] {
        live.push(kmalloc(&mut heap, &mut fa, s).unwrap());
    }
    assert_eq!(kfree(&mut heap, live.remove(3)), Ok(()));
    assert_eq!(kfree(&mut heap, live.remove(1)), Ok(()));
    for s in [20u32, 30, 8, 8] {
        live.push(kmalloc(&mut heap, &mut fa, s).unwrap());
    }
    for (i, &p) in live.iter().enumerate() {
        for &q in live.iter().skip(i + 1) {
            let (ps, qs) = (ksize(&heap, p), ksize(&heap, q));
            assert!(p + ps <= q || q + qs <= p, "{:#x}+{} overlaps {:#x}+{}", p, ps, q, qs);
        }
        assert_eq!(p % 4, 0);
    }
}

#[test]
fn heap_growth_reserves_frames() {
    let (mut heap, mut fa) = setup();
    let used = used_frames(&fa);
    // The first frame is reserved already.
    let a = kmalloc(&mut heap, &mut fa, 4000).unwrap();
    assert_eq!(used_frames(&fa), used);
    let b = kmalloc(&mut heap, &mut fa, 4000).unwrap();
    assert_eq!(b, a + 4008);
    assert_eq!(used_frames(&fa), used + 1);
    assert!(is_frame_used(&fa, START + 4096));
    assert!(!is_frame_used(&fa, START + 2 * 4096));
    let _c = kmalloc(&mut heap, &mut fa, 3 * 4096).unwrap();
    assert_eq!(used_frames(&fa), used + 4);
}

#[test]
fn kmalloc_fails_when_memory_ends() {
    let (mut heap, mut fa) = setup();
    let used = used_frames(&fa);
    assert_eq!(kmalloc(&mut heap, &mut fa, 14 * MIB), None);
    assert_eq!(kmalloc(&mut heap, &mut fa, u32::MAX), None);
    assert_eq!(kmalloc(&mut heap, &mut fa, 0xFFFF_FFF0), None);
    assert_eq!(used_frames(&fa), used);
    assert_eq!(kmalloc(&mut heap, &mut fa, 8), Some(START + 8));
}

#[test]
fn kbrk_moves_the_break_by_the_increment() {
    let image = KernelImage { start: MIB, end: 2 * MIB };
    let mut fa = frame_init(&[(0, 16 * MIB)], &image, 16 * MIB);
    let used = used_frames(&fa);
    let mut arena = Arena::new(4 * MIB);
    assert_eq!(kbrk(&mut arena, &mut fa, 0), Some(4 * MIB));
    assert_eq!(kbrk(&mut arena, &mut fa, 100), Some(4 * MIB));
    assert_eq!(arena.brk(), 4 * MIB + 100);
    assert_eq!(used_frames(&fa), used + 1);
    assert_eq!(kbrk(&mut arena, &mut fa, 3996), Some(4 * MIB + 100));
    assert_eq!(used_frames(&fa), used + 1);
    assert_eq!(kbrk(&mut arena, &mut fa, 1), Some(4 * MIB + 4096));
    assert_eq!(used_frames(&fa), used + 2);
    assert_eq!(arena.start(), 4 * MIB);
    // Beyond the managed memory.
    assert_eq!(kbrk(&mut arena, &mut fa, 12 * MIB), None);
    assert_eq!(kbrk(&mut arena, &mut fa, u32::MAX), None);
    assert_eq!(arena.brk(), 4 * MIB + 4097);
    assert_eq!(used_frames(&fa), used + 2);
}

#[test]
fn kbrk_of_zero_always_returns_the_break() {
    let image = KernelImage { start: MIB, end: 2 * MIB };
    let mut fa = frame_init(&[(0, 16 * MIB)], &image, 16 * MIB);
    let used = used_frames(&fa);
    // An arena that lies beyond the managed memory cannot grow.
    let mut far = Arena::new(0x1000_0000);
    assert_eq!(kbrk(&mut far, &mut fa, 0), Some(0x1000_0000));
    assert_eq!(kbrk(&mut far, &mut fa, 1), None);
    assert_eq!(kbrk(&mut far, &mut fa, 0), Some(0x1000_0000));
    assert_eq!(far.brk(), 0x1000_0000);
    let mut top = Arena::new(0xFFFF_F000);
    assert_eq!(kbrk(&mut top, &mut fa, 0), Some(0xFFFF_F000));
    assert_eq!(kbrk(&mut top, &mut fa, u32::MAX), None);
    assert_eq!(used_frames(&fa), used);
}

#[test]
fn kmalloc_zeroed_clears_reused_memory() {
    let (mut heap, mut fa) = setup();
    let a = kmalloc(&mut heap, &mut fa, 16).unwrap();
    for k in 0..16 {
        assert!(write_byte(&mut heap, a + k, 0xAB));
    }
    assert_eq!(read_byte(&heap, a + 5), Some(0xAB));
    assert_eq!(kfree(&mut heap, a), Ok(()));
    // Plain kmalloc leaves the bytes as they are.
    assert_eq!(kmalloc(&mut heap, &mut fa, 16), Some(a));
    assert_eq!(read_byte(&heap, a + 5), Some(0xAB));
    assert_eq!(kfree(&mut heap, a), Ok(()));
    // The zeroing variant clears the bytes asked for, and no more.
    assert_eq!(kmalloc_zeroed(&mut heap, &mut fa, 10), Some(a));
    for k in 0..10 {
        assert_eq!(read_byte(&heap, a + k), Some(0));
    }
    for k in 10..16 {
        assert_eq!(read_byte(&heap, a + k), Some(0xAB));
    }
}

#[test]
fn bytes_outside_the_arena_cannot_be_reached() {
    let (mut heap, mut fa) = setup();
    assert_eq!(read_byte(&heap, START), None);
    let a = kmalloc(&mut heap, &mut fa, 16).unwrap();
    assert_eq!(read_byte(&heap, START - 1), None);
    assert_eq!(read_byte(&heap, a + 15), Some(0));
    assert_eq!(read_byte(&heap, a + 16), None);
    assert!(!write_byte(&mut heap, a + 16, 1));
    assert!(write_byte(&mut heap, a + 15, 1));
    assert_eq!(read_byte(&heap, a + 15), Some(1));
}
