use tacos::memory::frame::{
    alloc_frame, alloc_frames, free_frame, free_frames, free_frames_count, init, is_frame_used,
    reserve_frame, total_frames, used_frames, FrameAllocator,
};
use tacos::memory::{KernelImage, MemError};

const MIB: u32 = 1024 * 1024;

fn scenario() -> FrameAllocator {
    // 128 MiB, one usable region that covers all of it, kernel in frames 256..512.
    let image = KernelImage { start: 256 * 4096, end: 512 * 4096 };
    init(&[(0, 128 * MIB)], &image, 128 * MIB)
}

#[test]
fn init_counts_low_memory_and_kernel() {
    let fa = scenario();
    assert_eq!(total_frames(&fa), 32_768);
    assert_eq!(used_frames(&fa), 512);
    assert_eq!(free_frames_count(&fa), 32_256);
}

#[test]
fn init_marks_protected_frames_whatever_the_regions_say() {
    let fa = scenario();
    for f in 0..512u32 {
        assert!(is_frame_used(&fa, f * 4096), "frame {}", f);
    }
    assert!(!is_frame_used(&fa, 512 * 4096));
    assert!(!is_frame_used(&fa, 32_767 * 4096));
}

#[test]
fn init_follows_the_region_list_elsewhere() {
    let image = KernelImage { start: MIB, end: MIB + 10_000 };
    // Two regions; the second starts and ends inside a frame.
    let fa = init(&[(2 * MIB, MIB), (4 * MIB + 100, 3 * 4096)], &image, 16 * MIB);
    // The kernel takes frames 256, 257 and 258 (10,000 bytes).
    assert!(is_frame_used(&fa, MIB));
    assert!(is_frame_used(&fa, MIB + 2 * 4096));
    // Frame 259 is in no region.
    assert!(is_frame_used(&fa, MIB + 3 * 4096));
    // The first region is free from end to end.
    assert!(!is_frame_used(&fa, 2 * MIB));
    assert!(!is_frame_used(&fa, 3 * MIB - 4096));
    assert!(is_frame_used(&fa, 3 * MIB));
    // The second region covers frames 1025 and 1026 wholly, 1024 and 1027 in part.
    assert!(is_frame_used(&fa, 4 * MIB));
    assert!(!is_frame_used(&fa, 4 * MIB + 4096));
    assert!(!is_frame_used(&fa, 4 * MIB + 2 * 4096));
    assert!(is_frame_used(&fa, 4 * MIB + 3 * 4096));
    assert_eq!(used_frames(&fa), 4096 - 256 - 2);
}

#[test]
fn init_without_detected_memory_manages_the_whole_address_space() {
    let image = KernelImage { start: MIB, end: 2 * MIB };
    let fa = init(&[(0, 640 * 1024), (MIB, 127 * MIB)], &image, 0);
    assert_eq!(total_frames(&fa), 1_048_576);
    assert_eq!(free_frames_count(&fa), 127 * 256 - 256);
}

#[test]
fn init_cuts_a_region_off_at_the_end_of_the_address_space() {
    let image = KernelImage { start: MIB, end: MIB };
    let fa = init(&[(0xFFFF_0000, 0xFFFF_FFFF)], &image, 0);
    // The last frame would need the byte at 2^32 - 1 to be inside the region.
    assert!(!is_frame_used(&fa, 0xFFFF_0000));
    assert!(!is_frame_used(&fa, 0xFFFF_E000));
    assert!(is_frame_used(&fa, 0xFFFF_F000));
}

#[test]
fn alloc_frame_is_first_fit_above_low_memory() {
    let mut fa = scenario();
    assert_eq!(alloc_frame(&mut fa), Some(512 * 4096));
    assert_eq!(alloc_frame(&mut fa), Some(513 * 4096));
    assert_eq!(used_frames(&fa), 514);
    assert!(is_frame_used(&fa, 512 * 4096));
}

#[test]
fn alloc_frame_looks_at_low_memory_last() {
    let image = KernelImage { start: 0, end: 0 };
    let mut fa = init(&[(0, 2 * MIB)], &image, MIB + 2 * 4096);
    assert_eq!(total_frames(&fa), 258);
    assert_eq!(free_frame(&mut fa, 5 * 4096), Ok(()));
    assert_eq!(alloc_frame(&mut fa), Some(256 * 4096));
    assert_eq!(alloc_frame(&mut fa), Some(257 * 4096));
    assert_eq!(alloc_frame(&mut fa), Some(5 * 4096));
    assert_eq!(alloc_frame(&mut fa), None);
    assert_eq!(used_frames(&fa), 258);
    assert_eq!(free_frames_count(&fa), 0);
}

#[test]
fn used_count_follows_allocations_and_frees() {
    let mut fa = scenario();
    let before = used_frames(&fa);
    let a = alloc_frame(&mut fa).unwrap();
    let b = alloc_frame(&mut fa).unwrap();
    let c = alloc_frame(&mut fa).unwrap();
    assert_eq!(used_frames(&fa), before + 3);
    assert_eq!(free_frame(&mut fa, b), Ok(()));
    assert_eq!(used_frames(&fa), before + 2);
    let d = alloc_frame(&mut fa).unwrap();
    assert_eq!(d, b);
    assert_eq!(free_frame(&mut fa, a), Ok(()));
    assert_eq!(free_frame(&mut fa, c), Ok(()));
    assert_eq!(free_frame(&mut fa, d), Ok(()));
    assert_eq!(used_frames(&fa), before);
}

#[test]
fn free_frame_rejects_misaligned_address() {
    let mut fa = scenario();
    let a = alloc_frame(&mut fa).unwrap();
    assert_eq!(free_frame(&mut fa, a + 1), Err(MemError::Misaligned));
    assert_eq!(used_frames(&fa), 513);
    assert!(is_frame_used(&fa, a));
}

#[test]
fn free_frame_rejects_double_free() {
    let mut fa = scenario();
    let a = alloc_frame(&mut fa).unwrap();
    assert_eq!(free_frame(&mut fa, a), Ok(()));
    assert_eq!(free_frame(&mut fa, a), Err(MemError::DoubleFree));
    assert_eq!(used_frames(&fa), 512);
}

#[test]
fn free_frame_of_an_unmanaged_frame_changes_nothing() {
    let mut fa = scenario();
    assert!(is_frame_used(&fa, 128 * MIB));
    assert_eq!(free_frame(&mut fa, 128 * MIB), Ok(()));
    assert_eq!(free_frame(&mut fa, 0xFFFF_F000), Ok(()));
    // A frame that is not managed stays in use, and the count stays.
    assert!(is_frame_used(&fa, 128 * MIB));
    assert_eq!(used_frames(&fa), 512);
    assert_eq!(free_frames_count(&fa), 32_256);
    assert_eq!(free_frame(&mut fa, 128 * MIB), Ok(()));
    assert_eq!(free_frame(&mut fa, 128 * MIB + 4), Err(MemError::Misaligned));
    // The last managed frame can be given back once.
    assert_eq!(free_frame(&mut fa, 128 * MIB - 4096), Err(MemError::DoubleFree));
}

#[test]
fn alloc_frames_finds_first_free_run() {
    let mut fa = scenario();
    let a = alloc_frame(&mut fa).unwrap();
    let b = alloc_frame(&mut fa).unwrap();
    let c = alloc_frame(&mut fa).unwrap();
    assert_eq!((a, b, c), (512 * 4096, 513 * 4096, 514 * 4096));
    assert_eq!(free_frame(&mut fa, a), Ok(()));
    assert_eq!(free_frame(&mut fa, b), Ok(()));
    // A run of three does not fit in the hole of two.
    assert_eq!(alloc_frames(&mut fa, 3), Some(515 * 4096));
    assert_eq!(used_frames(&fa), 512 + 1 + 3);
    // A run of two does.
    assert_eq!(alloc_frames(&mut fa, 2), Some(512 * 4096));
    for f in 512..518u32 {
        assert!(is_frame_used(&fa, f * 4096));
    }
    assert!(!is_frame_used(&fa, 518 * 4096));
}

#[test]
fn alloc_frames_of_zero_and_one() {
    let mut fa = scenario();
    assert_eq!(alloc_frames(&mut fa, 0), None);
    assert_eq!(used_frames(&fa), 512);
    assert_eq!(alloc_frames(&mut fa, 1), Some(512 * 4096));
    assert_eq!(used_frames(&fa), 513);
}

#[test]
fn alloc_frames_failure_commits_nothing() {
    let image = KernelImage { start: 0, end: 0 };
    let mut fa = init(&[(0, 2 * MIB)], &image, MIB + 8 * 4096);
    // Frames 256..264 are free; take the middle one.
    reserve_frame(&mut fa, 260 * 4096);
    let used = used_frames(&fa);
    assert_eq!(alloc_frames(&mut fa, 5), None);
    assert_eq!(used_frames(&fa), used);
    for f in [256u32, 257, 258, 259, 261, 262, 263] {
        assert!(!is_frame_used(&fa, f * 4096));
    }
    assert_eq!(alloc_frames(&mut fa, 9), None);
    assert_eq!(alloc_frames(&mut fa, u32::MAX), None);
    assert_eq!(alloc_frames(&mut fa, 4), Some(256 * 4096));
    assert_eq!(alloc_frames(&mut fa, 3), Some(261 * 4096));
}

#[test]
fn alloc_frames_never_searches_low_memory_for_a_run() {
    let image = KernelImage { start: 0, end: 0 };
    let mut fa = init(&[(0, 2 * MIB)], &image, MIB + 4096);
    free_frames(&mut fa, 0, 16);
    assert_eq!(alloc_frames(&mut fa, 2), None);
    assert_eq!(alloc_frames(&mut fa, 1), Some(256 * 4096));
    assert_eq!(alloc_frames(&mut fa, 1), Some(0));
}

#[test]
fn free_frames_skips_frames_that_are_free() {
    let mut fa = scenario();
    let base = alloc_frames(&mut fa, 4).unwrap();
    assert_eq!(free_frame(&mut fa, base + 4096), Ok(()));
    assert_eq!(used_frames(&fa), 515);
    free_frames(&mut fa, base, 4);
    assert_eq!(used_frames(&fa), 512);
    free_frames(&mut fa, base, 4);
    assert_eq!(used_frames(&fa), 512);
    // A run that passes the end of the managed memory.
    free_frames(&mut fa, 128 * MIB - 4096, 1000);
    assert_eq!(used_frames(&fa), 512);
    free_frames(&mut fa, 0xFFFF_F000, u32::MAX);
    assert_eq!(used_frames(&fa), 512);
}

#[test]
fn reserve_frame_is_idempotent() {
    let mut fa = scenario();
    reserve_frame(&mut fa, 600 * 4096 + 17);
    assert!(is_frame_used(&fa, 600 * 4096));
    assert_eq!(used_frames(&fa), 513);
    reserve_frame(&mut fa, 600 * 4096);
    assert_eq!(used_frames(&fa), 513);
    reserve_frame(&mut fa, 0);
    assert_eq!(used_frames(&fa), 513);
    reserve_frame(&mut fa, 0xF000_0000);
    assert_eq!(used_frames(&fa), 513);
}
