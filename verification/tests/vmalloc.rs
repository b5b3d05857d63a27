use tacos::memory::paging::{take_pending, HwAction};
use tacos::memory::frame::{
    alloc_frame, free_frames_count, init as frame_init, is_frame_used, used_frames, FrameAllocator,
};
use tacos::memory::paging::{init as paging_init, is_mapped, map_page, virt_to_phys, PageTables};
use tacos::memory::virt::{init, vbrk, vfree, vmalloc, vsize, Vmalloc, VMALLOC_BASE};
use tacos::memory::{KernelImage, MemError};

const MIB: u32 = 1024 * 1024;

fn setup(total: u32) -> (Vmalloc, FrameAllocator, PageTables) {
    let image = KernelImage { start: MIB, end: 2 * MIB };
    let mut fa = frame_init(&[(0, total)], &image, total);
    let pt = paging_init(&mut fa, total).unwrap();
    (init(), fa, pt)
}

#[test]
fn vmalloc_hands_out_pages_from_the_region() {
    let (mut vm, mut fa, mut pt) = setup(16 * MIB);
    let used = used_frames(&fa);
    let v = vmalloc(&mut vm, &mut fa, &mut pt, 5000).unwrap().unwrap();
    assert_eq!(v, VMALLOC_BASE);
    assert_eq!(vsize(&vm, v), 8192);
    // Two frames for the pages and one for the table of the directory slot.
    assert_eq!(used_frames(&fa), used + 3);
    let p0 = virt_to_phys(&pt, v).unwrap();
    let p1 = virt_to_phys(&pt, v + 4096).unwrap();
    assert_ne!(p0, p1);
    assert!(is_frame_used(&fa, p0));
    assert!(is_frame_used(&fa, p1));
    assert_eq!(virt_to_phys(&pt, v + 4095), Some(p0 + 4095));
    assert!(!is_mapped(&pt, v + 8192));
    let w = vmalloc(&mut vm, &mut fa, &mut pt, 1).unwrap().unwrap();
    assert_eq!(w, VMALLOC_BASE + 8192);
    assert_eq!(vsize(&vm, w), 4096);
    assert_eq!(used_frames(&fa), used + 4);
}

#[test]
fn vmalloc_never_hands_out_an_address_twice() {
    let (mut vm, mut fa, mut pt) = setup(16 * MIB);
    let v1 = vmalloc(&mut vm, &mut fa, &mut pt, 4096).unwrap().unwrap();
    assert_eq!(vfree(&mut vm, &mut fa, &mut pt, v1), Ok(()));
    let v2 = vmalloc(&mut vm, &mut fa, &mut pt, 4096).unwrap().unwrap();
    assert_ne!(v2, v1);
    assert_eq!(v2, v1 + 4096);
}

#[test]
fn vfree_unmaps_and_frees_the_frames() {
    let (mut vm, mut fa, mut pt) = setup(16 * MIB);
    let v = vmalloc(&mut vm, &mut fa, &mut pt, 3 * 4096).unwrap().unwrap();
    let used = used_frames(&fa);
    let p = virt_to_phys(&pt, v + 4096).unwrap();
    assert_eq!(vfree(&mut vm, &mut fa, &mut pt, v), Ok(()));
    assert_eq!(used_frames(&fa), used - 3);
    assert!(!is_frame_used(&fa, p));
    for k in 0..3 {
        assert!(!is_mapped(&pt, v + k * 4096));
    }
    assert_eq!(vsize(&vm, v), 0);
    assert_eq!(vfree(&mut vm, &mut fa, &mut pt, v), Err(MemError::UnknownPointer));
}

#[test]
fn vfree_needs_the_exact_base() {
    let (mut vm, mut fa, mut pt) = setup(16 * MIB);
    let v = vmalloc(&mut vm, &mut fa, &mut pt, 2 * 4096).unwrap().unwrap();
    let used = used_frames(&fa);
    assert_eq!(vfree(&mut vm, &mut fa, &mut pt, v + 4096), Err(MemError::UnknownPointer));
    assert_eq!(vfree(&mut vm, &mut fa, &mut pt, 0x1234), Err(MemError::UnknownPointer));
    assert_eq!(vfree(&mut vm, &mut fa, &mut pt, 0), Ok(()));
    assert_eq!(used_frames(&fa), used);
    assert_eq!(vsize(&vm, v), 8192);
    assert_eq!(vsize(&vm, v + 4096), 0);
    assert_eq!(vsize(&vm, 0), 0);
}

#[test]
fn vmalloc_of_zero_is_null() {
    let (mut vm, mut fa, mut pt) = setup(16 * MIB);
    assert_eq!(vmalloc(&mut vm, &mut fa, &mut pt, 0), Ok(None));
    assert_eq!(vbrk(&mut vm, &mut fa, &mut pt, 0), Ok(Some(VMALLOC_BASE)));
}

#[test]
fn vbrk_rolls_back_when_frames_run_out() {
    let image = KernelImage { start: 0, end: 0 };
    // Free frames: 256..266.  The identity mapping takes two of them.
    let mut fa = frame_init(&[(MIB, 10 * 4096)], &image, 4 * MIB);
    let mut pt = paging_init(&mut fa, 4 * MIB).unwrap();
    let mut vm = init();
    assert_eq!(free_frames_count(&fa), 8);
    // Nine pages need nine frames and a table.
    assert_eq!(vbrk(&mut vm, &mut fa, &mut pt, 9 * 4096), Ok(None));
    // Only the table stays taken.
    assert_eq!(free_frames_count(&fa), 7);
    for k in 0..9 {
        assert!(!is_mapped(&pt, VMALLOC_BASE + k * 4096));
    }
    // The cursor has not moved.
    assert_eq!(vbrk(&mut vm, &mut fa, &mut pt, 0), Ok(Some(VMALLOC_BASE)));
    assert_eq!(vbrk(&mut vm, &mut fa, &mut pt, 7 * 4096), Ok(Some(VMALLOC_BASE)));
    assert_eq!(free_frames_count(&fa), 0);
    assert_eq!(vbrk(&mut vm, &mut fa, &mut pt, 1), Ok(None));
    assert_eq!(vbrk(&mut vm, &mut fa, &mut pt, 0), Ok(Some(VMALLOC_BASE + 7 * 4096)));
}

#[test]
fn vbrk_fails_at_the_end_of_the_region() {
    let (mut vm, mut fa, mut pt) = setup(16 * MIB);
    let used = used_frames(&fa);
    assert_eq!(vbrk(&mut vm, &mut fa, &mut pt, 256 * MIB + 1), Ok(None));
    assert_eq!(vbrk(&mut vm, &mut fa, &mut pt, u32::MAX), Ok(None));
    assert_eq!(vmalloc(&mut vm, &mut fa, &mut pt, u32::MAX), Ok(None));
    assert_eq!(vmalloc(&mut vm, &mut fa, &mut pt, 0xFFFF_F001), Ok(None));
    assert_eq!(used_frames(&fa), used);
}

#[test]
fn vbrk_reports_a_missing_table_frame_as_fatal() {
    let image = KernelImage { start: 0, end: 0 };
    // Three free frames: directory, one table, and one frame for a page.
    let mut fa = frame_init(&[(MIB, 3 * 4096)], &image, 4 * MIB);
    let mut pt = paging_init(&mut fa, 4 * MIB).unwrap();
    let mut vm = init();
    assert_eq!(vbrk(&mut vm, &mut fa, &mut pt, 4096), Err(MemError::OutOfFrames));
}

#[test]
fn vbrk_before_paging_is_fatal() {
    let image = KernelImage { start: MIB, end: 2 * MIB };
    let mut fa = frame_init(&[(0, 16 * MIB)], &image, 16 * MIB);
    let mut pt = PageTables::new();
    let mut vm = init();
    assert_eq!(vbrk(&mut vm, &mut fa, &mut pt, 4096), Err(MemError::NotInitialized));
}

#[test]
fn vmalloc_table_has_256_slots() {
    let (mut vm, mut fa, mut pt) = setup(16 * MIB);
    let mut all: Vec<u32> = Vec::new();
    for _ in 0..256 {
        all.push(vmalloc(&mut vm, &mut fa, &mut pt, 1).unwrap().unwrap());
    }
    let used = used_frames(&fa);
    assert_eq!(vmalloc(&mut vm, &mut fa, &mut pt, 1), Ok(None));
    assert_eq!(used_frames(&fa), used);
    assert_eq!(vfree(&mut vm, &mut fa, &mut pt, all[17]), Ok(()));
    let v = vmalloc(&mut vm, &mut fa, &mut pt, 1).unwrap().unwrap();
    assert_eq!(v, VMALLOC_BASE + 256 * 4096);
    for (i, &a) in all.iter().enumerate() {
        assert_eq!(vsize(&vm, a), if i == 17 { 0 } else { 4096 });
    }
}

#[test]
fn vfree_reports_a_frame_that_was_freed_behind_its_back() {
    let (mut vm, mut fa, mut pt) = setup(16 * MIB);
    let v = vmalloc(&mut vm, &mut fa, &mut pt, 4096).unwrap().unwrap();
    let other = alloc_frame(&mut fa).unwrap();
    // Remap the page to a frame, then free that frame by hand.
    assert_eq!(map_page(&mut pt, &mut fa, v, other, 0), Ok(()));
    assert_eq!(tacos::memory::frame::free_frame(&mut fa, other), Ok(()));
    assert_eq!(vfree(&mut vm, &mut fa, &mut pt, v), Err(MemError::DoubleFree));
    assert_eq!(vsize(&vm, v), 4096);
    assert!(!is_mapped(&pt, v));
}

#[test]
fn new_pages_are_to_be_cleared() {
    let (mut vm, mut fa, mut pt) = setup(16 * MIB);
    take_pending(&mut pt);
    let v = vmalloc(&mut vm, &mut fa, &mut pt, 2 * 4096).unwrap().unwrap();
    assert_eq!(
        take_pending(&mut pt),
        vec![
            HwAction::InvalidatePage(v),
            HwAction::ZeroPage(v),
            HwAction::InvalidatePage(v + 4096),
            HwAction::ZeroPage(v + 4096),
        ]
    );
    assert_eq!(vfree(&mut vm, &mut fa, &mut pt, v), Ok(()));
    assert_eq!(
        take_pending(&mut pt),
        vec![HwAction::InvalidatePage(v), HwAction::InvalidatePage(v + 4096)]
    );
}
