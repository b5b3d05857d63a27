use tacos::memory::paging::{directory_entry, flush_tlb, invlpg, table_entry, take_pending, zero_page, HwAction};
use tacos::memory::frame::{alloc_frame, init as frame_init, used_frames, FrameAllocator};
use tacos::memory::paging::{
    entry_addr, entry_present, init, is_enabled, is_mapped, make_pde, make_pte, map_page, page_offset,
    pd_index, pt_index, unmap_page, virt_to_phys, PageTables, PAGE_PRESENT, PAGE_USER, PAGE_WRITABLE,
};
use tacos::memory::{KernelImage, MemError};

const MIB: u32 = 1024 * 1024;

fn frames(total: u32) -> FrameAllocator {
    let image = KernelImage { start: MIB, end: 2 * MIB };
    frame_init(&[(0, total)], &image, total)
}

#[test]
fn entries_pack_address_and_flags() {
    assert_eq!(make_pte(0x0012_3456, 0x003), 0x0012_3003);
    assert_eq!(make_pde(0xFFFF_FFFF, 0xFFFF), 0xFFFF_FFFF);
    assert_eq!(make_pte(0x0040_0000, 0x1007), 0x0040_0007);
    assert_eq!(entry_addr(0x0012_3003), 0x0012_3000);
    assert!(entry_present(0x0012_3003));
    assert!(!entry_present(0x0012_3002));
}

#[test]
fn addresses_split_into_indices() {
    let v: u32 = 0xD034_5678;
    assert_eq!(pd_index(v), 0x340);
    assert_eq!(pt_index(v), 0x345);
    assert_eq!(page_offset(v), 0x678);
    assert_eq!(pd_index(0xFFFF_FFFF), 1023);
    assert_eq!(pt_index(0xFFFF_FFFF), 1023);
    assert_eq!(page_offset(0xFFFF_FFFF), 4095);
    assert_eq!(pd_index(0), 0);
}

#[test]
fn new_tables_map_nothing() {
    let mut pt = PageTables::new();
    assert!(!is_enabled(&pt));
    assert_eq!(virt_to_phys(&pt, 0x1000), None);
    assert!(!is_mapped(&pt, 0));
    assert_eq!(unmap_page(&mut pt, 0x1000), None);
}

#[test]
fn map_before_init_is_an_error() {
    let mut fa = frames(16 * MIB);
    let mut pt = PageTables::new();
    let used = used_frames(&fa);
    assert_eq!(map_page(&mut pt, &mut fa, 0x1000, 0x2000, PAGE_WRITABLE), Err(MemError::NotInitialized));
    assert_eq!(used_frames(&fa), used);
}

#[test]
fn init_maps_memory_to_itself() {
    let mut fa = frames(16 * MIB);
    let used = used_frames(&fa);
    let pt = init(&mut fa, 16 * MIB).unwrap();
    assert!(is_enabled(&pt));
    // One frame for the directory and four tables.
    assert_eq!(used_frames(&fa), used + 5);
    assert_eq!(virt_to_phys(&pt, 0), Some(0));
    assert_eq!(virt_to_phys(&pt, 0x0012_3456), Some(0x0012_3456));
    assert_eq!(virt_to_phys(&pt, 16 * MIB - 1), Some(16 * MIB - 1));
    assert_eq!(virt_to_phys(&pt, 16 * MIB), None);
    assert_eq!(virt_to_phys(&pt, 0xD000_0000), None);
}

#[test]
fn init_rounds_memory_up_to_whole_tables() {
    let mut fa = frames(5 * MIB);
    let used = used_frames(&fa);
    let pt = init(&mut fa, 5 * MIB).unwrap();
    assert_eq!(used_frames(&fa), used + 3);
    assert!(is_mapped(&pt, 8 * MIB - 1));
    assert!(!is_mapped(&pt, 8 * MIB));
}

#[test]
fn init_without_detected_memory_maps_128_mib() {
    let image = KernelImage { start: MIB, end: 2 * MIB };
    let mut fa = frame_init(&[(0, 128 * MIB)], &image, 0);
    let used = used_frames(&fa);
    let pt = init(&mut fa, 0).unwrap();
    assert_eq!(used_frames(&fa), used + 33);
    assert_eq!(virt_to_phys(&pt, 128 * MIB - 4), Some(128 * MIB - 4));
    assert_eq!(virt_to_phys(&pt, 128 * MIB), None);
}

#[test]
fn init_fails_when_frames_run_out() {
    let image = KernelImage { start: 0, end: 0 };
    // Two free frames, three needed.
    let mut fa = frame_init(&[(MIB, 2 * 4096)], &image, 8 * MIB);
    assert!(matches!(init(&mut fa, 8 * MIB), Err(MemError::OutOfFrames)));
    assert_eq!(used_frames(&fa), 2048);
    assert_eq!(alloc_frame(&mut fa), None);
}

#[test]
fn map_translate_unmap_round_trip() {
    let mut fa = frames(16 * MIB);
    let mut pt = init(&mut fa, 16 * MIB).unwrap();
    let v: u32 = 0xD000_0000;
    let p = alloc_frame(&mut fa).unwrap();
    let used = used_frames(&fa);
    assert_eq!(map_page(&mut pt, &mut fa, v, p, PAGE_WRITABLE), Ok(()));
    // A table was installed for the directory slot.
    assert_eq!(used_frames(&fa), used + 1);
    assert_eq!(virt_to_phys(&pt, v), Some(p));
    for k in [1u32, 7, 0x800, 4095] {
        assert_eq!(virt_to_phys(&pt, v + k), Some(p + k));
    }
    assert_eq!(virt_to_phys(&pt, v + 4096), None);
    assert_eq!(virt_to_phys(&pt, v - 1), None);
    assert!(is_mapped(&pt, v + 100));
    assert_eq!(unmap_page(&mut pt, v), Some(p));
    assert_eq!(virt_to_phys(&pt, v), None);
    assert_eq!(virt_to_phys(&pt, v + 4095), None);
    assert_eq!(unmap_page(&mut pt, v), None);
    // The table stays.
    assert_eq!(used_frames(&fa), used + 1);
    assert_eq!(map_page(&mut pt, &mut fa, v + 4096, p, 0), Ok(()));
    assert_eq!(used_frames(&fa), used + 1);
}

#[test]
fn map_masks_the_frame_address_and_adds_present() {
    let mut fa = frames(16 * MIB);
    let mut pt = init(&mut fa, 16 * MIB).unwrap();
    assert_eq!(map_page(&mut pt, &mut fa, 0xE000_0123, 0x0030_0FFF, PAGE_USER), Ok(()));
    assert_eq!(virt_to_phys(&pt, 0xE000_0000), Some(0x0030_0000));
    assert_eq!(virt_to_phys(&pt, 0xE000_0123), Some(0x0030_0123));
    assert_eq!(unmap_page(&mut pt, 0xE000_0FFF), Some(0x0030_0000));
}

#[test]
fn map_overwrites_in_silence() {
    let mut fa = frames(16 * MIB);
    let mut pt = init(&mut fa, 16 * MIB).unwrap();
    assert_eq!(virt_to_phys(&pt, 0x5000), Some(0x5000));
    assert_eq!(map_page(&mut pt, &mut fa, 0x5000, 0x9000, PAGE_PRESENT | PAGE_WRITABLE), Ok(()));
    assert_eq!(virt_to_phys(&pt, 0x5004), Some(0x9004));
    assert_eq!(virt_to_phys(&pt, 0x4FFF), Some(0x4FFF));
    assert_eq!(virt_to_phys(&pt, 0x6000), Some(0x6000));
}

#[test]
fn map_fails_without_a_frame_for_the_table() {
    let image = KernelImage { start: 0, end: 0 };
    let mut fa = frame_init(&[(MIB, 3 * 4096)], &image, 8 * MIB);
    let mut pt = init(&mut fa, 8 * MIB).unwrap();
    assert_eq!(alloc_frame(&mut fa), None);
    assert_eq!(map_page(&mut pt, &mut fa, 0xD000_0000, 0x1000, 0), Err(MemError::OutOfFrames));
    assert!(!is_mapped(&pt, 0xD000_0000));
    // A slot that has its table needs no frame.
    assert_eq!(map_page(&mut pt, &mut fa, 0x0000_3000, 0x1000, 0), Ok(()));
    assert_eq!(virt_to_phys(&pt, 0x3001), Some(0x1001));
}

#[test]
fn entries_can_be_read_back() {
    let mut fa = frames(16 * MIB);
    let none = PageTables::new();
    assert_eq!(directory_entry(&none, 0), 0);
    assert_eq!(table_entry(&none, 0x1000), None);
    let mut pt = init(&mut fa, 16 * MIB).unwrap();
    // The directory lies in the first free frame, the tables behind it.
    assert_eq!(directory_entry(&pt, 0), (2 * MIB + 4096) | 3);
    assert_eq!(directory_entry(&pt, 3), (2 * MIB + 4 * 4096) | 3);
    assert_eq!(directory_entry(&pt, 4), 0);
    assert_eq!(table_entry(&pt, 0x0012_3456), Some(0x0012_3003));
    assert_eq!(table_entry(&pt, 0xD000_0000), None);
    assert_eq!(map_page(&mut pt, &mut fa, 0xD000_0000, 0x7000, PAGE_USER), Ok(()));
    assert_eq!(directory_entry(&pt, 0x340) & 0xFFF, 7);
    assert_eq!(table_entry(&pt, 0xD000_0000), Some(0x7005));
    assert_eq!(table_entry(&pt, 0xD000_1000), Some(0));
}

#[test]
fn hardware_is_told_what_has_changed() {
    let mut fa = frames(16 * MIB);
    let mut early = PageTables::new();
    assert_eq!(take_pending(&mut early), vec![]);
    let mut pt = init(&mut fa, 16 * MIB).unwrap();
    assert_eq!(take_pending(&mut pt), vec![HwAction::LoadDirectory(2 * MIB), HwAction::EnablePaging]);
    assert_eq!(take_pending(&mut pt), vec![]);
    assert_eq!(map_page(&mut pt, &mut fa, 0xD000_0123, 0x7000, 0), Ok(()));
    assert_eq!(unmap_page(&mut pt, 0xD000_0456), Some(0x7000));
    assert_eq!(unmap_page(&mut pt, 0xD000_0456), None);
    invlpg(&mut pt, 0x1000);
    flush_tlb(&mut pt);
    zero_page(&mut pt, 0x2000);
    assert_eq!(
        take_pending(&mut pt),
        vec![
            HwAction::InvalidatePage(0xD000_0123),
            HwAction::InvalidatePage(0xD000_0456),
            HwAction::InvalidatePage(0x1000),
            HwAction::FlushAll,
            HwAction::ZeroPage(0x2000),
        ]
    );
    assert_eq!(virt_to_phys(&pt, 0x5000), Some(0x5000));
}
