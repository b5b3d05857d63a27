use tacos::memory::frame::{free_frames_count, is_frame_used, total_frames, used_frames};
use tacos::memory::heap::kmalloc;
use tacos::memory::paging::{is_enabled, virt_to_phys};
use tacos::memory::virt::{vmalloc, VMALLOC_BASE};
use tacos::memory::{
    align_down, align_up, init, kernel_end, kernel_size, kernel_start, parse_multiboot_info,
    total_memory, total_memory_of, walk_memory_map, KernelImage, MemError, MmapEntry, MultibootInfo,
    PAGE_SIZE,
};

const MIB: u32 = 1024 * 1024;

#[test]
fn alignment_helpers() {
    assert_eq!(align_up(0, PAGE_SIZE), 0);
    assert_eq!(align_up(1, PAGE_SIZE), 4096);
    assert_eq!(align_up(4096, PAGE_SIZE), 4096);
    assert_eq!(align_up(4097, PAGE_SIZE), 8192);
    assert_eq!(align_up(10, 4), 12);
    assert_eq!(align_up(0xFFFF_F000, PAGE_SIZE), 0xFFFF_F000);
    assert_eq!(align_down(0, PAGE_SIZE), 0);
    assert_eq!(align_down(4095, PAGE_SIZE), 0);
    assert_eq!(align_down(4096, PAGE_SIZE), 4096);
    assert_eq!(align_down(0xFFFF_FFFF, PAGE_SIZE), 0xFFFF_F000);
    assert_eq!(align_down(11, 4), 8);
}

#[test]
fn kernel_image_bounds() {
    let image = KernelImage { start: MIB, end: MIB + 300_000 };
    assert_eq!(kernel_start(&image), MIB);
    assert_eq!(kernel_end(&image), MIB + 300_000);
    assert_eq!(kernel_size(&image), 300_000);
}

fn entry(base: u32, base_high: u32, length: u32, entry_type: u32) -> MmapEntry {
    MmapEntry {
        size: 20,
        base_addr_low: base,
        base_addr_high: base_high,
        length_low: length,
        length_high: 0,
        entry_type,
    }
}

#[test]
fn boot_information_defaults() {
    assert_eq!(parse_multiboot_info(None), (640, 130_048));
    assert_eq!(walk_memory_map(None), vec![(0, 640 * 1024), (MIB, 127 * MIB)]);
    let info = MultibootInfo { flags: 0, mem_lower: 1, mem_upper: 2, mmap: Vec::new() };
    assert_eq!(parse_multiboot_info(Some(&info)), (640, 130_048));
    assert_eq!(walk_memory_map(Some(&info)), vec![(0, 640 * 1024), (MIB, 127 * MIB)]);
}

#[test]
fn boot_information_with_memory_sizes() {
    let info = MultibootInfo { flags: 0x01, mem_lower: 639, mem_upper: 64_512, mmap: Vec::new() };
    assert_eq!(parse_multiboot_info(Some(&info)), (639, 64_512));
    assert_eq!(walk_memory_map(Some(&info)), vec![(0, 639 * 1024), (MIB, 63 * MIB)]);
    let huge = MultibootInfo { flags: 0x01, mem_lower: 640, mem_upper: 0x0040_0000, mmap: Vec::new() };
    assert_eq!(walk_memory_map(Some(&huge)), vec![(0, 640 * 1024), (MIB, u32::MAX)]);
}

#[test]
fn boot_information_with_memory_map() {
    let info = MultibootInfo {
        flags: 0x41,
        mem_lower: 640,
        mem_upper: 31_744,
        mmap: vec![
            entry(0, 0, 0x9FC00, 1),
            entry(0x9FC00, 0, 0x400, 2),
            entry(MIB, 0, 31 * MIB, 1),
            entry(0, 1, MIB, 1),
            entry(0xFFFC_0000, 0, 0x4_0000, 2),
        ],
    };
    assert_eq!(walk_memory_map(Some(&info)), vec![(0, 0x9FC00), (MIB, 31 * MIB)]);
}

#[test]
fn total_memory_from_sizes() {
    assert_eq!(total_memory_of(640, 130_048), 131_712 * 1024);
    assert_eq!(total_memory_of(0, 0), MIB);
    assert_eq!(total_memory_of(640, 4 * 1024 * 1024), 0);
    assert_eq!(total_memory_of(u32::MAX, u32::MAX), 0);
    assert_eq!(total_memory_of(0, 4 * 1024 * 1024 - 1025), u32::MAX - 1023);
}

#[test]
fn init_sets_up_every_service() {
    let image = KernelImage { start: MIB, end: MIB + 200_000 };
    let mut sys = init(None, &image).unwrap();
    assert_eq!(total_memory(&sys), 131_712 * 1024);
    assert_eq!(total_frames(&sys.frames), 32_928);
    assert!(is_enabled(&sys.paging));
    assert_eq!(virt_to_phys(&sys.paging, 0x0030_0010), Some(0x0030_0010));
    // 129 MiB begun: 33 tables, which reach up to 132 MiB.
    assert_eq!(virt_to_phys(&sys.paging, 132 * MIB - 1), Some(132 * MIB - 1));
    assert_eq!(virt_to_phys(&sys.paging, 132 * MIB), None);
    // Frames in use: low memory, the kernel, and everything from 128 MiB on.
    let kernel_frames = 49;
    let beyond = 32_928 - 32_768;
    let tables = 34;
    let heap_start = MIB + 49 * 4096;
    // The page tables took the first free frames, right behind the kernel;
    // the first frame of the heap is among them.
    assert!(is_frame_used(&sys.frames, heap_start));
    assert_eq!(used_frames(&sys.frames), 256 + kernel_frames + beyond + tables);
    assert_eq!(free_frames_count(&sys.frames), 32_768 - 256 - kernel_frames - tables);
    assert_eq!(kmalloc(&mut sys.heap, &mut sys.frames, 32), Some(heap_start + 8));
    assert_eq!(vmalloc(&mut sys.vmalloc, &mut sys.frames, &mut sys.paging, 32), Ok(Some(VMALLOC_BASE)));
}

#[test]
fn init_fails_without_enough_frames() {
    let image = KernelImage { start: MIB, end: 2 * MIB };
    let info = MultibootInfo {
        flags: 0x41,
        mem_lower: 640,
        mem_upper: 7 * 1024,
        mmap: vec![entry(2 * MIB, 0, 2 * 4096, 1)],
    };
    assert!(matches!(init(Some(&info), &image), Err(MemError::OutOfFrames)));
    let image_at_the_end = KernelImage { start: MIB, end: 8 * MIB };
    let plenty = MultibootInfo {
        flags: 0x41,
        mem_lower: 640,
        mem_upper: 7 * 1024,
        mmap: vec![entry(0, 0, 8 * MIB, 1)],
    };
    assert!(matches!(init(Some(&plenty), &image_at_the_end), Err(MemError::OutOfFrames)));
}
