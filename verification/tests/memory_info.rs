use tacos::memory::frame::{
    alloc_frame, frame_info, init as frame_init, memory_kind, mmap_listing, FrameInfo, MemoryKind,
    MmapListing, MmapRow,
};
use tacos::memory::heap::{heap_info, init as heap_init, kfree, kmalloc, BlockInfo};
use tacos::memory::paging::{
    init as paging_init, map_page, paging_info, unmap_page, PageTables, PagingInfo, PAGE_USER, PAGE_WRITABLE,
};
use tacos::memory::virt::{init as virt_init, vfree, vmalloc, vmalloc_info, VmallocRow, VMALLOC_BASE};
use tacos::memory::{KernelImage, MmapEntry, MultibootInfo};

const MIB: u32 = 1024 * 1024;

#[test]
fn frame_figures() {
    let image = KernelImage { start: MIB, end: MIB + 300 * 1024 + 5 };
    let mut fa = frame_init(&[(0, 16 * MIB)], &image, 16 * MIB);
    alloc_frame(&mut fa);
    assert_eq!(
        frame_info(&fa, &image),
        FrameInfo {
            page_size: 4096,
            total_frames: 4096,
            used_frames: 256 + 76 + 1,
            free_frames: 4096 - 333,
            kernel_start: MIB,
            kernel_end: MIB + 300 * 1024 + 5,
            kernel_kib: 300,
        }
    );
}

#[test]
fn memory_map_listing() {
    assert_eq!(mmap_listing(None), MmapListing::NoInfo);
    let sizes = MultibootInfo { flags: 1, mem_lower: 640, mem_upper: 1000, mmap: Vec::new() };
    assert_eq!(mmap_listing(Some(&sizes)), MmapListing::Sizes(640, 1000));
    let nothing = MultibootInfo { flags: 0x80, mem_lower: 640, mem_upper: 1000, mmap: Vec::new() };
    assert_eq!(mmap_listing(Some(&nothing)), MmapListing::NoMap);
    let e = |base: u32, length: u32, t: u32| MmapEntry {
        size: 20,
        base_addr_low: base,
        base_addr_high: 0,
        length_low: length,
        length_high: 0,
        entry_type: t,
    };
    let map = MultibootInfo {
        flags: 0x40,
        mem_lower: 0,
        mem_upper: 0,
        mmap: vec![e(0, 0x9FC00, 1), e(0x9FC00, 0x400, 2), e(0xF0000, 0x10000, 3), e(MIB, 2047, 9)],
    };
    assert_eq!(
        mmap_listing(Some(&map)),
        MmapListing::Entries(vec![
            MmapRow { base: 0, length_kib: 639, kind: MemoryKind::Available },
            MmapRow { base: 0x9FC00, length_kib: 1, kind: MemoryKind::Reserved },
            MmapRow { base: 0xF0000, length_kib: 64, kind: MemoryKind::AcpiReclaimable },
            MmapRow { base: MIB, length_kib: 1, kind: MemoryKind::Unknown },
        ])
    );
    assert_eq!(memory_kind(4), MemoryKind::AcpiNvs);
    assert_eq!(memory_kind(5), MemoryKind::BadMemory);
    assert_eq!(memory_kind(0), MemoryKind::Unknown);
}

#[test]
fn paging_figures() {
    let image = KernelImage { start: MIB, end: 2 * MIB };
    let mut fa = frame_init(&[(0, 16 * MIB)], &image, 16 * MIB);
    let none = PageTables::new();
    assert_eq!(
        paging_info(&none),
        PagingInfo { enabled: false, directory: 0, mapped_regions: 0, total_pages: 0, rw_pages: 0, user_pages: 0 }
    );
    let mut pt = paging_init(&mut fa, 16 * MIB).unwrap();
    assert_eq!(
        paging_info(&pt),
        PagingInfo {
            enabled: true,
            directory: 2 * MIB,
            mapped_regions: 4,
            total_pages: 4096,
            rw_pages: 4096,
            user_pages: 0,
        }
    );
    map_page(&mut pt, &mut fa, 0xD000_0000, 0x5000, PAGE_USER).unwrap();
    map_page(&mut pt, &mut fa, 0xD000_1000, 0x5000, PAGE_USER | PAGE_WRITABLE).unwrap();
    unmap_page(&mut pt, 0x3000);
    let info = paging_info(&pt);
    assert_eq!((info.mapped_regions, info.total_pages, info.rw_pages, info.user_pages), (5, 4097, 4096, 2));
}

#[test]
fn heap_figures() {
    let image = KernelImage { start: MIB, end: 2 * MIB };
    let mut fa = frame_init(&[(0, 16 * MIB)], &image, 16 * MIB);
    let mut heap = heap_init(&image, &mut fa).unwrap();
    let empty = heap_info(&heap);
    assert_eq!((empty.start, empty.brk, empty.end, empty.pages), (2 * MIB, 2 * MIB, 2 * MIB as u64 + 4096, 1));
    assert!(empty.blocks.is_empty());
    let a = kmalloc(&mut heap, &mut fa, 100).unwrap();
    let _b = kmalloc(&mut heap, &mut fa, 5000).unwrap();
    let _c = kmalloc(&mut heap, &mut fa, 1).unwrap();
    kfree(&mut heap, a).unwrap();
    let info = heap_info(&heap);
    assert_eq!(info.start, 2 * MIB);
    assert_eq!(info.used_bytes, 108 + 5008 + 16);
    assert_eq!(info.brk, 2 * MIB + 5132);
    assert_eq!(info.end, 2 * MIB as u64 + 2 * 4096);
    assert_eq!(info.pages, 2);
    assert_eq!(info.alloc_count, 2);
    assert_eq!(
        info.blocks,
        vec![
            BlockInfo { addr: 2 * MIB, size: 100, free: true },
            BlockInfo { addr: 2 * MIB + 108, size: 5000, free: false },
            BlockInfo { addr: 2 * MIB + 5116, size: 8, free: false },
        ]
    );
    assert_eq!((info.total_used, info.total_free), (5008, 100));
}

#[test]
fn vmalloc_figures() {
    let image = KernelImage { start: MIB, end: 2 * MIB };
    let mut fa = frame_init(&[(0, 16 * MIB)], &image, 16 * MIB);
    let mut pt = paging_init(&mut fa, 16 * MIB).unwrap();
    let mut vm = virt_init();
    let a = vmalloc(&mut vm, &mut fa, &mut pt, 1).unwrap().unwrap();
    let _b = vmalloc(&mut vm, &mut fa, &mut pt, 3 * 4096).unwrap().unwrap();
    let _c = vmalloc(&mut vm, &mut fa, &mut pt, 4097).unwrap().unwrap();
    vfree(&mut vm, &mut fa, &mut pt, a).unwrap();
    let info = vmalloc_info(&vm);
    assert_eq!(info.region_start, VMALLOC_BASE);
    assert_eq!(info.region_end, 0xE000_0000);
    assert_eq!(info.brk, VMALLOC_BASE + 6 * 4096);
    assert_eq!((info.used_bytes, info.used_pages, info.count), (6 * 4096, 6, 2));
    assert_eq!(
        info.allocations,
        vec![
            VmallocRow { slot: 1, vaddr: VMALLOC_BASE + 4096, end: VMALLOC_BASE + 4 * 4096, pages: 3 },
            VmallocRow { slot: 2, vaddr: VMALLOC_BASE + 4 * 4096, end: VMALLOC_BASE + 6 * 4096, pages: 2 },
        ]
    );
}
