//! Memory management: physical frames, paging, the kernel heap and the
//! virtually contiguous allocator, together with the constants and alignment
//! helpers they share.

use vstd::prelude::*;

pub mod frame;
pub mod paging;
pub mod heap;
pub mod virt;

use frame::FrameAllocator;
use frame::frames_for;
use frame::initially_used;
use heap::Heap;
use paging::PageTables;
use paging::after_allocs;
use paging::identity_slots;
use virt::Vmalloc;

verus! {

/// Size of a page and of a physical frame, in bytes.
pub const PAGE_SIZE: u32 = 4096;

/// First address of the conceptual kernel half of the address space.
pub const KERNEL_SPACE_START: u32 = 0xC000_0000;

/// Last address of the conceptual user half of the address space.
pub const USER_SPACE_END: u32 = 0xBFFF_FFFF;

/// A programming error that the memory core detects and reports to its
/// caller.  None of them can be recovered from: the kernel is expected to halt.
#[derive(Clone, Copy, Debug, PartialEq, Eq, Structural)]
pub enum MemError {
    /// An address that must lie on a frame boundary does not.
    Misaligned,
    /// The frame or heap block is already free.
    DoubleFree,
    /// The address was never handed out by the allocator it is returned to.
    UnknownPointer,
    /// No physical frame is left for a structure that must exist.
    OutOfFrames,
    /// The page tables have not been set up.
    NotInitialized,
}

/// Where the kernel image was loaded: the bytes `start..end` of physical
/// memory.
#[derive(Clone, Copy, Debug, PartialEq, Eq, Structural)]
pub struct KernelImage {
    pub start: u32,
    pub end: u32,
}

/// First address of the kernel image.
pub fn kernel_start(image: &KernelImage) -> (r: u32)
    ensures
        r == image.start,
{
    image.start
}

/// First address past the kernel image.
pub fn kernel_end(image: &KernelImage) -> (r: u32)
    ensures
        r == image.end,
{
    image.end
}

/// Size of the kernel image in bytes.
pub fn kernel_size(image: &KernelImage) -> (r: u32)
    requires
        image.start <= image.end,
    ensures
        r == image.end - image.start,
{
    kernel_end(image) - kernel_start(image)
}

/// The largest multiple of `align` that does not exceed `addr`.
pub open spec fn align_down_spec(addr: int, align: int) -> int {
    addr - addr % align
}

/// The smallest multiple of `align` that is not below `addr`.
pub open spec fn align_up_spec(addr: int, align: int) -> int {
    if addr % align == 0 {
        addr
    } else {
        addr - addr % align + align
    }
}

/// Both roundings land on a multiple of `align`, at a distance below `align`.
pub proof fn lemma_align_bounds(addr: int, align: int)
    requires
        0 <= addr,
        0 < align,
    ensures
        align_down_spec(addr, align) % align == 0,
        align_up_spec(addr, align) % align == 0,
        addr - align < align_down_spec(addr, align) <= addr,
        addr <= align_up_spec(addr, align) < addr + align,
        align_down_spec(addr, align) == (addr / align) * align,
{
    vstd::arithmetic::div_mod::lemma_fundamental_div_mod(addr, align);
    vstd::arithmetic::div_mod::lemma_mod_multiples_basic(addr / align, align);
    vstd::arithmetic::div_mod::lemma_mod_multiples_basic(addr / align + 1, align);
    assert((addr / align + 1) * align == (addr / align) * align + align) by (nonlinear_arith);
    assert(align * (addr / align) == (addr / align) * align) by (nonlinear_arith);
}

/// Rounds `addr` down to a multiple of `align`.
pub fn align_down(addr: u32, align: u32) -> (r: u32)
    requires
        align > 0,
    ensures
        r == align_down_spec(addr as int, align as int),
        r <= addr,
        r % align == 0,
{
    proof {
        lemma_align_bounds(addr as int, align as int);
    }
    addr - addr % align
}

/// Rounds `addr` up to a multiple of `align`.  The rounded address must still
/// fit in 32 bits.
pub fn align_up(addr: u32, align: u32) -> (r: u32)
    requires
        align > 0,
        align_up_spec(addr as int, align as int) <= u32::MAX,
    ensures
        r == align_up_spec(addr as int, align as int),
        r >= addr,
        r % align == 0,
{
    proof {
        lemma_align_bounds(addr as int, align as int);
    }
    let rem: u32 = addr % align;
    if rem == 0 {
        addr
    } else {
        addr - rem + align
    }
}

/// Lower memory assumed when the boot loader reports none, in KiB.
pub const DEFAULT_MEM_LOWER: u32 = 640;

/// Upper memory assumed when the boot loader reports none, in KiB.
pub const DEFAULT_MEM_UPPER: u32 = 130048;

/// Flag bit of the boot information: the memory sizes are valid.
pub const BOOT_FLAG_MEMORY: u32 = 0x01;

/// Flag bit of the boot information: the memory map is valid.
pub const BOOT_FLAG_MMAP: u32 = 0x40;

/// The type of a memory-map entry that describes usable memory.
pub const MMAP_AVAILABLE: u32 = 1;

/// One entry of the memory map that the boot loader hands over.
#[derive(Clone, Copy, Debug, PartialEq, Eq, Structural)]
pub struct MmapEntry {
    /// Size of the rest of the entry in bytes.
    pub size: u32,
    /// Low half of the base address.
    pub base_addr_low: u32,
    /// High half of the base address.
    pub base_addr_high: u32,
    /// Low half of the length in bytes.
    pub length_low: u32,
    /// High half of the length in bytes.
    pub length_high: u32,
    /// Kind of memory; 1 is usable.
    pub entry_type: u32,
}

/// What the boot loader reports about memory.
pub struct MultibootInfo {
    /// Which of the other fields are valid.
    pub flags: u32,
    /// Memory below 1 MiB, in KiB.
    pub mem_lower: u32,
    /// Memory above 1 MiB, in KiB.
    pub mem_upper: u32,
    /// The memory map.
    pub mmap: Vec<MmapEntry>,
}

/// The boot information carries memory sizes.
pub open spec fn has_memory_info(flags: u32) -> bool {
    flags & BOOT_FLAG_MEMORY != 0
}

/// The boot information carries a memory map.
pub open spec fn has_mmap(flags: u32) -> bool {
    flags & BOOT_FLAG_MMAP != 0
}

/// Lower and upper memory in KiB as reported, or the defaults where nothing
/// is reported.
pub open spec fn memory_sizes(info: Option<MultibootInfo>) -> (u32, u32) {
    match info {
        Some(i) => if has_memory_info(i.flags) {
            (i.mem_lower, i.mem_upper)
        } else {
            (DEFAULT_MEM_LOWER, DEFAULT_MEM_UPPER)
        },
        None => (DEFAULT_MEM_LOWER, DEFAULT_MEM_UPPER),
    }
}

/// Total memory in bytes for the given lower and upper memory in KiB: both
/// and the 1 MiB between them.  Zero, which stands for the whole address
/// space, when that does not fit in 32 bits.
pub open spec fn total_bytes(mem_lower: u32, mem_upper: u32) -> u32 {
    if (mem_lower + mem_upper + 1024) * 1024 <= u32::MAX {
        ((mem_lower + mem_upper + 1024) * 1024) as u32
    } else {
        0
    }
}

/// `kib` KiB in bytes, cut off at the largest 32-bit value.
pub open spec fn kib_to_bytes(kib: u32) -> u32 {
    if kib * 1024 <= u32::MAX {
        (kib * 1024) as u32
    } else {
        u32::MAX
    }
}

/// The entry describes usable memory that starts below 4 GiB.
pub open spec fn entry_usable(e: MmapEntry) -> bool {
    e.entry_type == MMAP_AVAILABLE && e.base_addr_high == 0
}

/// The usable regions among the first `n` entries of a memory map, in order.
pub open spec fn mmap_regions(mmap: Seq<MmapEntry>, n: int) -> Seq<(u32, u32)>
    decreases n,
{
    if n <= 0 {
        Seq::empty()
    } else if entry_usable(mmap[n - 1]) {
        mmap_regions(mmap, n - 1).push((mmap[n - 1].base_addr_low, mmap[n - 1].length_low))
    } else {
        mmap_regions(mmap, n - 1)
    }
}

/// The regions assumed when the boot loader reports nothing: the first
/// 640 KiB, and 127 MiB from 1 MiB on.
pub open spec fn default_regions() -> Seq<(u32, u32)> {
    seq![(0u32, 0xA_0000u32), (0x10_0000u32, 0x7F0_0000u32)]
}

/// The usable regions that the boot information describes: those of the
/// memory map where there is one, else lower and upper memory where their
/// sizes are reported, else the defaults.
pub open spec fn usable_regions(info: Option<MultibootInfo>) -> Seq<(u32, u32)> {
    match info {
        None => default_regions(),
        Some(i) => if has_mmap(i.flags) {
            mmap_regions(i.mmap@, i.mmap@.len() as int)
        } else if has_memory_info(i.flags) {
            seq![(0u32, kib_to_bytes(i.mem_lower)), (0x10_0000u32, kib_to_bytes(i.mem_upper))]
        } else {
            default_regions()
        },
    }
}

/// Lower and upper memory in KiB as the boot loader reports them.
pub fn parse_multiboot_info(info: Option<&MultibootInfo>) -> (r: (u32, u32))
    ensures
        r == memory_sizes(
            match info {
                Some(i) => Some(*i),
                None => None,
            },
        ),
{
    match info {
        None => (DEFAULT_MEM_LOWER, DEFAULT_MEM_UPPER),
        Some(i) => {
            if i.flags & BOOT_FLAG_MEMORY != 0 {
                (i.mem_lower, i.mem_upper)
            } else {
                (DEFAULT_MEM_LOWER, DEFAULT_MEM_UPPER)
            }
        },
    }
}

/// Total memory in bytes for the given lower and upper memory in KiB.
pub fn total_memory_of(mem_lower: u32, mem_upper: u32) -> (r: u32)
    ensures
        r == total_bytes(mem_lower, mem_upper),
{
    let kib: u64 = mem_lower as u64 + mem_upper as u64 + 1024;
    let bytes: u64 = kib * 1024;
    if bytes <= u32::MAX as u64 {
        bytes as u32
    } else {
        0
    }
}

fn kib_bytes(kib: u32) -> (r: u32)
    ensures
        r == kib_to_bytes(kib),
{
    if kib <= u32::MAX / 1024 {
        kib * 1024
    } else {
        u32::MAX
    }
}

/// The usable regions that the boot information describes, each as a base
/// address and a length in bytes.
pub fn walk_memory_map(info: Option<&MultibootInfo>) -> (regions: Vec<(u32, u32)>)
    ensures
        regions@ == usable_regions(
            match info {
                Some(i) => Some(*i),
                None => None,
            },
        ),
{
    let mut regions: Vec<(u32, u32)> = Vec::new();
    match info {
        None => {
            regions.push((0, 0xA_0000));
            regions.push((0x10_0000, 0x7F0_0000));
            proof {
                assert(regions@ =~= default_regions());
            }
        },
        Some(i) => {
            if i.flags & BOOT_FLAG_MMAP != 0 {
                let mut k: usize = 0;
                while k < i.mmap.len()
                    invariant
                        k <= i.mmap@.len(),
                        regions@ == mmap_regions(i.mmap@, k as int),
                    decreases i.mmap@.len() - k,
                {
                    let e: MmapEntry = i.mmap[k];
                    if e.entry_type == MMAP_AVAILABLE && e.base_addr_high == 0 {
                        regions.push((e.base_addr_low, e.length_low));
                    }
                    k += 1;
                }
            } else if i.flags & BOOT_FLAG_MEMORY != 0 {
                regions.push((0, kib_bytes(i.mem_lower)));
                regions.push((0x10_0000, kib_bytes(i.mem_upper)));
                proof {
                    assert(regions@ =~= seq![
                        (0u32, kib_to_bytes(i.mem_lower)),
                        (0x10_0000u32, kib_to_bytes(i.mem_upper)),
                    ]);
                }
            } else {
                regions.push((0, 0xA_0000));
                regions.push((0x10_0000, 0x7F0_0000));
                proof {
                    assert(regions@ =~= default_regions());
                }
            }
        },
    }
    regions
}

/// The four memory services of the kernel, set up and ready.
pub struct MemorySystem {
    /// Detected memory in bytes; zero stands for the whole address space.
    pub total_memory: u32,
    /// The accounting of physical frames.
    pub frames: FrameAllocator,
    /// The page tables.
    pub paging: PageTables,
    /// The kernel heap.
    pub heap: Heap,
    /// The allocator of virtually contiguous memory.
    pub vmalloc: Vmalloc,
}

impl MemorySystem {
    /// Every service is well-formed.
    pub open spec fn wf(&self) -> bool {
        &&& self.frames.wf()
        &&& self.paging.wf()
        &&& self.heap.wf()
        &&& self.vmalloc.wf()
    }
}

/// The frame accounting right after the frame allocator has been set up.
pub open spec fn initial_frames(regions: Seq<(u32, u32)>, image: KernelImage, total_memory: u32) -> Seq<bool> {
    Seq::new(frames_for(total_memory) as nat, |f: int| initially_used(regions, image, f))
}

/// Detected memory in bytes.
pub fn total_memory(sys: &MemorySystem) -> (r: u32)
    ensures
        r == sys.total_memory,
{
    sys.total_memory
}

/// Sets up the memory services in the order in which they depend on each
/// other: the frame allocator from the memory that the boot loader reports,
/// the identity mapping, the heap behind the kernel image, and the
/// allocator of virtually contiguous memory.
///
/// Fails when the frames do not suffice for the page tables or for the first
/// frame of the heap.
pub fn init(info: Option<&MultibootInfo>, image: &KernelImage) -> (r: Result<MemorySystem, MemError>)
    ensures
        ({
            let ghost_info = match info {
                Some(i) => Some(*i),
                None => None,
            };
            let sizes = memory_sizes(ghost_info);
            let total = total_bytes(sizes.0, sizes.1);
            let start = initial_frames(usable_regions(ghost_info), *image, total);
            let paged = after_allocs(start, (1 + identity_slots(total)) as nat);
            &&& r is Ok <==> frame::count_used(start, start.len() as int) + 1 + identity_slots(total)
                <= start.len() && align_up_spec(image.end as int, 4096) + 4096 <= start.len() * 4096
            &&& match r {
                Ok(sys) => {
                    &&& sys.wf()
                    &&& sys.total_memory == total
                    &&& sys.frames@ == paged.update(align_up_spec(image.end as int, 4096) / 4096, true)
                    &&& sys.paging@.enabled
                    &&& forall|v: u32| #[trigger]
                        sys.paging@.translate(v) == if v / 0x40_0000 < identity_slots(total) {
                            Some(v)
                        } else {
                            None
                        }
                    &&& sys.heap@.arena.start == align_up_spec(image.end as int, 4096)
                    &&& sys.heap@.arena.brk == sys.heap@.arena.start
                    &&& sys.heap@.blocks.len() == 0
                    &&& sys.vmalloc@.brk == virt::VMALLOC_BASE
                    &&& sys.vmalloc@.count == 0
                },
                Err(e) => e == MemError::OutOfFrames,
            }
        }),
{
    let (mem_lower, mem_upper) = parse_multiboot_info(info);
    let total: u32 = total_memory_of(mem_lower, mem_upper);
    let regions: Vec<(u32, u32)> = walk_memory_map(info);
    let mut frames: FrameAllocator = frame::init(regions.as_slice(), image, total);
    proof {
        let ghost_info = match info {
            Some(i) => Some(*i),
            None => None,
        };
        assert(frames@ =~= initial_frames(usable_regions(ghost_info), *image, total));
        frames.lemma_wf();
        paging::lemma_after_allocs(frames@, (1 + identity_slots(total)) as nat);
    }
    let paging: PageTables = match paging::init(&mut frames, total) {
        Ok(pt) => pt,
        Err(e) => {
            return Err(e);
        },
    };
    let heap: Heap = match heap::init(image, &mut frames) {
        Ok(heap) => heap,
        Err(e) => {
            return Err(e);
        },
    };
    let vmalloc: Vmalloc = virt::init();
    Ok(MemorySystem { total_memory: total, frames, paging, heap, vmalloc })
}

} // verus!
