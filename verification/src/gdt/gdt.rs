//! The global descriptor table.
//!
//! A segment descriptor packs a base address of 32 bits, a limit of 20 bits,
//! an access byte and four flag bits into eight bytes:
//!
//! | bytes | content                                   |
//! |-------|-------------------------------------------|
//! | 0..2  | limit, bits 15..0                         |
//! | 2..4  | base, bits 15..0                          |
//! | 4     | base, bits 23..16                         |
//! | 5     | access byte                               |
//! | 6     | limit, bits 19..16 (low) and flags (high) |
//! | 7     | base, bits 31..24                         |

use vstd::prelude::*;

verus! {

/// Number of descriptors in the table.
pub const GDT_ENTRIES: usize = 7;

/// Physical address at which the table is placed.
pub const GDT_BASE_ADDR: u32 = 0x0000_0800;

/// Access byte of the kernel code segment: present, ring 0, code, readable.
pub const KERNEL_CODE_ACCESS: u8 = 0x9A;

/// Access byte of the kernel data segment: present, ring 0, data, writable.
pub const KERNEL_DATA_ACCESS: u8 = 0x92;

/// Access byte of the kernel stack segment: as data, growing down.
pub const KERNEL_STACK_ACCESS: u8 = 0x96;

/// Access byte of the user code segment: present, ring 3, code, readable.
pub const USER_CODE_ACCESS: u8 = 0xFA;

/// Access byte of the user data segment: present, ring 3, data, writable.
pub const USER_DATA_ACCESS: u8 = 0xF2;

/// Access byte of the user stack segment: as data, growing down.
pub const USER_STACK_ACCESS: u8 = 0xF6;

/// Flags of a 32-bit segment whose limit counts pages of 4 KiB.
pub const FLAGS_32BIT_4K: u8 = 0x0C;

/// A segment descriptor.
#[derive(Clone, Copy, Debug, PartialEq, Eq, Structural)]
pub struct GdtEntry {
    limit_low: u16,
    base_low: u16,
    base_mid: u8,
    access: u8,
    granularity: u8,
    base_high: u8,
}

/// The content of the register that locates the table: its size in bytes
/// less one, and its address.
#[derive(Clone, Copy, Debug, PartialEq, Eq, Structural)]
pub struct GdtPointer {
    pub limit: u16,
    pub base: u32,
}

proof fn lemma_pack(base: u32, limit: u32, flags: u8)
    by (bit_vector)
    ensures
        base & 0xFFFF <= 0xFFFF,
        (base >> 16) & 0xFF <= 0xFF,
        (base >> 24) & 0xFF <= 0xFF,
        limit & 0xFFFF <= 0xFFFF,
        (limit >> 16) & 0x0F <= 0x0F,
        (flags & 0x0Fu8) << 4u8 <= 0xF0,
        (base & 0xFFFF) | (((base >> 16) & 0xFF) << 16) | (((base >> 24) & 0xFF) << 24) == base,
        (limit & 0xFFFF) | ((((((limit >> 16) & 0x0F) as u8) | ((flags & 0x0Fu8) << 4u8)) & 0x0Fu8) as u32)
            << 16 == limit & 0xF_FFFF,
        (((((limit >> 16) & 0x0F) as u8) | ((flags & 0x0Fu8) << 4u8)) >> 4u8) & 0x0Fu8 == flags & 0x0Fu8,
{
}

impl GdtEntry {
    /// The base address of the segment.
    pub closed spec fn base_spec(&self) -> u32 {
        (self.base_low as u32) | ((self.base_mid as u32) << 16) | ((self.base_high as u32) << 24)
    }

    /// The limit of the segment: twenty bits.
    pub closed spec fn limit_spec(&self) -> u32 {
        (self.limit_low as u32) | (((self.granularity & 0x0F) as u32) << 16)
    }

    /// The four flag bits.
    pub closed spec fn flags_spec(&self) -> u8 {
        (self.granularity >> 4) & 0x0F
    }

    /// The access byte.
    pub closed spec fn access_spec(&self) -> u8 {
        self.access
    }

    /// The eight bytes of the descriptor, in memory order.
    pub closed spec fn bytes_spec(&self) -> Seq<u8> {
        seq![
            (self.limit_low & 0xFF) as u8,
            (self.limit_low >> 8) as u8,
            (self.base_low & 0xFF) as u8,
            (self.base_low >> 8) as u8,
            self.base_mid,
            self.access,
            self.granularity,
            self.base_high,
        ]
    }

    /// The null descriptor, which the processor demands as the first entry.
    pub fn null() -> (e: GdtEntry)
        ensures
            e.base_spec() == 0,
            e.limit_spec() == 0,
            e.flags_spec() == 0,
            e.access_spec() == 0,
    {
        proof {
            assert((0u16 as u32) | ((0u8 as u32) << 16) | ((0u8 as u32) << 24) == 0) by (bit_vector);
            assert((0u16 as u32) | (((0u8 & 0x0F) as u32) << 16) == 0) by (bit_vector);
            assert((0u8 >> 4) & 0x0F == 0) by (bit_vector);
        }
        GdtEntry { limit_low: 0, base_low: 0, base_mid: 0, access: 0, granularity: 0, base_high: 0 }
    }

    /// A descriptor of the segment at `base` with the low twenty bits of
    /// `limit`, the access byte `access` and the low four bits of `flags`.
    pub fn new(base: u32, limit: u32, access: u8, flags: u8) -> (e: GdtEntry)
        ensures
            e.base_spec() == base,
            e.limit_spec() == limit & 0xF_FFFF,
            e.flags_spec() == flags & 0x0F,
            e.access_spec() == access,
    {
        proof {
            lemma_pack(base, limit, flags);
        }
        let limit_low: u16 = (limit & 0xFFFF) as u16;
        let base_low: u16 = (base & 0xFFFF) as u16;
        let base_mid: u8 = ((base >> 16) & 0xFF) as u8;
        let granularity: u8 = ((limit >> 16) & 0x0F) as u8 | ((flags & 0x0F) << 4);
        let base_high: u8 = ((base >> 24) & 0xFF) as u8;
        GdtEntry { limit_low, base_low, base_mid, access, granularity, base_high }
    }

    /// The base address of the segment.
    pub fn base(&self) -> (r: u32)
        ensures
            r == self.base_spec(),
    {
        (self.base_low as u32) | ((self.base_mid as u32) << 16) | ((self.base_high as u32) << 24)
    }

    /// The limit of the segment.
    pub fn limit(&self) -> (r: u32)
        ensures
            r == self.limit_spec(),
    {
        (self.limit_low as u32) | (((self.granularity & 0x0F) as u32) << 16)
    }

    /// The four flag bits.
    pub fn flags(&self) -> (r: u8)
        ensures
            r == self.flags_spec(),
    {
        (self.granularity >> 4) & 0x0F
    }

    /// The access byte.
    pub fn access(&self) -> (r: u8)
        ensures
            r == self.access_spec(),
    {
        self.access
    }

    /// The descriptor that the eight bytes `bytes` hold in memory.
    pub fn from_bytes(bytes: &[u8; 8]) -> (e: GdtEntry)
        ensures
            e.bytes_spec() == bytes@,
    {
        let b0: u8 = bytes[0];
        let b1: u8 = bytes[1];
        let b2: u8 = bytes[2];
        let b3: u8 = bytes[3];
        proof {
            assert((((b0 as u16) | ((b1 as u16) << 8)) & 0xFF) as u8 == b0 && ((((b0 as u16) | ((b1 as u16)
                << 8)) >> 8) as u8) == b1) by (bit_vector);
            assert((((b2 as u16) | ((b3 as u16) << 8)) & 0xFF) as u8 == b2 && ((((b2 as u16) | ((b3 as u16)
                << 8)) >> 8) as u8) == b3) by (bit_vector);
        }
        let e = GdtEntry {
            limit_low: (b0 as u16) | ((b1 as u16) << 8),
            base_low: (b2 as u16) | ((b3 as u16) << 8),
            base_mid: bytes[4],
            access: bytes[5],
            granularity: bytes[6],
            base_high: bytes[7],
        };
        proof {
            assert(e.bytes_spec() =~= bytes@);
        }
        e
    }

    /// Two descriptors with the same bytes are the same.
    pub proof fn lemma_bytes_determine(a: GdtEntry, b: GdtEntry)
        requires
            a.bytes_spec() == b.bytes_spec(),
        ensures
            a == b,
    {
        let al = a.limit_low;
        let bl = b.limit_low;
        let ab = a.base_low;
        let bb = b.base_low;
        assert(a.bytes_spec()[0] == b.bytes_spec()[0]);
        assert(a.bytes_spec()[1] == b.bytes_spec()[1]);
        assert(a.bytes_spec()[2] == b.bytes_spec()[2]);
        assert(a.bytes_spec()[3] == b.bytes_spec()[3]);
        assert(a.bytes_spec()[4] == b.bytes_spec()[4]);
        assert(a.bytes_spec()[5] == b.bytes_spec()[5]);
        assert(a.bytes_spec()[6] == b.bytes_spec()[6]);
        assert(a.bytes_spec()[7] == b.bytes_spec()[7]);
        assert((al & 0xFF) as u8 == (bl & 0xFF) as u8 && (al >> 8) as u8 == (bl >> 8) as u8 ==> al == bl)
            by (bit_vector);
        assert((ab & 0xFF) as u8 == (bb & 0xFF) as u8 && (ab >> 8) as u8 == (bb >> 8) as u8 ==> ab == bb)
            by (bit_vector);
    }

    /// The eight bytes of the descriptor as they lie in memory.
    pub fn to_bytes(&self) -> (r: Vec<u8>)
        ensures
            r@ == self.bytes_spec(),
    {
        proof {
            let l = self.limit_low;
            let b = self.base_low;
            assert(l & 0xFF <= 0xFF && l >> 8 <= 0xFF) by (bit_vector);
            assert(b & 0xFF <= 0xFF && b >> 8 <= 0xFF) by (bit_vector);
        }
        let mut r: Vec<u8> = Vec::new();
        r.push((self.limit_low & 0xFF) as u8);
        r.push((self.limit_low >> 8) as u8);
        r.push((self.base_low & 0xFF) as u8);
        r.push((self.base_low >> 8) as u8);
        r.push(self.base_mid);
        r.push(self.access);
        r.push(self.granularity);
        r.push(self.base_high);
        proof {
            assert(r@ =~= self.bytes_spec());
        }
        r
    }
}

/// The access byte of descriptor `i` of the table: none for the null
/// descriptor, then code, data and stack of the kernel and of the user.
pub open spec fn access_of(i: int) -> u8 {
    if i == 1 {
        KERNEL_CODE_ACCESS
    } else if i == 2 {
        KERNEL_DATA_ACCESS
    } else if i == 3 {
        KERNEL_STACK_ACCESS
    } else if i == 4 {
        USER_CODE_ACCESS
    } else if i == 5 {
        USER_DATA_ACCESS
    } else if i == 6 {
        USER_STACK_ACCESS
    } else {
        0
    }
}

/// Builds the table and the pointer that locates it.
///
/// The table holds the null descriptor and six flat segments: each starts at
/// address zero and spans the whole address space, as a 32-bit segment with
/// a limit in pages.
pub fn init() -> (r: (Vec<GdtEntry>, GdtPointer))
    ensures
        r.0@.len() == GDT_ENTRIES,
        r.0@[0].base_spec() == 0 && r.0@[0].limit_spec() == 0 && r.0@[0].flags_spec() == 0,
        forall|i: int|
            1 <= i < GDT_ENTRIES ==> {
                &&& (#[trigger] r.0@[i]).base_spec() == 0
                &&& r.0@[i].limit_spec() == 0xF_FFFF
                &&& r.0@[i].flags_spec() == FLAGS_32BIT_4K
            },
        forall|i: int| 0 <= i < GDT_ENTRIES ==> (#[trigger] r.0@[i]).access_spec() == access_of(i),
        r.1.limit == GDT_ENTRIES * 8 - 1,
        r.1.base == GDT_BASE_ADDR,
{
    proof {
        assert(0xF_FFFFu32 & 0xF_FFFF == 0xF_FFFF) by (bit_vector);
        assert(0x0Cu8 & 0x0F == 0x0C) by (bit_vector);
    }
    let mut gdt: Vec<GdtEntry> = Vec::new();
    gdt.push(GdtEntry::null());
    gdt.push(GdtEntry::new(0, 0xF_FFFF, KERNEL_CODE_ACCESS, FLAGS_32BIT_4K));
    gdt.push(GdtEntry::new(0, 0xF_FFFF, KERNEL_DATA_ACCESS, FLAGS_32BIT_4K));
    gdt.push(GdtEntry::new(0, 0xF_FFFF, KERNEL_STACK_ACCESS, FLAGS_32BIT_4K));
    gdt.push(GdtEntry::new(0, 0xF_FFFF, USER_CODE_ACCESS, FLAGS_32BIT_4K));
    gdt.push(GdtEntry::new(0, 0xF_FFFF, USER_DATA_ACCESS, FLAGS_32BIT_4K));
    gdt.push(GdtEntry::new(0, 0xF_FFFF, USER_STACK_ACCESS, FLAGS_32BIT_4K));
    let pointer = GdtPointer { limit: 55, base: GDT_BASE_ADDR };
    (gdt, pointer)
}

/// The register content that the six bytes `buf` hold, as the processor
/// stores it: the limit in the first two bytes and the base in the other
/// four, low byte first.
pub open spec fn gdtr_of(buf: Seq<u8>) -> GdtPointer {
    GdtPointer {
        limit: (buf[0] + buf[1] * 0x100) as u16,
        base: (buf[2] + buf[3] * 0x100 + buf[4] * 0x1_0000 + buf[5] * 0x100_0000) as u32,
    }
}

/// Reads the register content out of the six bytes that the processor
/// stored.
pub fn decode_gdtr(buf: &[u8; 6]) -> (r: GdtPointer)
    ensures
        r == gdtr_of(buf@),
{
    let b0: u8 = buf[0];
    let b1: u8 = buf[1];
    let b2: u8 = buf[2];
    let b3: u8 = buf[3];
    let b4: u8 = buf[4];
    let b5: u8 = buf[5];
    proof {
        assert((b0 as u16) | ((b1 as u16) << 8) == b0 + b1 * 0x100) by (bit_vector);
        assert((b2 as u32) | ((b3 as u32) << 8) | ((b4 as u32) << 16) | ((b5 as u32) << 24) == b2 + b3 * 0x100
            + b4 * 0x1_0000 + b5 * 0x100_0000) by (bit_vector);
    }
    GdtPointer {
        limit: (b0 as u16) | ((b1 as u16) << 8),
        base: (b2 as u32) | ((b3 as u32) << 8) | ((b4 as u32) << 16) | ((b5 as u32) << 24),
    }
}

/// How many descriptors a table with the register content `pointer` holds.
pub fn entry_count(pointer: &GdtPointer) -> (r: u32)
    ensures
        r == (pointer.limit + 1) / 8,
{
    (pointer.limit as u32 + 1) / 8
}

/// One line of the listing of the table.
#[derive(Clone, Copy, Debug, PartialEq, Eq, Structural)]
pub struct GdtRow {
    /// Index of the descriptor.
    pub index: u32,
    /// Its selector: the offset in the table.
    pub selector: u32,
    /// Base address of the segment.
    pub base: u32,
    /// Limit of the segment.
    pub limit: u32,
    /// Access byte.
    pub access: u8,
    /// Flag bits.
    pub flags: u8,
}

/// The line for descriptor `i`, which is `e`.
pub open spec fn gdt_row(i: int, e: GdtEntry) -> GdtRow {
    GdtRow {
        index: i as u32,
        selector: (i * 8) as u32,
        base: e.base_spec(),
        limit: e.limit_spec(),
        access: e.access_spec(),
        flags: e.flags_spec(),
    }
}

/// The listing of the table `table`, one line for each descriptor.
pub fn gdt_rows(table: &[GdtEntry]) -> (rows: Vec<GdtRow>)
    requires
        table@.len() <= 8192,
    ensures
        rows@.len() == table@.len(),
        forall|i: int| 0 <= i < table@.len() ==> #[trigger] rows@[i] == gdt_row(i, table@[i]),
{
    let mut rows: Vec<GdtRow> = Vec::new();
    let mut i: usize = 0;
    while i < table.len()
        invariant
            i <= table@.len() <= 8192,
            rows@.len() == i,
            forall|k: int| 0 <= k < i ==> #[trigger] rows@[k] == gdt_row(k, table@[k]),
        decreases table@.len() - i,
    {
        let e: &GdtEntry = &table[i];
        rows.push(
            GdtRow {
                index: i as u32,
                selector: (i * 8) as u32,
                base: e.base(),
                limit: e.limit(),
                access: e.access(),
                flags: e.flags(),
            },
        );
        i += 1;
    }
    rows
}

/// The name of segment `i` of the table.
pub fn segment_name(i: usize) -> (r: &'static str)
    ensures
        r@ == if i == 0 {
            "Null"@
        } else if i == 1 {
            "Kernel Code"@
        } else if i == 2 {
            "Kernel Data"@
        } else if i == 3 {
            "Kernel Stack"@
        } else if i == 4 {
            "User Code"@
        } else if i == 5 {
            "User Data"@
        } else if i == 6 {
            "User Stack"@
        } else {
            "Unknown"@
        },
{
    if i == 0 {
        "Null"
    } else if i == 1 {
        "Kernel Code"
    } else if i == 2 {
        "Kernel Data"
    } else if i == 3 {
        "Kernel Stack"
    } else if i == 4 {
        "User Code"
    } else if i == 5 {
        "User Data"
    } else if i == 6 {
        "User Stack"
    } else {
        "Unknown"
    }
}

} // verus!
