use tacos::gdt::gdt::{init, GdtEntry, GdtPointer, FLAGS_32BIT_4K, GDT_BASE_ADDR, KERNEL_CODE_ACCESS};

#[test]
fn null_descriptor_is_all_zero() {
    let e = GdtEntry::null();
    assert_eq!((e.base(), e.limit(), e.flags(), e.access()), (0, 0, 0, 0));
    assert_eq!(e.to_bytes(), vec![0u8; 8]);
}

#[test]
fn descriptor_fields_round_trip() {
    let e = GdtEntry::new(0x1234_5678, 0xA_BCDE, 0x9A, 0x0C);
    assert_eq!(e.base(), 0x1234_5678);
    assert_eq!(e.limit(), 0xA_BCDE);
    assert_eq!(e.flags(), 0x0C);
    assert_eq!(e.access(), 0x9A);
    assert_eq!(e.to_bytes(), vec![0xDE, 0xBC, 0x78, 0x56, 0x34, 0x9A, 0xCA, 0x12]);
}

#[test]
fn descriptor_cuts_limit_and_flags() {
    let e = GdtEntry::new(0xFFFF_FFFF, 0xFFFF_FFFF, 0xFF, 0xFF);
    assert_eq!(e.base(), 0xFFFF_FFFF);
    assert_eq!(e.limit(), 0xF_FFFF);
    assert_eq!(e.flags(), 0x0F);
    let f = GdtEntry::new(0, 0x12F_0000, 0, 0x35);
    assert_eq!(f.limit(), 0xF_0000);
    assert_eq!(f.flags(), 0x05);
}

#[test]
fn table_has_seven_flat_segments() {
    let (table, pointer) = init();
    assert_eq!(table.len(), 7);
    assert_eq!(table[0], GdtEntry::null());
    let access = [0x00u8, 0x9A, 0x92, 0x96, 0xFA, 0xF2, 0xF6];
    for i in 1..7 {
        assert_eq!(table[i].base(), 0);
        assert_eq!(table[i].limit(), 0xF_FFFF);
        assert_eq!(table[i].flags(), FLAGS_32BIT_4K);
        assert_eq!(table[i].access(), access[i]);
    }
    assert_eq!(table[1].to_bytes(), vec![0xFF, 0xFF, 0, 0, 0, KERNEL_CODE_ACCESS, 0xCF, 0]);
    assert_eq!(pointer, GdtPointer { limit: 55, base: GDT_BASE_ADDR });
}

#[test]
fn descriptor_from_its_bytes() {
    let bytes = [0xDE, 0xBC, 0x78, 0x56, 0x34, 0x9A, 0xCA, 0x12];
    let e = GdtEntry::from_bytes(&bytes);
    assert_eq!(e, GdtEntry::new(0x1234_5678, 0xA_BCDE, 0x9A, 0x0C));
    assert_eq!(e.to_bytes(), bytes.to_vec());
    assert_eq!(GdtEntry::from_bytes(&[0; 8]), GdtEntry::null());
}

#[test]
fn register_content_and_listing() {
    let p = tacos::gdt::gdt::decode_gdtr(&[0x37, 0x00, 0x00, 0x08, 0x00, 0x00]);
    assert_eq!(p, GdtPointer { limit: 55, base: 0x800 });
    assert_eq!(tacos::gdt::gdt::entry_count(&p), 7);
    let q = tacos::gdt::gdt::decode_gdtr(&[0xFF, 0xFF, 0x78, 0x56, 0x34, 0x12]);
    assert_eq!(q, GdtPointer { limit: 0xFFFF, base: 0x1234_5678 });
    assert_eq!(tacos::gdt::gdt::entry_count(&q), 8192);
    let (table, _) = init();
    let rows = tacos::gdt::gdt::gdt_rows(&table);
    assert_eq!(rows.len(), 7);
    assert_eq!(rows[0], tacos::gdt::gdt::GdtRow { index: 0, selector: 0, base: 0, limit: 0, access: 0, flags: 0 });
    assert_eq!(
        rows[4],
        tacos::gdt::gdt::GdtRow { index: 4, selector: 0x20, base: 0, limit: 0xF_FFFF, access: 0xFA, flags: 0xC }
    );
    assert_eq!(tacos::gdt::gdt::segment_name(0), "Null");
    assert_eq!(tacos::gdt::gdt::segment_name(3), "Kernel Stack");
    assert_eq!(tacos::gdt::gdt::segment_name(6), "User Stack");
    assert_eq!(tacos::gdt::gdt::segment_name(7), "Unknown");
}
