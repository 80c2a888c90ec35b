use ios_emu::common::{EmuError, GuestAddr, Protection};
use ios_emu::memory::allocator::BumpAllocator;
use ios_emu::memory::{GuestMemory, RegionKind};

fn mem() -> GuestMemory {
    GuestMemory::new(GuestAddr(0x1_0000_0000), 0x10000).unwrap()
}

#[test]
fn alignment_and_exhaustion() {
    let mut a = BumpAllocator::new(GuestAddr(0x1000), 0x100);
    let p = a.allocate(1, 16).unwrap();
    assert_eq!(p.raw() % 16, 0);
    let q = a.allocate(16, 16).unwrap();
    assert!(q.raw() >= p.raw() + 1);
    assert!(a.allocate(0x1000, 1).is_err());
}

#[test]
fn heap_rw_roundtrip() {
    let mut m = mem();
    let p = m.heap_alloc(64, 8).unwrap();
    m.write_u64(p, 0xdead_beef_cafe_babe).unwrap();
    assert_eq!(m.read_u64(p).unwrap(), 0xdead_beef_cafe_babe);
}

#[test]
fn protection_enforced() {
    let mut m = mem();
    m.map(GuestAddr(0x2_0000_0000), 0x4000, Protection::read(), RegionKind::Anonymous, "ro")
        .unwrap();
    assert!(matches!(m.write_u32(GuestAddr(0x2_0000_0000), 1), Err(EmuError::Memory { .. })));
}

#[test]
fn overlap_rejected() {
    let mut m = mem();
    m.map(GuestAddr(0x3_0000_0000), 0x8000, Protection::rw(), RegionKind::Anonymous, "a").unwrap();
    assert!(m
        .map(GuestAddr(0x3_0000_4000), 0x8000, Protection::rw(), RegionKind::Anonymous, "b")
        .is_err());
}

#[test]
fn cstr_read() {
    let mut m = mem();
    let p = m.heap_alloc(16, 1).unwrap();
    m.write(p, b"hello\0garbage").unwrap();
    assert_eq!(m.read_cstr(p, 16).unwrap(), "hello");
}

#[test]
fn cstr_with_malformed_bytes_is_replaced() {
    let mut m = mem();
    let p = m.heap_alloc(16, 1).unwrap();
    m.write(p, b"a\xffb\0").unwrap();
    assert_eq!(m.read_cstr(p, 16).unwrap(), "a\u{fffd}b");
}

#[test]
fn writes_touch_nothing_else() {
    let mut m = mem();
    let p = m.heap_alloc(32, 8).unwrap();
    m.fill(p, 0xaa, 32).unwrap();
    m.write_u32(p + 8, 0x0403_0201).unwrap();
    let v = m.read_vec(p, 32).unwrap();
    assert_eq!(v[7], 0xaa);
    assert_eq!(&v[8..12], &[1, 2, 3, 4]);
    assert_eq!(v[12], 0xaa);
    assert_eq!(m.read_u8(p + 9).unwrap(), 2);
    assert_eq!(m.read_u32(p + 8).unwrap(), 0x0403_0201);
    let mut buf = [0u8; 2];
    m.read(p + 10, &mut buf).unwrap();
    assert_eq!(buf, [3, 4]);
}

#[test]
fn mapped_data_is_followed_by_zeros() {
    let mut m = mem();
    m.map_with_data(
        GuestAddr(0x2_0000_0000),
        0x4000,
        &[1, 2, 3],
        Protection::read(),
        RegionKind::Anonymous,
        "data",
    )
    .unwrap();
    let v = m.read_vec(GuestAddr(0x2_0000_0000), 6).unwrap();
    assert_eq!(v, vec![1, 2, 3, 0, 0, 0]);
    assert!(m
        .map_with_data(
            GuestAddr(0x2_1000_0000),
            0x4000,
            &vec![0u8; 0x4001],
            Protection::read(),
            RegionKind::Anonymous,
            "big",
        )
        .is_err());
}

#[test]
fn anonymous_mappings_do_not_collide() {
    let mut m = mem();
    let a = m.mmap_anon(0x4000, Protection::rw()).unwrap();
    let b = m.mmap_anon(0x4001, Protection::rw()).unwrap();
    assert!(b.raw() + 0x8000 <= a.raw());
    assert_eq!(m.read_u64(a).unwrap(), 0);
    assert!(m.mmap_anon(u64::MAX, Protection::rw()).is_err());
    assert_eq!(m.regions().len(), 3);
}

#[test]
fn regions_stay_in_order() {
    let mut m = mem();
    for base in [0x5_0000_0000u64, 0x2_0000_0000, 0x3_0000_0000] {
        m.map(GuestAddr(base), 1, Protection::rw(), RegionKind::Commpage, "r").unwrap();
    }
    let bases: Vec<u64> = m.regions().iter().map(|r| r.base.raw()).collect();
    assert_eq!(bases, vec![0x1_0000_0000, 0x2_0000_0000, 0x3_0000_0000, 0x5_0000_0000]);
    let r = &m.regions()[1];
    assert_eq!((r.size(), r.end().raw(), r.bytes().len()), (0x4000, 0x2_0000_4000, 0x4000));
    assert!(r.contains(GuestAddr(0x2_0000_3fff)));
    assert!(!r.contains(GuestAddr(0x2_0000_4000)));
}

#[test]
fn faults_say_what_is_wrong() {
    let mut m = mem();
    let message = |e: EmuError| match e {
        EmuError::Memory { reason, .. } => reason,
        other => panic!("not a fault: {other:?}"),
    };
    assert_eq!(message(m.read_u8(GuestAddr(0)).unwrap_err()), "unmapped");
    assert_eq!(message(m.read_u64(GuestAddr(0x1_0000_fffc)).unwrap_err()), "past region end");
    m.protect(GuestAddr(0x1_0000_0000), Protection::none()).unwrap();
    assert_eq!(message(m.read_u8(GuestAddr(0x1_0000_0000)).unwrap_err()), "protection violation");
    let mut map = |base: u64, size: u64| {
        message(
            m.map(GuestAddr(base), size, Protection::rw(), RegionKind::Anonymous, "x").unwrap_err(),
        )
    };
    assert_eq!(map(0x1_0000_0000, 1), "map overlaps existing region");
    assert_eq!(map(u64::MAX, 0x4000), "map overflow");
    let mut a = BumpAllocator::new(GuestAddr(0x1000), 0x100);
    assert_eq!(message(a.allocate(0x101, 1).unwrap_err()), "heap exhausted");
}

#[test]
fn protections_can_change() {
    let mut m = mem();
    let a = m.mmap_anon(0x4000, Protection::rw()).unwrap();
    m.write_u32(a, 7).unwrap();
    m.protect(a, Protection::read()).unwrap();
    assert!(m.write_u32(a, 8).is_err());
    assert_eq!(m.read_u32(a).unwrap(), 7);
    assert!(m.protect(GuestAddr(0x10), Protection::rw()).is_err());
}

#[test]
fn accesses_outside_regions_fail() {
    let m = mem();
    assert!(m.read_u8(GuestAddr(0)).is_err());
    assert!(m.read_u64(GuestAddr(0x1_0000_fffc)).is_err());
    assert!(m.read_u8(GuestAddr(u64::MAX)).is_err());
}

#[test]
fn heap_blocks_are_disjoint() {
    let mut a = BumpAllocator::new(GuestAddr(0x1000), 0x100);
    let p = a.allocate(10, 8).unwrap();
    let q = a.allocate(10, 8).unwrap();
    assert!(p.raw() + 10 <= q.raw());
    assert_eq!(q.raw() % 8, 0);
    assert_eq!(a.used(), q.raw() + 10 - 0x1000);
}
