use vmm::addr::{PhysicalAddress, PhysicalRange, VirtualRange};
use vmm::flush::{FenceRequest, Flush};
use vmm::frame_alloc::BitMapAllocator;
use vmm::mode::{
    encode_entry, entry_phys, is_leaf_entry, EntryFlags, Mode, Riscv64Sv39, Riscv64Sv48,
    Riscv64Sv57, FLAG_EXECUTE, FLAG_READ, FLAG_VALID, FLAG_WRITE,
};
use vmm::page_table::Mapper;
use vmm::Error;

fn rw() -> EntryFlags {
    EntryFlags::from_bits_truncate(FLAG_READ | FLAG_WRITE)
}

#[test]
fn mode_parameters() {
    assert_eq!(Riscv64Sv39::page_table_levels(), 3);
    assert_eq!(Riscv64Sv48::page_table_levels(), 4);
    assert_eq!(Riscv64Sv57::page_table_levels(), 5);
    assert_eq!(Riscv64Sv39::phys_offset(), 0xffff_ffd8_0000_0000);
    assert_eq!(Riscv64Sv48::phys_offset(), 0xffff_bfff_8000_0000);
    assert_eq!(Riscv64Sv57::phys_offset(), 0xff7f_ffff_8000_0000);
    assert_eq!(Riscv64Sv39::page_size(), 4096);
    assert_eq!(Riscv64Sv39::page_table_entries(), 512);
}

#[test]
fn entry_encoding() {
    let e = encode_entry(PhysicalAddress(0x8020_0000), EntryFlags::from_bits_truncate(FLAG_VALID | FLAG_READ));
    assert_eq!(e, (0x8020_0000 >> 2) | 0b11);
    assert_eq!(entry_phys(e), PhysicalAddress(0x8020_0000));
    assert!(is_leaf_entry(e));
    assert!(Riscv64Sv39::entry_is_leaf(e));
    // a valid entry without read or execute points to a table
    assert!(!is_leaf_entry((0x8020_0000 >> 2) | FLAG_VALID));
    assert!(!is_leaf_entry(FLAG_READ));
}

#[test]
fn entry_flags_operations() {
    let f = EntryFlags::from_bits_truncate(0x1ff);
    assert_eq!(f.bits(), 0xff);
    let r = EntryFlags::from_bits_truncate(FLAG_READ);
    let x = EntryFlags::from_bits_truncate(FLAG_EXECUTE);
    let rx = r.union(x);
    assert_eq!(rx.bits(), 0b1010);
    assert!(rx.contains(r));
    assert!(!r.contains(rx));
    assert!(rx.intersects(x));
    assert!(!r.intersects(x));
}

#[test]
fn flush_merges_ranges() {
    let mut flush = Flush::new(1, VirtualRange::new(0x1000, 0x2000));
    assert_eq!(flush.extend_range(1, VirtualRange::new(0x3000, 0x5000)), Ok(()));
    assert_eq!(flush.extend_range(1, VirtualRange::new(0x0, 0x1000)), Ok(()));
    assert_eq!(flush.flush(), Some(FenceRequest { asid: 1, start: 0x0, size: 0x5000 }));
}

#[test]
fn flush_rejects_other_address_space() {
    let mut flush = Flush::empty(1);
    assert_eq!(
        flush.extend_range(2, VirtualRange::new(0x1000, 0x2000)),
        Err(Error::AddressSpaceMismatch { expected: 1, found: 2 })
    );
    assert_eq!(flush.flush(), None);
}

#[test]
fn flush_empty_issues_nothing() {
    let flush = Flush::empty(7);
    assert_eq!(flush.asid(), 7);
    assert_eq!(flush.flush(), None);
}

#[test]
fn mapper_maps_and_translates() {
    let mut alloc = BitMapAllocator::new(PhysicalAddress(0x8000_0000), 64);
    let mut mapper = Mapper::new::<Riscv64Sv39>(3, &mut alloc).unwrap();
    assert_eq!(alloc.frame_usage().used, 1);
    let mut flush = Flush::empty(3);
    let r = mapper.map_range(
        &mut alloc,
        VirtualRange::new(0x40_0000, 0x40_2000),
        PhysicalRange::new(0x9000_0000, 0x9000_2000),
        rw(),
        &mut flush,
    );
    assert_eq!(r, Ok(()));
    // two intermediate tables below the root
    assert_eq!(alloc.frame_usage().used, 3);
    assert_eq!(mapper.translate(0x40_1234), Some(PhysicalAddress(0x9000_1234)));
    assert_eq!(mapper.translate(0x40_2000), None);
    let leaf = mapper.leaf(0x40_0000).unwrap();
    assert_eq!(leaf & 0xff, FLAG_VALID | FLAG_READ | FLAG_WRITE);
    assert_eq!(flush.flush(), Some(FenceRequest { asid: 3, start: 0x40_0000, size: 0x2000 }));
}

#[test]
fn mapper_refuses_to_overwrite() {
    let mut alloc = BitMapAllocator::new(PhysicalAddress(0x8000_0000), 64);
    let mut mapper = Mapper::new::<Riscv64Sv39>(0, &mut alloc).unwrap();
    let mut flush = Flush::empty(0);
    let v = VirtualRange::new(0x40_0000, 0x40_1000);
    let p = PhysicalRange::new(0x9000_0000, 0x9000_1000);
    assert_eq!(mapper.map_range(&mut alloc, v, p, rw(), &mut flush), Ok(()));
    let other = PhysicalRange::new(0x9100_0000, 0x9100_1000);
    assert_eq!(
        mapper.map_range(&mut alloc, v, other, rw(), &mut flush),
        Err(Error::VirtualAddressAlreadyMapped(0x40_0000))
    );
    assert_eq!(mapper.translate(0x40_0000), Some(PhysicalAddress(0x9000_0000)));
}

#[test]
fn mapper_checks_ranges_and_flags() {
    let mut alloc = BitMapAllocator::new(PhysicalAddress(0x8000_0000), 64);
    let mut mapper = Mapper::new::<Riscv64Sv39>(0, &mut alloc).unwrap();
    let mut flush = Flush::empty(0);
    // lengths differ
    assert_eq!(
        mapper.map_range(
            &mut alloc,
            VirtualRange::new(0x40_0000, 0x40_2000),
            PhysicalRange::new(0x9000_0000, 0x9000_1000),
            rw(),
            &mut flush
        ),
        Err(Error::InvalidRange)
    );
    // not page aligned
    assert_eq!(
        mapper.map_range(
            &mut alloc,
            VirtualRange::new(0x40_0010, 0x40_1010),
            PhysicalRange::new(0x9000_0000, 0x9000_1000),
            rw(),
            &mut flush
        ),
        Err(Error::InvalidRange)
    );
    // write-only cannot be a leaf
    assert_eq!(
        mapper.map_range(
            &mut alloc,
            VirtualRange::new(0x40_0000, 0x40_1000),
            PhysicalRange::new(0x9000_0000, 0x9000_1000),
            EntryFlags::from_bits_truncate(FLAG_WRITE),
            &mut flush
        ),
        Err(Error::InvalidRange)
    );
    // beyond the 39-bit address space
    assert_eq!(
        mapper.map_range(
            &mut alloc,
            VirtualRange::new(0x40_0000_0000, 0x40_0000_1000),
            PhysicalRange::new(0x9000_0000, 0x9000_1000),
            rw(),
            &mut flush
        ),
        Err(Error::VirtualAddressTooLarge(0x40_0000_0000))
    );
    assert_eq!(flush.flush(), None);
}

#[test]
fn mapper_accepts_upper_half_addresses() {
    let mut alloc = BitMapAllocator::new(PhysicalAddress(0x8000_0000), 64);
    let mut mapper = Mapper::new::<Riscv64Sv39>(0, &mut alloc).unwrap();
    let mut flush = Flush::empty(0);
    let v = VirtualRange::new(0xffff_ffc0_0000_0000, 0xffff_ffc0_0000_1000);
    let p = PhysicalRange::new(0x9000_0000, 0x9000_1000);
    assert_eq!(mapper.map_range(&mut alloc, v, p, rw(), &mut flush), Ok(()));
    assert!(mapper.is_canonical(0xffff_ffc0_0000_0000));
    assert!(!mapper.is_canonical(0x0000_8000_0000_0000));
}

#[test]
fn mapper_unmaps_and_returns_frames() {
    let mut alloc = BitMapAllocator::new(PhysicalAddress(0x8000_0000), 64);
    let mut mapper = Mapper::new::<Riscv64Sv39>(0, &mut alloc).unwrap();
    let mut flush = Flush::empty(0);
    mapper
        .map_range(
            &mut alloc,
            VirtualRange::new(0x40_0000, 0x40_1000),
            PhysicalRange::new(0x9000_0000, 0x9000_1000),
            rw(),
            &mut flush,
        )
        .unwrap();
    mapper
        .map_range(
            &mut alloc,
            VirtualRange::new(0x40_2000, 0x40_3000),
            PhysicalRange::new(0x9100_0000, 0x9100_1000),
            rw(),
            &mut flush,
        )
        .unwrap();
    let mut flush = Flush::empty(0);
    let frames = mapper.unmap_range(VirtualRange::new(0x40_0000, 0x40_3000), &mut flush).unwrap();
    assert_eq!(frames, vec![PhysicalAddress(0x9000_0000), PhysicalAddress(0x9100_0000)]);
    assert_eq!(mapper.translate(0x40_0000), None);
    assert_eq!(flush.flush(), Some(FenceRequest { asid: 0, start: 0x40_0000, size: 0x3000 }));
    assert_eq!(
        mapper.unmap_range(VirtualRange::new(0x40_0000, 0x40_0800), &mut Flush::empty(0)),
        Err(Error::InvalidRange)
    );
}

#[test]
fn mapper_updates_flags_in_place() {
    let mut alloc = BitMapAllocator::new(PhysicalAddress(0x8000_0000), 64);
    let mut mapper = Mapper::new::<Riscv64Sv39>(0, &mut alloc).unwrap();
    let mut flush = Flush::empty(0);
    let v = VirtualRange::new(0x40_0000, 0x40_2000);
    mapper
        .map_range(&mut alloc, v, PhysicalRange::new(0x9000_0000, 0x9000_2000), rw(), &mut flush)
        .unwrap();
    let rx = EntryFlags::from_bits_truncate(FLAG_READ | FLAG_EXECUTE);
    assert_eq!(mapper.update_flags(v, rx, &mut flush), Ok(()));
    assert_eq!(mapper.leaf(0x40_1000).unwrap() & 0xff, FLAG_VALID | FLAG_READ | FLAG_EXECUTE);
    assert_eq!(mapper.translate(0x40_1000), Some(PhysicalAddress(0x9000_1000)));
    assert_eq!(
        mapper.update_flags(VirtualRange::new(0x40_0000, 0x40_3000), rx, &mut flush),
        Err(Error::VirtualAddressNotMapped(0x40_2000))
    );
}

#[test]
fn mapper_identity_maps() {
    let mut alloc = BitMapAllocator::new(PhysicalAddress(0x8000_0000), 64);
    let mut mapper = Mapper::new::<Riscv64Sv48>(0, &mut alloc).unwrap();
    let mut flush = Flush::empty(0);
    let p = PhysicalRange::new(0x8020_0000, 0x8020_3000);
    let rx = EntryFlags::from_bits_truncate(FLAG_READ | FLAG_EXECUTE);
    assert_eq!(mapper.identity_map_range(&mut alloc, p, rx, &mut flush), Ok(()));
    assert_eq!(mapper.translate(0x8020_2abc), Some(PhysicalAddress(0x8020_2abc)));
    // four levels: three tables below the root
    assert_eq!(alloc.frame_usage().used, 4);
}
