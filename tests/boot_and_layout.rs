use vmm::addr::{PhysicalAddress, PhysicalRange, VirtualAddress, VirtualRange};
use vmm::boot::{identity_map_self, map_fdt, map_kernel, map_physical_memory, KernelSections, Section};
use vmm::dtb::{DevTree, DtbError, ReserveEntry, Strings};
use vmm::flush::{FenceRequest, Flush};
use vmm::bump::BumpAllocator;
use vmm::frame_alloc::{BitMapAllocator, FrameAllocator};
use vmm::mode::{Mode, Riscv64Sv39, FLAG_EXECUTE, FLAG_READ, FLAG_VALID, FLAG_WRITE};
use vmm::page_table::Mapper;
use vmm::vmcontext::{ModuleCounts, VMContextOffsets};
use vmm::Error;

fn be32(v: u32) -> [u8; 4] {
    v.to_be_bytes()
}

fn blob(magic: u32, version: u32, totalsize: u32, entries: &[(u64, u64)]) -> Vec<u8> {
    let mut b = Vec::new();
    for v in [magic, totalsize, 0, 0, 40, version, 16, 1, 0, 0] {
        b.extend_from_slice(&be32(v));
    }
    for &(a, s) in entries {
        b.extend_from_slice(&a.to_be_bytes());
        b.extend_from_slice(&s.to_be_bytes());
    }
    b
}

const ENTRIES: [(u64, u64); 3] = [(0x8000_0000, 0x1000), (0x9000_0000, 0x2000), (0, 0)];

#[test]
fn devtree_header() {
    let b = blob(0xd00d_feed, 17, 88, &ENTRIES);
    let t = DevTree::from_bytes(&b).unwrap();
    assert_eq!(t.version(), 17);
    assert_eq!(t.last_comp_version(), 16);
    assert_eq!(t.boot_cpuid_phys(), 1);
    assert_eq!(t.as_slice().len(), 88);
}

#[test]
fn devtree_reserved_entries() {
    let b = blob(0xd00d_feed, 17, 88, &ENTRIES);
    let t = DevTree::from_bytes(&b).unwrap();
    let mut e = t.reserved_entries();
    assert_eq!(e.next(), Ok(Some(ReserveEntry { address: 0x8000_0000, size: 0x1000 })));
    assert_eq!(e.next(), Ok(Some(ReserveEntry { address: 0x9000_0000, size: 0x2000 })));
    assert_eq!(e.next(), Ok(None));
    assert_eq!(e.next(), Ok(None));
}

#[test]
fn devtree_truncated_entry() {
    let mut b = blob(0xd00d_feed, 17, 48, &[]);
    b.extend_from_slice(&0x8000_0000u64.to_be_bytes());
    let t = DevTree::from_bytes(&b).unwrap();
    let mut e = t.reserved_entries();
    assert_eq!(e.next(), Err(DtbError::UnexpectedEOF));
    assert_eq!(e.next(), Ok(None));
}

#[test]
fn devtree_rejects_bad_headers() {
    assert_eq!(DevTree::from_bytes(&blob(0xdead_beef, 17, 40, &[])).err(), Some(DtbError::InvalidMagic));
    assert_eq!(DevTree::from_bytes(&blob(0xd00d_feed, 16, 40, &[])).err(), Some(DtbError::InvalidVersion));
    assert_eq!(DevTree::from_bytes(&blob(0xd00d_feed, 17, 41, &[])).err(), Some(DtbError::UnexpectedEOF));
    assert_eq!(DevTree::from_bytes(&[0xd0, 0x0d]).err(), Some(DtbError::UnexpectedEOF));
}

#[test]
fn strings_split_at_nul() {
    let mut s = Strings::new(b"riscv\0virt\0".to_vec());
    assert_eq!(s.next(), Ok(Some(b"riscv".to_vec())));
    assert_eq!(s.next(), Ok(Some(b"virt".to_vec())));
    assert_eq!(s.next(), Ok(None));
    let mut t = Strings::new(b"ns16550".to_vec());
    assert_eq!(t.next(), Err(DtbError::UnexpectedEOF));
    assert_eq!(t.next(), Ok(None));
}

#[test]
fn vmcontext_layout() {
    let counts = ModuleCounts {
        num_imported_funcs: 2,
        num_imported_tables: 1,
        num_imported_memories: 1,
        num_imported_globals: 3,
        num_defined_tables: 2,
        num_defined_memories: 1,
        num_owned_memories: 1,
        num_defined_globals: 2,
    };
    let o = VMContextOffsets::new(&counts, 8);
    assert_eq!(
        [
            o.magic,
            o.builtins_begin,
            o.tables_begin,
            o.globals_begin,
            o.memories_begin,
            o.owned_memories_begin,
            o.imported_functions_begin,
            o.imported_tables_begin,
            o.imported_memories_begin,
            o.imported_globals_begin,
        ],
        [0, 8, 16, 48, 80, 88, 112, 112, 128, 152]
    );
    assert_eq!(o.size(), 176);
    assert_eq!(o.vmtable_definition(1), 32);
    assert_eq!(o.vmglobal_definition(1), 64);
    assert_eq!(o.vmmemory_pointer(0), 80);
    assert_eq!(o.vmmemory_definition(0), 88);
    assert_eq!(o.vmtable_import(0), 112);
    assert_eq!(o.vmmemory_import(0), 128);
    assert_eq!(o.vmglobal_import(2), 168);
}

fn setup() -> (Mapper, BitMapAllocator, Flush) {
    let mut alloc = BitMapAllocator::new(PhysicalAddress(0x8100_0000), 64);
    let mapper = Mapper::new::<Riscv64Sv39>(0, &mut alloc).unwrap();
    (mapper, alloc, Flush::empty(0))
}

#[test]
fn loader_identity_maps_itself() {
    let (mut m, mut a, mut f) = setup();
    let text = PhysicalRange::new(0x8020_0000, 0x8020_2000);
    let rodata = PhysicalRange::new(0x8020_2000, 0x8020_3000);
    let rw = PhysicalRange::new(0x8020_3000, 0x8020_5000);
    assert_eq!(identity_map_self(&mut m, &mut a, &mut f, text, rodata, rw), Ok(()));
    assert_eq!(m.translate(0x8020_1010), Some(PhysicalAddress(0x8020_1010)));
    assert_eq!(m.leaf(0x8020_0000).unwrap() & 0xff, FLAG_VALID | FLAG_READ | FLAG_EXECUTE);
    assert_eq!(m.leaf(0x8020_2000).unwrap() & 0xff, FLAG_VALID | FLAG_READ);
    assert_eq!(m.leaf(0x8020_4000).unwrap() & 0xff, FLAG_VALID | FLAG_READ | FLAG_WRITE);
    assert_eq!(f.flush(), Some(FenceRequest { asid: 0, start: 0x8020_0000, size: 0x5000 }));
}

#[test]
fn loader_maps_physical_memory_and_fdt() {
    let (mut m, mut a, mut f) = setup();
    let off = Riscv64Sv39::phys_offset() as usize;
    let mems = vec![PhysicalRange::new(0x8000_0000, 0x8000_4000), PhysicalRange::new(0x9000_0000, 0x9000_1000)];
    assert_eq!(map_physical_memory(&mut m, &mut a, &mut f, &mems, off), Ok(()));
    assert_eq!(m.translate(off + 0x8000_3008), Some(PhysicalAddress(0x8000_3008)));
    assert_eq!(m.translate(off + 0x9000_0000), Some(PhysicalAddress(0x9000_0000)));
    let fdt = map_fdt(&mut m, &mut a, &mut f, 0x8220_0010, 0x1800, off).unwrap();
    assert_eq!(fdt, VirtualAddress(off + 0x8220_0010));
    assert_eq!(m.translate(off + 0x8220_1fff), Some(PhysicalAddress(0x8220_1fff)));
    assert_eq!(m.leaf(off + 0x8220_0000).unwrap() & 0xff, FLAG_VALID | FLAG_READ);
}

#[test]
fn loader_maps_kernel_and_stacks() {
    let (mut m, mut a, mut f) = setup();
    let top = Riscv64Sv39::phys_offset() as usize;
    let base = 0xffff_ffff_8000_0000usize;
    let sec = |v: usize, p: usize, n: usize| Section {
        virt: VirtualRange::new(base + v, base + v + n),
        phys: PhysicalRange::new(p, p + n),
    };
    let kernel = KernelSections {
        text: sec(0, 0x8040_0000, 0x2000),
        rodata: sec(0x2000, 0x8040_2000, 0x1000),
        bss: sec(0x3000, 0x8040_3000, 0x1000),
        data: sec(0x4000, 0x8040_4000, 0x1000),
    };
    let stack = map_kernel(&mut m, &mut a, &mut f, &kernel, 2, 2, top).unwrap();
    assert_eq!(stack, VirtualRange::new(top - 0x4000, top));
    assert_eq!(m.translate(base + 0x10), Some(PhysicalAddress(0x8040_0010)));
    assert_eq!(m.leaf(base).unwrap() & 0xff, FLAG_VALID | FLAG_READ | FLAG_EXECUTE);
    assert_eq!(m.leaf(base + 0x2000).unwrap() & 0xff, FLAG_VALID | FLAG_READ);
    assert!(m.translate(top - 0x1000).is_some());
    assert_eq!(m.translate(top - 0x5000), None);
    assert_eq!(
        map_kernel(&mut m, &mut a, &mut f, &kernel, 1, 1, top - 0x10_0000),
        Err(Error::VirtualAddressAlreadyMapped(base))
    );
}

#[test]
fn loader_maps_with_the_bump_allocator() {
    let mut bump = BumpAllocator::new(vec![PhysicalRange::new(0x8100_0000, 0x8110_0000)]);
    let mut m = Mapper::new::<Riscv64Sv39>(0, &mut bump).unwrap();
    let mut f = Flush::empty(0);
    let text = PhysicalRange::new(0x8020_0000, 0x8020_1000);
    let rodata = PhysicalRange::new(0x8020_1000, 0x8020_2000);
    let rw = PhysicalRange::new(0x8020_2000, 0x8020_3000);
    assert_eq!(identity_map_self(&mut m, &mut bump, &mut f, text, rodata, rw), Ok(()));
    assert_eq!(m.translate(0x8020_2008), Some(PhysicalAddress(0x8020_2008)));
    // root and two tables
    assert_eq!(bump.frame_usage().used, 3);
}

#[test]
fn loader_stops_at_first_failing_range() {
    let (mut m, mut a, mut f) = setup();
    let text = PhysicalRange::new(0x8020_0000, 0x8020_1000);
    let rodata = PhysicalRange::new(0x8020_1000, 0x8020_1800);
    let rw = PhysicalRange::new(0x8020_2000, 0x8020_3000);
    assert_eq!(identity_map_self(&mut m, &mut a, &mut f, text, rodata, rw), Err(Error::InvalidRange));
    assert!(m.translate(0x8020_0000).is_some());
    assert_eq!(m.translate(0x8020_2000), None);
}
