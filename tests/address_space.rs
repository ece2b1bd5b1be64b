use core::ops::ControlFlow;
use vmm::addr::{PhysicalAddress, VirtualAddress, VirtualRange};
use vmm::aspace::{
    AddressSpace, AddressSpaceKind, AddressSpaceRegion, BackingKind, PageFaultFlags, Permissions,
};
use vmm::flush::FenceRequest;
use vmm::frame_alloc::BitMapAllocator;
use vmm::mode::Riscv64Sv39;
use vmm::trap_handler::{
    handle_page_fault, page_fault_flags, INSTRUCTION_PAGE_FAULT, LOAD_PAGE_FAULT, STORE_PAGE_FAULT,
};
use vmm::Error;

const LO: usize = 0x1_0000;
const HI: usize = 0x40_0000;

fn rw() -> Permissions {
    Permissions { read: true, write: true, execute: false, user: true }
}

fn setup() -> (AddressSpace, BitMapAllocator) {
    let mut alloc = BitMapAllocator::new(PhysicalAddress(0x8000_0000), 256);
    let aspace = AddressSpace::new::<Riscv64Sv39>(
        AddressSpaceKind::User,
        5,
        VirtualRange::new(LO, HI),
        &mut alloc,
    )
    .unwrap();
    (aspace, alloc)
}

fn region_ranges(a: &AddressSpace) -> Vec<(usize, usize)> {
    a.region_list().iter().map(|r| (r.range.start.0, r.range.end.0)).collect()
}

#[test]
fn map_places_regions_first_fit() {
    let (mut a, _alloc) = setup();
    let r1 = a.map(4096, 4096, rw()).unwrap();
    assert_eq!(r1, VirtualRange::new(LO, LO + 0x1000));
    let r2 = a.map(5000, 0x4000, rw()).unwrap();
    assert_eq!(r2, VirtualRange::new(0x1_4000, 0x1_6000));
    let r3 = a.map(0x2000, 4096, rw()).unwrap();
    // the gap between the first two regions holds it
    assert_eq!(r3, VirtualRange::new(0x1_1000, 0x1_3000));
    assert_eq!(
        region_ranges(&a),
        vec![(0x1_0000, 0x1_1000), (0x1_1000, 0x1_3000), (0x1_4000, 0x1_6000)]
    );
    assert_eq!(
        a.region_list()[0],
        AddressSpaceRegion { range: r1, permissions: rw(), backing: BackingKind::ZeroFill }
    );
}

#[test]
fn regions_stay_sorted_and_disjoint() {
    let (mut a, mut alloc) = setup();
    let mut ranges = Vec::new();
    for len in [0x3000usize, 0x1000, 0x2000, 0x1000] {
        ranges.push(a.map(len, 4096, rw()).unwrap());
    }
    a.unmap(&mut alloc, ranges[1]).unwrap();
    a.map(0x1000, 4096, rw()).unwrap();
    a.map(0x5000, 0x2000, rw()).unwrap();
    let rs = region_ranges(&a);
    for w in rs.windows(2) {
        assert!(w[0].0 < w[0].1 && w[0].1 <= w[1].0);
    }
}

#[test]
fn map_errors() {
    let (mut a, _alloc) = setup();
    assert_eq!(a.map(0, 4096, rw()), Err(Error::InvalidRange));
    let wx = Permissions { read: true, write: true, execute: true, user: true };
    assert_eq!(a.map(4096, 4096, wx), Err(Error::WriteAndExecute));
    let none = Permissions { read: false, write: false, execute: false, user: true };
    assert_eq!(a.map(4096, 4096, none), Err(Error::InvalidPermissions));
    assert_eq!(a.map(HI, 4096, rw()), Err(Error::OutOfMemory));
    assert!(a.region_list().is_empty());
}

#[test]
fn empty_user_space_store_fault_commits_zero_page() {
    let (mut a, mut alloc) = setup();
    let used = alloc.frame_usage().used;
    let r = a.map(4096, 4096, rw()).unwrap();
    let addr = r.start.0;
    assert_eq!(addr % 4096, 0);
    assert_eq!(a.translate(addr), None);
    let res = a.page_fault(&mut alloc, VirtualAddress(addr), PageFaultFlags::Store);
    assert_eq!(res, Ok(Some(FenceRequest { asid: 5, start: addr, size: 4096 })));
    assert!(a.translate(addr).is_some());
    assert!(alloc.frame_usage().used > used);
}

#[test]
fn second_fault_is_a_no_op() {
    let (mut a, mut alloc) = setup();
    let r = a.map(0x2000, 4096, rw()).unwrap();
    let addr = r.start.0 + 0x1234;
    assert!(a.page_fault(&mut alloc, VirtualAddress(addr), PageFaultFlags::Load).unwrap().is_some());
    let used = alloc.frame_usage().used;
    let phys = a.translate(addr);
    assert_eq!(a.page_fault(&mut alloc, VirtualAddress(addr), PageFaultFlags::Load), Ok(None));
    assert_eq!(a.page_fault(&mut alloc, VirtualAddress(addr), PageFaultFlags::Store), Ok(None));
    assert_eq!(alloc.frame_usage().used, used);
    assert_eq!(a.translate(addr), phys);
    // the other page is still lazy
    assert_eq!(a.translate(r.start.0), None);
}

#[test]
fn faults_outside_regions_or_permissions_are_not_corrected() {
    let (mut a, mut alloc) = setup();
    let ro = Permissions { read: true, write: false, execute: false, user: true };
    let r = a.map(4096, 4096, ro).unwrap();
    assert_eq!(
        a.page_fault(&mut alloc, VirtualAddress(r.start.0), PageFaultFlags::Store),
        Err(Error::AccessDenied(r.start.0))
    );
    assert_eq!(
        a.page_fault(&mut alloc, VirtualAddress(r.start.0), PageFaultFlags::Instruction),
        Err(Error::AccessDenied(r.start.0))
    );
    assert_eq!(
        a.page_fault(&mut alloc, VirtualAddress(0x30_0000), PageFaultFlags::Load),
        Err(Error::RegionNotFound(0x30_0000))
    );
    assert_eq!(a.translate(r.start.0), None);
}

#[test]
fn protect_refuses_write_and_execute() {
    let (mut a, _alloc) = setup();
    let r = a.map(4096, 4096, rw()).unwrap();
    let wx = Permissions { read: true, write: true, execute: true, user: true };
    assert_eq!(a.protect(r, wx), Err(Error::WriteAndExecute));
    assert_eq!(a.region_list()[0].permissions, rw());
}

#[test]
fn protect_rewrites_committed_pages() {
    let (mut a, mut alloc) = setup();
    let r = a.map(0x2000, 4096, rw()).unwrap();
    a.page_fault(&mut alloc, VirtualAddress(r.start.0), PageFaultFlags::Store).unwrap();
    let phys = a.translate(r.start.0);
    let rx = Permissions { read: true, write: false, execute: true, user: true };
    assert_eq!(
        a.protect(r, rx),
        Ok(Some(FenceRequest { asid: 5, start: r.start.0, size: 0x2000 }))
    );
    assert_eq!(a.region_list()[0].permissions, rx);
    assert_eq!(a.translate(r.start.0), phys);
    assert_eq!(
        a.page_fault(&mut alloc, VirtualAddress(r.start.0), PageFaultFlags::Store),
        Err(Error::AccessDenied(r.start.0))
    );
    assert_eq!(
        a.protect(VirtualRange::new(r.start.0, r.start.0 + 0x1000), rx),
        Err(Error::RegionNotFound(r.start.0))
    );
}

#[test]
fn map_then_unmap_restores_usage() {
    let (mut a, mut alloc) = setup();
    a.map(0x3000, 4096, rw()).unwrap();
    let before_regions = region_ranges(&a);
    let before_used = alloc.frame_usage().used;
    let r = a.map(0x5000, 4096, rw()).unwrap();
    assert_eq!(a.unmap(&mut alloc, r), Ok(Some(FenceRequest { asid: 5, start: r.start.0, size: 0x5000 })));
    assert_eq!(region_ranges(&a), before_regions);
    assert_eq!(alloc.frame_usage().used, before_used);
}

#[test]
fn unmap_releases_committed_frames() {
    let (mut a, mut alloc) = setup();
    let r = a.map(0x2000, 4096, rw()).unwrap();
    a.page_fault(&mut alloc, VirtualAddress(r.start.0), PageFaultFlags::Store).unwrap();
    a.page_fault(&mut alloc, VirtualAddress(r.start.0 + 0x1000), PageFaultFlags::Load).unwrap();
    let used = alloc.frame_usage().used;
    assert!(a.unmap(&mut alloc, r).is_ok());
    assert_eq!(alloc.frame_usage().used, used - 2);
    assert_eq!(a.translate(r.start.0), None);
    assert_eq!(a.unmap(&mut alloc, r), Err(Error::RegionNotFound(r.start.0)));
}

#[test]
fn find_region_by_address() {
    let (mut a, _alloc) = setup();
    a.map(0x1000, 4096, rw()).unwrap();
    a.map(0x2000, 0x4000, rw()).unwrap();
    assert_eq!(a.find_region(0x1_0fff), Some(0));
    assert_eq!(a.find_region(0x1_4000), Some(1));
    assert_eq!(a.find_region(0x1_1000), None);
    assert_eq!(a.find_region(0x1_6000), None);
    assert_eq!(a.kind(), AddressSpaceKind::User);
    assert_eq!(a.asid(), 5);
}

#[test]
fn trap_causes() {
    assert_eq!(page_fault_flags(LOAD_PAGE_FAULT), Some(PageFaultFlags::Load));
    assert_eq!(page_fault_flags(STORE_PAGE_FAULT), Some(PageFaultFlags::Store));
    assert_eq!(page_fault_flags(INSTRUCTION_PAGE_FAULT), Some(PageFaultFlags::Instruction));
    assert_eq!(page_fault_flags(2), None);
}

#[test]
fn trap_handler_corrects_or_passes_on() {
    let (mut a, mut alloc) = setup();
    let r = a.map(4096, 4096, rw()).unwrap();
    assert_eq!(
        handle_page_fault(&mut a, &mut alloc, STORE_PAGE_FAULT, VirtualAddress(r.start.0)),
        ControlFlow::Break(Some(FenceRequest { asid: 5, start: r.start.0, size: 4096 }))
    );
    assert_eq!(
        handle_page_fault(&mut a, &mut alloc, LOAD_PAGE_FAULT, VirtualAddress(r.start.0)),
        ControlFlow::Break(None)
    );
    assert_eq!(
        handle_page_fault(&mut a, &mut alloc, INSTRUCTION_PAGE_FAULT, VirtualAddress(r.start.0)),
        ControlFlow::Continue(())
    );
    assert_eq!(
        handle_page_fault(&mut a, &mut alloc, 8, VirtualAddress(r.start.0)),
        ControlFlow::Continue(())
    );
}

#[test]
fn small_alignment_rounds_up_to_a_page() {
    let (mut a, _alloc) = setup();
    a.map(0x1000, 4096, rw()).unwrap();
    let r = a.map(100, 8, rw()).unwrap();
    assert_eq!(r, VirtualRange::new(0x1_1000, 0x1_2000));
}

#[test]
fn frame_pointer_alignment() {
    vmm::arch::assert_fp_is_aligned(VirtualAddress(0x8000_0010));
}
