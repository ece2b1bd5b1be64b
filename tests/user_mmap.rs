use vmm::addr::{PhysicalAddress, VirtualRange};
use vmm::aspace::{AddressSpace, AddressSpaceKind, Permissions};
use vmm::flush::FenceRequest;
use vmm::frame_alloc::BitMapAllocator;
use vmm::mode::Riscv64Sv39;
use vmm::user_mmap::{UserAccess, UserMmap};
use vmm::Error;

fn setup() -> (AddressSpace, BitMapAllocator) {
    let mut alloc = BitMapAllocator::new(PhysicalAddress(0x8000_0000), 256);
    let aspace = AddressSpace::new::<Riscv64Sv39>(
        AddressSpaceKind::User,
        9,
        VirtualRange::new(0x10_0000, 0x100_0000),
        &mut alloc,
    )
    .unwrap();
    (aspace, alloc)
}

#[test]
fn empty_mapping() {
    let (mut a, mut alloc) = setup();
    let mut m = UserMmap::new_empty();
    assert_eq!(m.len(), 0);
    assert!(m.is_empty());
    assert_eq!(m.make_readonly(&mut a), Ok(None));
    assert_eq!(m.make_executable(&mut a, false), Ok(None));
    assert_eq!(m.commit(&mut a, &mut alloc, 0, 0, true), Ok(None));
}

#[test]
fn zeroed_mapping_is_read_write() {
    let (mut a, _alloc) = setup();
    let mut m = UserMmap::new_zeroed(&mut a, 5000, 4096).unwrap();
    assert_eq!(m.len(), 0x2000);
    assert!(!m.is_empty());
    assert_eq!(m.range(), VirtualRange::new(0x10_0000, 0x10_2000));
    assert_eq!(m.as_ptr(), 0x10_0000);
    assert_eq!(m.as_mut_ptr(), 0x10_0000);
    let p = a.region_list()[0].permissions;
    assert_eq!(p, Permissions { read: true, write: true, execute: false, user: true });
    assert_eq!(UserMmap::new_zeroed(&mut a, 0, 4096).err(), Some(Error::InvalidRange));
}

#[test]
fn copy_commits_the_touched_pages() {
    let (mut a, mut alloc) = setup();
    let mut m = UserMmap::new_zeroed(&mut a, 0x4000, 4096).unwrap();
    let acc = m.copy_to_userspace(&mut a, &mut alloc, 0x2000, 0x1f00, 0x3f00).unwrap();
    assert_eq!(
        acc,
        UserAccess {
            range: VirtualRange::new(0x10_1f00, 0x10_3f00),
            fence: Some(FenceRequest { asid: 9, start: 0x10_1000, size: 0x3000 }),
        }
    );
    assert!(a.translate(0x10_1000).is_some());
    assert!(a.translate(0x10_3000).is_some());
    assert_eq!(a.translate(0x10_0000), None);
    let acc = m.copy_from_userspace(&mut a, &mut alloc, 0x1000, 0x1010, 0x10).unwrap();
    assert_eq!(acc.range, VirtualRange::new(0x10_1000, 0x10_1010));
    assert_eq!(acc.fence, None);
}

#[test]
fn make_executable_drops_write() {
    let (mut a, mut alloc) = setup();
    let mut m = UserMmap::new_zeroed(&mut a, 4096, 4096).unwrap();
    m.commit(&mut a, &mut alloc, 0, 4096, true).unwrap();
    assert!(m.make_executable(&mut a, true).is_ok());
    let p = a.region_list()[0].permissions;
    assert_eq!(p, Permissions { read: true, write: false, execute: true, user: true });
    assert_eq!(
        m.copy_to_userspace(&mut a, &mut alloc, 4, 0, 4).err(),
        Some(Error::AccessDenied(0x10_0000))
    );
}

#[test]
fn make_readonly_refuses_later_writes() {
    let (mut a, mut alloc) = setup();
    let mut m = UserMmap::new_zeroed(&mut a, 0x2000, 4096).unwrap();
    assert!(m.make_readonly(&mut a).is_ok());
    assert_eq!(
        m.copy_to_userspace(&mut a, &mut alloc, 4, 0x1000, 0x1004).err(),
        Some(Error::AccessDenied(0x10_1000))
    );
    assert!(m.copy_from_userspace(&mut a, &mut alloc, 0, 4, 4).is_ok());
}

#[test]
fn handle_fails_after_unmap() {
    let (mut a, mut alloc) = setup();
    let mut m = UserMmap::new_zeroed(&mut a, 0x1000, 4096).unwrap();
    a.unmap(&mut alloc, m.range()).unwrap();
    assert_eq!(m.make_readonly(&mut a), Err(Error::RegionNotFound(0x10_0000)));
    assert_eq!(
        m.copy_from_userspace(&mut a, &mut alloc, 0, 4, 4).err(),
        Some(Error::RegionNotFound(0x10_0000))
    );
}

#[test]
fn uncommitted_pages_lists_the_lazy_ones() {
    let (mut a, mut alloc) = setup();
    let m = UserMmap::new_zeroed(&mut a, 0x4000, 4096).unwrap();
    m.commit(&mut a, &mut alloc, 0x1000, 0x1001, false).unwrap();
    assert_eq!(m.uncommitted_pages(&a, 0x800, 0x3000), vec![0x10_0000, 0x10_2000]);
    assert_eq!(m.uncommitted_pages(&a, 0x1000, 0x1000), Vec::<usize>::new());
}
