use vmm::guest::GuestMemory;
use vmm::addr::PhysicalAddress;
use vmm::frame_alloc::BitMapAllocator;
use vmm::heap::{ensure_mapped, HeapState};
use vmm::addr::VirtualRange;
use vmm::mode::Riscv64Sv39;
use vmm::page_table::Mapper;
use vmm::panic_count::{
    count_is_zero, decrease, finished_panic_hook, increase, panicking, MustAbort, PanicCount,
};
use vmm::scounteren::{RegisterError, Scounteren};
use vmm::flush::FenceRequest;
use vmm::Error;

const HEAP: usize = 0x10_0000;

#[test]
fn heap_growth_doubles_and_clamps() {
    let mut alloc = BitMapAllocator::new(PhysicalAddress(0x8000_0000), 64);
    let mut mapper = Mapper::new::<Riscv64Sv39>(0, &mut alloc).unwrap();
    let mut heap = HeapState::new(HEAP, HEAP + 0x5000);
    assert_eq!(heap.span(), VirtualRange::new(HEAP, HEAP + 0x1000));
    assert_eq!(heap.next_end(0), HEAP + 0x2000);
    assert_eq!(heap.next_end(0x2001), HEAP + 0x4000);
    assert_eq!(
        heap.handle_oom(&mut mapper, &mut alloc, 16),
        Ok(Some(FenceRequest { asid: 0, start: HEAP + 0x1000, size: 0x1000 }))
    );
    assert_eq!(heap.span().end.0, HEAP + 0x2000);
    assert!(mapper.translate(HEAP + 0x1000).is_some());
    assert_eq!(heap.handle_oom(&mut mapper, &mut alloc, 16).map(|_| ()), Ok(()));
    assert_eq!(heap.span().end.0, HEAP + 0x4000);
    // doubling would pass the ceiling: clamped
    assert_eq!(heap.handle_oom(&mut mapper, &mut alloc, 16).map(|_| ()), Ok(()));
    assert_eq!(heap.span().end.0, HEAP + 0x5000);
    // no room left
    assert_eq!(heap.handle_oom(&mut mapper, &mut alloc, 16), Err(Error::OutOfMemory));
    assert_eq!(heap.span(), VirtualRange::new(HEAP, HEAP + 0x5000));
    assert_eq!(heap.ceiling(), HEAP + 0x5000);
}

#[test]
fn heap_grows_by_large_requests() {
    let mut alloc = BitMapAllocator::new(PhysicalAddress(0x8000_0000), 64);
    let mut mapper = Mapper::new::<Riscv64Sv39>(0, &mut alloc).unwrap();
    let mut heap = HeapState::new(HEAP, HEAP + 0x10_0000);
    assert!(heap.handle_oom(&mut mapper, &mut alloc, 0x3001).is_ok());
    assert_eq!(heap.span().end.0, HEAP + 0x5000);
    assert!(mapper.translate(HEAP + 0x4fff).is_some());
    assert_eq!(mapper.translate(HEAP + 0x5000), None);
}

#[test]
fn heap_growth_fails_without_frames() {
    let mut alloc = BitMapAllocator::new(PhysicalAddress(0x8000_0000), 4);
    let mut mapper = Mapper::new::<Riscv64Sv39>(0, &mut alloc).unwrap();
    let mut heap = HeapState::new(HEAP, HEAP + 0x10_0000);
    assert_eq!(heap.handle_oom(&mut mapper, &mut alloc, 0x10000), Err(Error::OutOfMemory));
    assert_eq!(heap.span().end.0, HEAP + 0x1000);
}

#[test]
fn ensure_mapped_maps_only_new_pages() {
    let mut alloc = BitMapAllocator::new(PhysicalAddress(0x8000_0000), 64);
    let mut mapper = Mapper::new::<Riscv64Sv39>(0, &mut alloc).unwrap();
    let first = VirtualRange::new(HEAP, HEAP + 0x1000);
    assert!(ensure_mapped(&mut mapper, &mut alloc, None, first).is_ok());
    let grown = VirtualRange::new(HEAP, HEAP + 0x3000);
    assert_eq!(
        ensure_mapped(&mut mapper, &mut alloc, Some(first), grown),
        Ok(Some(FenceRequest { asid: 0, start: HEAP + 0x1000, size: 0x2000 }))
    );
    assert!(mapper.translate(HEAP + 0x2000).is_some());
}

#[test]
fn scounteren_fields() {
    let r = Scounteren::from_bits(0b1000_0101);
    assert!(r.cy());
    assert!(!r.tm());
    assert!(r.ir());
    assert!(r.hpm(7));
    assert!(!r.hpm(3));
    assert_eq!(r.bits(), 0b1000_0101);
    assert_eq!(r.try_hpm(7), Ok(true));
    assert_eq!(r.try_hpm(31), Ok(false));
    assert_eq!(r.try_hpm(2), Err(RegisterError::IndexOutOfBounds { index: 2, min: 3, max: 31 }));
    assert_eq!(r.try_hpm(32), Err(RegisterError::IndexOutOfBounds { index: 32, min: 3, max: 31 }));
}

#[test]
fn panic_count_tracks_panics() {
    let mut c = PanicCount::new();
    assert!(count_is_zero(&c));
    assert!(!panicking(&c));
    assert_eq!(increase(&mut c, true), None);
    // only this CPU's count moves
    assert_eq!((c.global, c.local), (0, 1));
    assert!(count_is_zero(&c));
    c.global = 1;
    assert!(panicking(&c));
    // a panic inside the hook must abort
    assert_eq!(increase(&mut c, false), Some(MustAbort::PanicInHook));
    assert_eq!(c.local, 1);
    finished_panic_hook(&mut c);
    assert_eq!(increase(&mut c, false), None);
    assert_eq!((c.global, c.local), (1, 2));
    decrease(&mut c);
    assert_eq!((c.global, c.local), (0, 1));
    assert!(count_is_zero(&c));
}

#[test]
fn panic_count_other_cpu() {
    let c = PanicCount { global: 1, local: 0, in_panic_hook: false };
    assert!(count_is_zero(&c));
    assert!(!panicking(&c));
}

#[test]
fn guest_memory_maps_successive_pages() {
    let mut alloc = BitMapAllocator::new(PhysicalAddress(0x8000_0000), 64);
    let mut mapper = Mapper::new::<Riscv64Sv39>(4, &mut alloc).unwrap();
    let mut g = GuestMemory::new(4, 0x20_0000);
    let (r, fence) = g.map_additional_pages(&mut mapper, &mut alloc, 3).unwrap();
    assert_eq!(r, VirtualRange::new(0x20_0000, 0x20_3000));
    assert_eq!(fence, Some(FenceRequest { asid: 4, start: 0x20_0000, size: 0x3000 }));
    assert_eq!(g.virt_offset(), 0x20_3000);
    let (r2, _) = g.map_additional_pages(&mut mapper, &mut alloc, 1).unwrap();
    assert_eq!(r2, VirtualRange::new(0x20_3000, 0x20_4000));
    assert!(mapper.translate(0x20_3abc).is_some());
    assert_eq!(g.asid(), 4);
    assert_eq!(g.map_additional_pages(&mut mapper, &mut alloc, 100).err(), Some(Error::OutOfMemory));
    assert_eq!(g.virt_offset(), 0x20_4000);
}

#[test]
fn failed_growth_gives_frames_back() {
    let mut alloc = BitMapAllocator::new(PhysicalAddress(0x8000_0000), 64);
    let mut mapper = Mapper::new::<Riscv64Sv39>(0, &mut alloc).unwrap();
    let first = VirtualRange::new(HEAP, HEAP + 0x1000);
    assert!(ensure_mapped(&mut mapper, &mut alloc, None, first).is_ok());
    let taken = VirtualRange::new(HEAP + 0x2000, HEAP + 0x3000);
    assert!(ensure_mapped(&mut mapper, &mut alloc, None, taken).is_ok());
    let used = alloc.frame_usage().used;
    let grown = VirtualRange::new(HEAP, HEAP + 0x3000);
    assert_eq!(
        ensure_mapped(&mut mapper, &mut alloc, Some(first), grown),
        Err(Error::VirtualAddressAlreadyMapped(HEAP + 0x2000))
    );
    assert_eq!(alloc.frame_usage().used, used);
}
