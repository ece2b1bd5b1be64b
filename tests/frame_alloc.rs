use vmm::bump::BumpAllocator;
use vmm::frame_alloc::{BitMapAllocator, FrameAllocator, FrameUsage};
use vmm::addr::{PhysicalAddress, PhysicalRange};
use vmm::Error;

const BASE: usize = 0x8000_0000;

#[test]
fn bitmap_starts_empty() {
    let alloc = BitMapAllocator::new(PhysicalAddress(BASE), 16);
    assert_eq!(alloc.frame_usage(), FrameUsage { used: 0, total: 16 });
}

#[test]
fn bitmap_allocates_first_fit() {
    let mut alloc = BitMapAllocator::new(PhysicalAddress(BASE), 16);
    assert_eq!(alloc.allocate_frames(2), Ok(PhysicalAddress(BASE)));
    assert_eq!(alloc.allocate_frames(3), Ok(PhysicalAddress(BASE + 2 * 4096)));
    assert_eq!(alloc.frame_usage().used, 5);
    // free the first run: a request of two fits there again, one of three does not
    assert_eq!(alloc.deallocate_frames(PhysicalAddress(BASE), 2), Ok(()));
    assert_eq!(alloc.allocate_frames(3), Ok(PhysicalAddress(BASE + 5 * 4096)));
    assert_eq!(alloc.allocate_frames(2), Ok(PhysicalAddress(BASE)));
    assert_eq!(alloc.frame_usage().used, 8);
}

#[test]
fn bitmap_live_allocations_never_overlap() {
    let mut alloc = BitMapAllocator::new(PhysicalAddress(BASE), 32);
    let mut live: Vec<(usize, usize)> = Vec::new();
    for n in [3usize, 1, 4, 1, 5] {
        let a = alloc.allocate_frames(n).unwrap().0;
        live.push((a, n));
    }
    assert_eq!(alloc.deallocate_frames(PhysicalAddress(live[1].0), 1), Ok(()));
    live.remove(1);
    let a = alloc.allocate_frames(2).unwrap().0;
    live.push((a, 2));
    for (i, &(a, n)) in live.iter().enumerate() {
        for &(b, m) in live.iter().skip(i + 1) {
            assert!(a + n * 4096 <= b || b + m * 4096 <= a);
        }
    }
    let sum: usize = live.iter().map(|&(_, n)| n).sum();
    assert_eq!(alloc.frame_usage().used, sum);
}

#[test]
fn bitmap_out_of_memory() {
    let mut alloc = BitMapAllocator::new(PhysicalAddress(BASE), 4);
    assert_eq!(alloc.allocate_frames(5), Err(Error::OutOfMemory));
    assert_eq!(alloc.allocate_frames(4), Ok(PhysicalAddress(BASE)));
    assert_eq!(alloc.allocate_frames(1), Err(Error::OutOfMemory));
    assert_eq!(alloc.frame_usage().used, 4);
}

#[test]
fn bitmap_rejects_freeing_free_frames() {
    let mut alloc = BitMapAllocator::new(PhysicalAddress(BASE), 4);
    assert_eq!(alloc.allocate_frames(1), Ok(PhysicalAddress(BASE)));
    assert_eq!(
        alloc.deallocate_frames(PhysicalAddress(BASE + 4096), 1),
        Err(Error::FrameNotAllocated(BASE + 4096))
    );
    assert_eq!(
        alloc.deallocate_frames(PhysicalAddress(BASE + 1), 1),
        Err(Error::FrameNotAllocated(BASE + 1))
    );
    assert_eq!(
        alloc.deallocate_frames(PhysicalAddress(BASE), 2),
        Err(Error::FrameNotAllocated(BASE))
    );
    assert_eq!(alloc.frame_usage().used, 1);
}

#[test]
fn bitmap_through_the_trait() {
    let mut alloc = BitMapAllocator::new(PhysicalAddress(BASE), 8);
    let a = FrameAllocator::allocate_frames(&mut alloc, 2).unwrap();
    assert_eq!(FrameAllocator::frame_usage(&alloc).used, 2);
    assert_eq!(FrameAllocator::deallocate_frames(&mut alloc, a, 2), Ok(()));
    assert_eq!(FrameAllocator::frame_usage(&alloc).used, 0);
    let f = alloc.allocate_frame().unwrap();
    assert_eq!(f, PhysicalAddress(BASE));
    assert_eq!(alloc.deallocate_frame(f), Ok(()));
    assert_eq!(alloc.deallocate_frame(f), Err(Error::FrameNotAllocated(BASE)));
}

#[test]
fn bump_advances_through_regions() {
    let regions = vec![
        PhysicalRange::new(0x1000, 0x3000),
        PhysicalRange::new(0x10000, 0x14000),
    ];
    let mut alloc = BumpAllocator::new(regions);
    assert_eq!(alloc.frame_usage(), FrameUsage { used: 0, total: 6 });
    assert_eq!(alloc.allocate_frames(1), Ok(PhysicalAddress(0x1000)));
    // two frames no longer fit in the first region
    assert_eq!(alloc.allocate_frames(2), Ok(PhysicalAddress(0x10000)));
    assert_eq!(alloc.allocate_frames(2), Ok(PhysicalAddress(0x12000)));
    assert_eq!(alloc.allocate_frames(1), Err(Error::OutOfMemory));
    assert_eq!(alloc.frame_usage().used, 5);
}

#[test]
fn bump_never_frees() {
    let mut alloc = BumpAllocator::new(vec![PhysicalRange::new(0x1000, 0x3000)]);
    let a = alloc.allocate_frames(1).unwrap();
    assert_eq!(alloc.deallocate_frames(a, 1), Err(Error::FrameNotAllocated(0x1000)));
    assert_eq!(alloc.frame_usage().used, 1);
}
