use crate::addr::{page_aligned, PhysicalAddress, PhysicalRange, PAGE_SIZE};
use crate::error::Error;
use crate::frame_alloc::{below_frame_limit, in_run, FrameAllocator, FrameUsage};
use vstd::prelude::*;

verus! {

/// Physical memory ranges below 2^56 that are page aligned, not inverted, and
/// sorted in increasing order without overlap.
pub open spec fn boot_ranges_ok(s: Seq<PhysicalRange>) -> bool {
    &&& forall|i: int|
        #![trigger s[i]]
        0 <= i < s.len() ==> page_aligned(s[i].start.0 as int) && page_aligned(s[i].end.0 as int)
            && s[i].start.0 <= s[i].end.0 && below_frame_limit(s[i].end.0 as int)
    &&& forall|i: int, j: int| #![trigger s[i], s[j]] 0 <= i < j < s.len() ==> s[i].end.0 <= s[j].start.0
}

/// Bytes of `r` at or above `w`.
pub open spec fn room(r: PhysicalRange, w: int) -> int {
    r.end.0 - (if r.start.0 >= w { r.start.0 as int } else { w })
}

/// The boot-time strategy: a cursor that only moves forward through the
/// physical memory ranges found at boot. Nothing it hands out comes back.
pub struct BumpAllocator {
    regions: Vec<PhysicalRange>,
    index: usize,
    cursor: usize,
    used: usize,
    total: usize,
}

impl BumpAllocator {
    /// Everything below this address in the ranges has been handed out.
    pub closed spec fn watermark(&self) -> nat {
        self.cursor as nat
    }

    pub closed spec fn ranges(&self) -> Seq<PhysicalRange> {
        self.regions@
    }

    /// Hands out the frames of `regions` from the start of the first one.
    pub fn new(regions: Vec<PhysicalRange>) -> (r: Self)
        requires
            boot_ranges_ok(regions@),
        ensures
            r.inv(),
            r.ranges() == regions@,
            r.frames_used() == 0,
            regions@.len() > 0 ==> r.watermark() == regions@[0].start.0,
    {
        let mut total: usize = 0;
        let mut k: usize = 0;
        while k < regions.len()
            invariant
                boot_ranges_ok(regions@),
                k <= regions@.len(),
                k == 0 ==> total == 0,
                k > 0 ==> total * PAGE_SIZE <= regions@[k - 1].end.0 - regions@[0].start.0,
            decreases regions@.len() - k,
        {
            let r = regions[k];
            let frames = (r.end.0 - r.start.0) / PAGE_SIZE;
            proof {
                if k > 0 {
                    assert(regions@[k - 1].end.0 <= r.start.0);
                    assert(regions@[0].start.0 <= regions@[k - 1].start.0) by {
                        if k - 1 > 0 {
                            assert(regions@[0].end.0 <= regions@[k - 1].start.0);
                        }
                    }
                }
                assert(frames * 4096 <= r.end.0 - r.start.0) by (nonlinear_arith)
                    requires
                        frames == (r.end.0 - r.start.0) / 4096,
                        r.start.0 <= r.end.0,
                ;
                assert((total + frames) * 4096 == total * 4096 + frames * 4096) by (nonlinear_arith);
                assert(total <= total * 4096) by (nonlinear_arith)
                    requires
                        total >= 0,
                ;
                assert(frames <= frames * 4096) by (nonlinear_arith)
                    requires
                        frames >= 0,
                ;
            }
            total = total + frames;
            k += 1;
        }
        let cursor = if regions.len() > 0 {
            regions[0].start.0
        } else {
            0
        };
        BumpAllocator { regions, index: 0, cursor, used: 0, total }
    }

    /// Hands out the `frames` frames at the cursor, or at the start of the first
    /// later range that has room for them. Fails only where no range has room
    /// for them above the cursor.
    pub fn allocate_frames(&mut self, frames: usize) -> (r: Result<PhysicalAddress, Error>)
        requires
            old(self).inv(),
        ensures
            final(self).inv(),
            final(self).ranges() == old(self).ranges(),
            final(self).frames_total() == old(self).frames_total(),
            match r {
                Ok(a) => {
                    &&& a.0 >= old(self).watermark()
                    &&& final(self).watermark() == a.0 + frames * PAGE_SIZE
                    &&& page_aligned(a.0 as int)
                    &&& exists|i: int|
                        0 <= i < old(self).ranges().len() && old(self).ranges()[i].start.0 <= a.0
                            && a.0 + frames * PAGE_SIZE <= old(self).ranges()[i].end.0
                    &&& final(self).frames_used() == old(self).frames_used() + frames
                },
                Err(e) => {
                    &&& e == Error::OutOfMemory
                    &&& *final(self) == *old(self)
                    &&& frames <= usize::MAX / PAGE_SIZE ==> forall|i: int|
                        0 <= i < old(self).ranges().len() ==> room(#[trigger] old(self).ranges()[i], old(self).watermark() as int)
                            < frames * PAGE_SIZE
                },
            },
            r is Ok ==> forall|k: int|
                0 <= k < frames ==> #[trigger] old(self).frame_free(r->Ok_0.0 + k * PAGE_SIZE)
                    && !final(self).frame_free(r->Ok_0.0 + k * PAGE_SIZE),
            r is Ok ==> forall|x: int| #[trigger] final(self).frame_free(x) ==> old(self).frame_free(x)
                && !in_run(x, r->Ok_0.0 as int, frames as int),
            r is Ok ==> below_frame_limit(r->Ok_0.0 + frames * PAGE_SIZE),
    {
        if frames > usize::MAX / PAGE_SIZE {
            return Err(Error::OutOfMemory);
        }
        let bytes = frames * PAGE_SIZE;
        let mut idx: usize = 0;
        while idx < self.regions.len()
            invariant
                self.inv(),
                *self == *old(self),
                bytes == frames * PAGE_SIZE,
                forall|i: int| 0 <= i < idx ==> room(#[trigger] self.regions@[i], self.cursor as int) < bytes,
            decreases self.regions@.len() - idx,
        {
            let region = self.regions[idx];
            let start = if self.cursor >= region.start.0 {
                self.cursor
            } else {
                region.start.0
            };
            if start <= region.end.0 && bytes <= region.end.0 - start {
                let ghost reg = self.regions@[idx as int];
                proof {
                    if idx > self.index {
                        assert(self.regions@[self.index as int].end.0 <= region.start.0);
                    } else if idx < self.index {
                        assert(region.end.0 <= self.regions@[self.index as int].start.0);
                    }
                    assert((start + bytes) % 4096 == 0) by (nonlinear_arith)
                        requires
                            start % 4096 == 0,
                            bytes == frames * 4096,
                    ;
                    assert(page_aligned(reg.start.0 as int));
                    assert(reg.start.0 <= start && start + bytes <= reg.end.0);
                    assert(old(self).ranges()[idx as int] == reg);
                    assert(self.regions@[0].start.0 <= self.regions@[self.index as int].start.0) by {
                        if self.index > 0 {
                            assert(self.regions@[0].end.0 <= self.regions@[self.index as int].start.0);
                        }
                    }
                    assert((self.used + frames) * 4096 == self.used * 4096 + bytes) by (nonlinear_arith)
                        requires
                            bytes == frames * 4096,
                    ;
                    assert(self.used + frames <= (self.used + frames) * 4096) by (nonlinear_arith)
                        requires
                            self.used + frames >= 0,
                    ;
                    assert forall|k: int|
                        0 <= k < frames implies #[trigger] old(self).frame_free(start + k * PAGE_SIZE) by {
                        assert(k * 4096 + 4096 <= bytes) by (nonlinear_arith)
                            requires
                                k < frames,
                                bytes == frames * 4096,
                        ;
                        assert((start + k * 4096) % 4096 == 0) by (nonlinear_arith)
                            requires
                                start % 4096 == 0,
                        ;
                        assert(k * 4096 >= 0) by (nonlinear_arith)
                            requires
                                k >= 0,
                        ;
                        assert(old(self).regions@[idx as int] == reg);
                    }
                }
                self.index = idx;
                self.cursor = start + bytes;
                self.used = self.used + frames;
                proof {
                    assert forall|k: int|
                        0 <= k < frames implies !#[trigger] self.frame_free(start + k * PAGE_SIZE) by {
                        assert(k * 4096 < bytes) by (nonlinear_arith)
                            requires
                                k < frames,
                                bytes == frames * 4096,
                        ;
                    }
                }
                return Ok(PhysicalAddress(start));
            }
            proof {
                assert forall|i: int| 0 <= i < idx + 1 implies room(#[trigger] self.regions@[i], self.cursor as int) < bytes by {
                    if i == idx {
                        assert(self.regions@[i] == region);
                    } else if i < self.index {
                        assert(self.regions@[i].end.0 <= self.regions@[self.index as int].start.0);
                    }
                }
            }
            idx += 1;
        }
        proof {
            assert forall|i: int| 0 <= i < old(self).ranges().len() implies room(#[trigger] old(self).ranges()[i], old(self).watermark() as int)
                < frames * PAGE_SIZE by {
                assert(self.regions@[i] == old(self).ranges()[i]);
            }
        }
        Err(Error::OutOfMemory)
    }
}

impl FrameAllocator for BumpAllocator {
    closed spec fn inv(&self) -> bool {
        &&& boot_ranges_ok(self.regions@)
        &&& page_aligned(self.cursor as int)
        &&& self.index <= self.regions@.len()
        &&& self.regions@.len() > 0 ==> self.index < self.regions@.len()
        &&& self.index < self.regions@.len() ==> self.regions@[self.index as int].start.0 <= self.cursor
            <= self.regions@[self.index as int].end.0
        &&& self.regions@.len() > 0 ==> self.used * PAGE_SIZE <= self.cursor - self.regions@[0].start.0
        &&& self.regions@.len() == 0 ==> self.used == 0
    }

    closed spec fn frames_used(&self) -> nat {
        self.used as nat
    }

    closed spec fn frames_total(&self) -> nat {
        self.total as nat
    }

    closed spec fn layout(&self) -> int {
        0
    }

    closed spec fn frame_free(&self, x: int) -> bool {
        &&& x >= self.cursor
        &&& page_aligned(x)
        &&& exists|j: int|
            0 <= j < self.regions@.len() && (#[trigger] self.regions@[j]).start.0 <= x && x + PAGE_SIZE
                <= self.regions@[j].end.0
    }

    /// Nothing handed out at boot is taken back.
    closed spec fn can_free(&self, a: int, n: int) -> bool {
        false
    }

    fn allocate_frames(&mut self, frames: usize) -> (r: Result<PhysicalAddress, Error>) {
        let r = BumpAllocator::allocate_frames(self, frames);
        proof {
            if r is Err && frames == 1 {
                assert forall|x: int| !(#[trigger] old(self).frame_free(x)) by {
                    if old(self).frame_free(x) {
                        let j = choose|j: int|
                            0 <= j < old(self).regions@.len() && (#[trigger] old(self).regions@[j]).start.0 <= x && x
                                + PAGE_SIZE <= old(self).regions@[j].end.0;
                        assert(room(old(self).ranges()[j], old(self).watermark() as int) < 1 * PAGE_SIZE);
                    }
                }
            }
        }
        r
    }

    /// Frames handed out at boot are never taken back.
    fn deallocate_frames(&mut self, base: PhysicalAddress, frames: usize) -> (r: Result<(), Error>) {
        Err(Error::FrameNotAllocated(base.0))
    }

    fn frame_usage(&self) -> (r: FrameUsage) {
        FrameUsage { used: self.used, total: self.total }
    }
}

} // verus!
