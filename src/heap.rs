use crate::addr::{page_aligned, PhysicalRange, VirtualRange, PAGE_SIZE};
use crate::aspace::round_up_pages;
use crate::error::Error;
use crate::flush::{FenceRequest, Flush};
use crate::frame_alloc::{first_fit, run_free, BitMapAllocator, FrameAllocator};
use crate::mode::{EntryFlags, FLAG_READ, FLAG_VALID, FLAG_WRITE};
use crate::page_table::{canonical, leaf_flags_ok, mapping_of, page_of, pages_in, ranges_ok, Mapper};
use vstd::arithmetic::div_mod::lemma_fundamental_div_mod;
use vstd::prelude::*;

verus! {

/// End of the heap span after growing to make room for `requested` bytes: the
/// span grows by its own size or by the request, whichever is larger, rounded up
/// to whole pages, and never past `ceiling`.
pub open spec fn grown_end(start: int, end: int, ceiling: int, requested: int) -> int {
    let size = end - start;
    let want = round_up_pages(if size >= requested { size } else { requested });
    if end + want <= ceiling {
        end + want
    } else {
        ceiling
    }
}

/// The kernel heap's committed span `start .. end`, which may grow up to `ceiling`.
#[derive(Debug)]
pub struct HeapState {
    start: usize,
    end: usize,
    ceiling: usize,
}

impl HeapState {
    pub closed spec fn spec_start(&self) -> int {
        self.start as int
    }

    pub closed spec fn spec_end(&self) -> int {
        self.end as int
    }

    pub closed spec fn spec_ceiling(&self) -> int {
        self.ceiling as int
    }

    pub closed spec fn inv(&self) -> bool {
        &&& self.start < self.end <= self.ceiling
        &&& page_aligned(self.start as int)
        &&& page_aligned(self.end as int)
        &&& page_aligned(self.ceiling as int)
    }

    /// A heap of one page at `start` that may grow up to `ceiling`.
    pub fn new(start: usize, ceiling: usize) -> (r: Self)
        requires
            page_aligned(start as int),
            page_aligned(ceiling as int),
            start + PAGE_SIZE <= ceiling,
        ensures
            r.inv(),
            r.spec_start() == start,
            r.spec_end() == start + PAGE_SIZE,
            r.spec_ceiling() == ceiling,
    {
        proof {
            assert((start + 4096) % 4096 == 0) by (nonlinear_arith)
                requires
                    start % 4096 == 0,
            ;
        }
        HeapState { start, end: start + PAGE_SIZE, ceiling }
    }

    /// The committed span.
    pub fn span(&self) -> (r: VirtualRange)
        ensures
            r.start.0 == self.spec_start(),
            r.end.0 == self.spec_end(),
    {
        VirtualRange::new(self.start, self.end)
    }

    pub fn ceiling(&self) -> (r: usize)
        ensures
            r == self.spec_ceiling(),
    {
        self.ceiling
    }

    /// End of the span after growing for `requested` bytes.
    pub fn next_end(&self, requested: usize) -> (r: usize)
        requires
            self.inv(),
        ensures
            r == grown_end(self.spec_start(), self.spec_end(), self.spec_ceiling(), requested as int),
            page_aligned(r as int),
    {
        let size = self.end - self.start;
        let want = if size >= requested {
            size
        } else {
            requested
        };
        let rem = want % PAGE_SIZE;
        let room = self.ceiling - self.end;
        proof {
            lemma_fundamental_div_mod(want as int, PAGE_SIZE as int);
        }
        if want > room || (rem != 0 && PAGE_SIZE - rem > room - want) {
            proof {
                let q = want / PAGE_SIZE;
                if rem == 0 {
                    assert(round_up_pages(want as int) == want) by (nonlinear_arith)
                        requires
                            want == 4096 * q,
                            round_up_pages(want as int) == ((want + 4095) / 4096) * 4096,
                    ;
                } else {
                    assert(round_up_pages(want as int) == want + (4096 - rem)) by (nonlinear_arith)
                        requires
                            want == 4096 * q + rem,
                            0 < rem < 4096,
                            round_up_pages(want as int) == ((want + 4095) / 4096) * 4096,
                    ;
                }
            }
            self.ceiling
        } else {
            let grow = if rem == 0 {
                want
            } else {
                want + (PAGE_SIZE - rem)
            };
            proof {
                let q = want / PAGE_SIZE;
                if rem == 0 {
                    assert(round_up_pages(want as int) == want) by (nonlinear_arith)
                        requires
                            want == 4096 * q,
                            round_up_pages(want as int) == ((want + 4095) / 4096) * 4096,
                    ;
                } else {
                    assert(round_up_pages(want as int) == want + (4096 - rem)) by (nonlinear_arith)
                        requires
                            want == 4096 * q + rem,
                            0 < rem < 4096,
                            round_up_pages(want as int) == ((want + 4095) / 4096) * 4096,
                    ;
                }
                assert(grow % 4096 == 0) by (nonlinear_arith)
                    requires
                        want == 4096 * q + rem,
                        grow == (if rem == 0 { want as int } else { want + (4096 - rem) }),
                        0 <= rem < 4096,
                ;
                assert((self.end + grow) % 4096 == 0) by (nonlinear_arith)
                    requires
                        grow % 4096 == 0,
                        self.end % 4096 == 0,
                ;
            }
            self.end + grow
        }
    }

    /// Grows the heap for a failed request of `requested` bytes: maps fresh
    /// frames, readable and writable, at the pages between the old end and the
    /// new one, and returns the fence to issue. Where the span cannot grow any
    /// more it reports running out of memory and changes nothing.
    pub fn handle_oom(&mut self, mapper: &mut Mapper, alloc: &mut BitMapAllocator, requested: usize) -> (r:
        Result<Option<FenceRequest>, Error>)
        requires
            old(self).inv(),
            old(mapper).inv(),
            old(alloc).inv(),
        ensures
            final(self).inv(),
            final(mapper).inv(),
            final(alloc).inv(),
            final(self).spec_start() == old(self).spec_start(),
            final(self).spec_ceiling() == old(self).spec_ceiling(),
            old(self).spec_end() <= final(self).spec_end() <= final(self).spec_ceiling(),
            ({
                let g = grown_end(old(self).spec_start(), old(self).spec_end(), old(self).spec_ceiling(), requested as int);
                let n = (g - old(self).spec_end()) / (PAGE_SIZE as int);
                &&& g == old(self).spec_end() ==> r == Err::<Option<FenceRequest>, Error>(Error::OutOfMemory)
                    && final(mapper).mappings() == old(mapper).mappings() && final(alloc).frames() == old(
                    alloc,
                ).frames()
                &&& g > old(self).spec_end() && r is Err ==> map_fresh_failure(
                    *old(mapper),
                    *old(alloc),
                    *final(alloc),
                    old(self).spec_end(),
                    n,
                    r->Err_0,
                )
                &&& r is Err ==> final(self).spec_end() == old(self).spec_end()
                &&& r is Ok ==> final(self).spec_end() == g && g > old(self).spec_end()
                &&& r is Ok ==> fresh_mapping(*old(mapper), *final(mapper), *old(alloc), *final(alloc), old(self).spec_end(), n)
                &&& r is Ok ==> r == Ok::<Option<FenceRequest>, Error>(
                    Some(FenceRequest { asid: old(mapper).spec_asid(), start: old(self).spec_end() as usize, size: (g - old(self).spec_end()) as usize }),
                )
            }),
    {
        let new_end = self.next_end(requested);
        if new_end == self.end {
            return Err(Error::OutOfMemory);
        }
        let old_span = VirtualRange::new(self.start, self.end);
        let new_span = VirtualRange::new(self.start, new_end);
        match ensure_mapped(mapper, alloc, Some(old_span), new_span) {
            Ok(fence) => {
                self.end = new_end;
                Ok(fence)
            },
            Err(e) => Err(e),
        }
    }
}

/// Mapper `m1` holds the entries of `m0` and `n` pages from `from` mapped,
/// readable and writable, to the first free run of `n` frames of allocator `a0`;
/// `a1` has at least those frames more in use.
pub open spec fn fresh_mapping(m0: Mapper, m1: Mapper, a0: BitMapAllocator, a1: BitMapAllocator, from: int, n: int) -> bool {
    exists|i: int|
        first_fit(a0.frames(), n, i) && m1.mappings() == m0.mappings().union_prefer_right(
            #[trigger] mapping_of(from, a0.frame_addr(i), n, FLAG_READ | FLAG_WRITE | FLAG_VALID),
        ) && a1.frames_used() >= a0.frames_used() + n
}

/// Why mapping `n` fresh frames at `from` failed with `e`, from mapper `m0` and
/// allocator `a0` to allocator `a1`: no free run of `n` frames, too few free
/// frames for the run and its tables, or a page that cannot be mapped. The run
/// goes back to the allocator, which is left as it was but for tables.
pub open spec fn map_fresh_failure(m0: Mapper, a0: BitMapAllocator, a1: BitMapAllocator, from: int, n: int, e: Error) -> bool {
    ||| e == Error::OutOfMemory && (forall|i: int| !(#[trigger] run_free(a0.frames(), i, n))) && a1.frames()
        == a0.frames()
    ||| e == Error::OutOfMemory && a0.frames_total() < a0.frames_used() + n * m0.spec_levels()
    ||| a1.frames() == a0.frames() && exists|k: int|
        0 <= k < n && ((e == Error::VirtualAddressTooLarge(page_of(from, k) as usize) && !canonical(
            page_of(from, k) as usize,
            m0.spec_levels(),
        )) || (e == Error::VirtualAddressAlreadyMapped(page_of(from, k) as usize) && m0.mappings().contains_key(
            #[trigger] page_of(from, k) as usize,
        )))
}

/// First address of `new_span` that `old_span` does not hold.
pub open spec fn span_from(old_span: Option<VirtualRange>, new_span: VirtualRange) -> int {
    match old_span {
        Some(o) => o.end.0 as int,
        None => new_span.start.0 as int,
    }
}

/// Maps fresh frames, readable and writable, at the pages of `new_span` that
/// `old_span` does not already hold, and returns the fence to issue. On failure
/// the frames taken go back to the allocator.
pub fn ensure_mapped(
    mapper: &mut Mapper,
    alloc: &mut BitMapAllocator,
    old_span: Option<VirtualRange>,
    new_span: VirtualRange,
) -> (r: Result<Option<FenceRequest>, Error>)
    requires
        old(mapper).inv(),
        old(alloc).inv(),
        page_aligned(new_span.start.0 as int),
        page_aligned(new_span.end.0 as int),
        new_span.start.0 <= new_span.end.0,
        old_span is Some ==> {
            let o = old_span->Some_0;
            &&& o.start == new_span.start
            &&& page_aligned(o.end.0 as int)
            &&& o.start.0 <= o.end.0 <= new_span.end.0
        },
    ensures
        final(mapper).inv(),
        final(alloc).inv(),
        final(mapper).spec_asid() == old(mapper).spec_asid(),
        ({
            let from = span_from(old_span, new_span);
            let n = (new_span.end.0 - from) / (PAGE_SIZE as int);
            &&& r is Ok ==> fresh_mapping(*old(mapper), *final(mapper), *old(alloc), *final(alloc), from, n)
            &&& r is Ok ==> r == Ok::<Option<FenceRequest>, Error>(
                Some(FenceRequest { asid: old(mapper).spec_asid(), start: from as usize, size: (new_span.end.0 - from) as usize }),
            )
            &&& r is Err ==> map_fresh_failure(*old(mapper), *old(alloc), *final(alloc), from, n, r->Err_0)
        }),
{
    let from = match old_span {
        Some(o) => o.end.0,
        None => new_span.start.0,
    };
    let to_map = VirtualRange::new(from, new_span.end.0);
    proof {
        assert(from == span_from(old_span, new_span));
    }
    map_fresh_frames(mapper, alloc, to_map)
}

/// Takes the first free run of frames for the pages of `virt` and maps them,
/// readable and writable, there. Returns the fence to issue; on failure the run
/// goes back to the allocator.
pub fn map_fresh_frames(mapper: &mut Mapper, alloc: &mut BitMapAllocator, virt: VirtualRange) -> (r: Result<
    Option<FenceRequest>,
    Error,
>)
    requires
        old(mapper).inv(),
        old(alloc).inv(),
        page_aligned(virt.start.0 as int),
        page_aligned(virt.end.0 as int),
        virt.start.0 <= virt.end.0,
    ensures
        final(mapper).inv(),
        final(alloc).inv(),
        final(mapper).spec_asid() == old(mapper).spec_asid(),
        final(mapper).spec_levels() == old(mapper).spec_levels(),
        ({
            let from = virt.start.0 as int;
            let n = (virt.end.0 - from) / (PAGE_SIZE as int);
            &&& r is Ok ==> fresh_mapping(*old(mapper), *final(mapper), *old(alloc), *final(alloc), from, n)
            &&& r is Ok ==> r == Ok::<Option<FenceRequest>, Error>(
                Some(FenceRequest { asid: old(mapper).spec_asid(), start: from as usize, size: (virt.end.0 - from) as usize }),
            )
            &&& r is Err ==> map_fresh_failure(*old(mapper), *old(alloc), *final(alloc), from, n, r->Err_0)
        }),
{
    let pages = virt.size() / PAGE_SIZE;
    let ghost a0 = *alloc;
    let base = match alloc.allocate_frames(pages) {
        Ok(b) => b,
        Err(e) => {
            return Err(e);
        },
    };
    let ghost a_mid = *alloc;
    let ghost i = a0.frame_index(base.0 as nat);
    proof {
        lemma_fundamental_div_mod(virt.spec_size() as int, PAGE_SIZE as int);
        assert(virt.spec_size() % 4096 == 0) by (nonlinear_arith)
            requires
                virt.start.0 % 4096 == 0,
                virt.end.0 % 4096 == 0,
                virt.start.0 <= virt.end.0,
                virt.spec_size() == virt.end.0 - virt.start.0,
        ;
    }
    let phys = PhysicalRange::new(base.0, base.0 + pages * PAGE_SIZE);
    let mut flush = Flush::empty(mapper.asid());
    let flags = EntryFlags { bits: FLAG_READ | FLAG_WRITE };
    let ghost m0 = *mapper;
    proof {
        assert(pages_in(virt) == pages);
        assert(pages * 4096 == virt.spec_size()) by (nonlinear_arith)
            requires
                pages == virt.spec_size() / 4096,
                virt.spec_size() % 4096 == 0,
        ;
        assert((2usize | 4usize) == 6usize && (6usize & 10usize) != 0usize) by (bit_vector);
        assert(flags.bits == 6);
        assert(ranges_ok(virt, phys));
        assert(leaf_flags_ok(flags.bits));
    }
    match mapper.map_range(alloc, virt, phys, flags, &mut flush) {
        Ok(()) => {},
        Err(e) => {
            let ghost a_fail = *alloc;
            proof {
                assert forall|k: int| 0 <= k < pages implies !(#[trigger] a_fail.frame_free(a_fail.frame_addr(i) + k * PAGE_SIZE)) by {
                    assert(!a_mid.frame_free(base.0 + k * PAGE_SIZE));
                }
                crate::frame_alloc::lemma_total_is_len(a0);
                crate::frame_alloc::lemma_base_is_layout(a0);
                crate::frame_alloc::lemma_base_is_layout(a_mid);
                crate::frame_alloc::lemma_base_is_layout(a_fail);
                crate::frame_alloc::lemma_total_is_len(a_fail);
                crate::frame_alloc::lemma_run_still_used(a_fail, i, pages as int);
            }
            let _ = alloc.deallocate_frames(base, pages);
            proof {
                if e == Error::OutOfMemory {
                    crate::frame_alloc::lemma_none_free_all_used(a_fail);
                    m0.lemma_levels();
                    let lv = m0.spec_levels() as int;
                    let u0 = a0.frames_used() as int;
                    let uf = a_fail.frames_used() as int;
                    assert(uf + 1 <= u0 + pages + pages * (lv - 1));
                    assert(pages + pages * (lv - 1) == pages * lv) by (nonlinear_arith);
                } else {
                    assert(alloc.frames() =~= a0.frames());
                }
            }
            return Err(e);
        },
    }
    proof {
        assert(mapper.mappings() == m0.mappings().union_prefer_right(
            mapping_of(virt.start.0 as int, base.0 as int, pages as int, FLAG_READ | FLAG_WRITE | FLAG_VALID)));
    }
    Ok(flush.flush())
}

/// The heap span never passes its ceiling and never shrinks when it grows;
/// where the ceiling leaves no room the span stays as it is, which makes the
/// allocation fail.
pub proof fn lemma_heap_growth_bounded(start: int, end: int, ceiling: int, requested: int)
    requires
        start < end <= ceiling,
        requested >= 0,
    ensures
        end <= grown_end(start, end, ceiling, requested) <= ceiling,
        grown_end(start, end, ceiling, requested) == end <==> end == ceiling,
{
    let size = end - start;
    let m = if size >= requested { size } else { requested };
    assert(round_up_pages(m) >= m) by (nonlinear_arith)
        requires
            m >= 0,
            round_up_pages(m) == ((m + 4095) / 4096) * 4096,
    ;
}

} // verus!
