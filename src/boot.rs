use crate::addr::{page_aligned, prange, vrange, PhysicalRange, VirtualAddress, VirtualRange, PAGE_SIZE};
use crate::error::Error;
use crate::flush::{cover, Flush};
use crate::frame_alloc::FrameAllocator;
use crate::mode::{EntryFlags, FLAG_EXECUTE, FLAG_READ, FLAG_VALID, FLAG_WRITE};
use crate::aspace::page_base;
use crate::page_table::{in_pages, map_post, mapping_of, pages_in, ranges_ok, Mapper};
use vstd::prelude::*;

verus! {

/// Where one part of the kernel image is linked and where it was loaded.
#[derive(Debug, Clone, Copy, PartialEq, Eq, Structural)]
pub struct Section {
    pub virt: VirtualRange,
    pub phys: PhysicalRange,
}

/// The parts of the kernel image.
#[derive(Debug, Clone, Copy, PartialEq, Eq, Structural)]
pub struct KernelSections {
    pub text: Section,
    pub rodata: Section,
    pub bss: Section,
    pub data: Section,
}

/// Leaf entries that map section `s` with `flags`.
pub open spec fn section_mapping(s: Section, flags: usize) -> Map<usize, usize> {
    mapping_of(s.virt.start.0 as int, s.phys.start.0 as int, pages_in(s.virt) as int, flags | FLAG_VALID)
}

/// Leaf entries that map the frames of `p` at their own addresses with `flags`.
pub open spec fn identity_mapping(p: PhysicalRange, flags: usize) -> Map<usize, usize> {
    mapping_of(p.start.0 as int, p.start.0 as int, (p.spec_size() / (PAGE_SIZE as nat)) as int, flags | FLAG_VALID)
}

/// The pending range of a flush batch after `r` is added to `p`.
pub open spec fn queue(p: Option<VirtualRange>, r: VirtualRange) -> Option<VirtualRange> {
    Some(
        match p {
            Some(q) => cover(q, r),
            None => r,
        },
    )
}

/// One range to map: where, onto which frames, with which flags.
#[derive(Debug, Clone, Copy, PartialEq, Eq, Structural)]
pub struct MapRequest {
    pub virt: VirtualRange,
    pub phys: PhysicalRange,
    pub flags: EntryFlags,
}

/// Entries `m` with the first `k` requests of `reqs` mapped in order.
pub open spec fn requests_mapping(m: Map<usize, usize>, reqs: Seq<MapRequest>, k: int) -> Map<usize, usize>
    decreases k,
{
    if k <= 0 {
        m
    } else {
        requests_mapping(m, reqs, k - 1).union_prefer_right(
            mapping_of(
                reqs[k - 1].virt.start.0 as int,
                reqs[k - 1].phys.start.0 as int,
                pages_in(reqs[k - 1].virt) as int,
                reqs[k - 1].flags.bits | FLAG_VALID,
            ),
        )
    }
}

/// Pending flush range `p` with the first `k` requests of `reqs` queued.
pub open spec fn requests_queued(p: Option<VirtualRange>, reqs: Seq<MapRequest>, k: int) -> Option<VirtualRange>
    decreases k,
{
    if k <= 0 {
        p
    } else {
        queue(requests_queued(p, reqs, k - 1), reqs[k - 1].virt)
    }
}

/// Mapping `reqs` from mapper `m0` stopped at the first request that failed:
/// the ones before it were all mapped, none after it was tried, and that
/// request's own mapping ended in `m1`, `a1` and `f1` with error `r`.
pub open spec fn requests_failure<A: FrameAllocator>(
    m0: Mapper,
    f0: Flush,
    m1: Mapper,
    a1: A,
    f1: Flush,
    reqs: Seq<MapRequest>,
    r: Result<(), Error>,
) -> bool {
    exists|k: int, m: Mapper, a: A, f: Flush|
        0 <= k < reqs.len() && m.mappings() == requests_mapping(m0.mappings(), reqs, k) && f.pending()
            == requests_queued(f0.pending(), reqs, k) && #[trigger] map_post(
            m,
            m1,
            a,
            a1,
            f,
            f1,
            reqs[k].virt,
            reqs[k].phys,
            reqs[k].flags,
            r,
        )
}

/// Maps the requests in order and queues each range in `flush`, stopping at the
/// first one that fails.
#[verifier::rlimit(80)]
#[verifier::spinoff_prover]
pub fn map_requests<A: FrameAllocator>(
    mapper: &mut Mapper,
    alloc: &mut A,
    flush: &mut Flush,
    reqs: &Vec<MapRequest>,
) -> (r: Result<(), Error>)
    requires
        old(mapper).inv(),
        old(alloc).inv(),
        old(flush).spec_asid() == old(mapper).spec_asid(),
    ensures
        final(mapper).inv(),
        final(alloc).inv(),
        final(alloc).layout() == old(alloc).layout(),
        final(mapper).spec_asid() == old(mapper).spec_asid(),
        final(mapper).spec_levels() == old(mapper).spec_levels(),
        final(flush).spec_asid() == final(mapper).spec_asid(),
        forall|x: int| #[trigger] final(alloc).frame_free(x) ==> old(alloc).frame_free(x),
        r is Ok ==> final(mapper).mappings() == requests_mapping(old(mapper).mappings(), reqs@, reqs@.len() as int),
        r is Ok ==> final(flush).pending() == requests_queued(old(flush).pending(), reqs@, reqs@.len() as int),
        r is Err ==> requests_failure(*old(mapper), *old(flush), *final(mapper), *final(alloc), *final(flush), reqs@, r),
{
    let mut k: usize = 0;
    while k < reqs.len()
        invariant
            k <= reqs@.len(),
            mapper.inv(),
            alloc.inv(),
            alloc.layout() == old(alloc).layout(),
            mapper.spec_asid() == old(mapper).spec_asid(),
            mapper.spec_levels() == old(mapper).spec_levels(),
            flush.spec_asid() == mapper.spec_asid(),
            forall|x: int| #[trigger] alloc.frame_free(x) ==> old(alloc).frame_free(x),
            mapper.mappings() == requests_mapping(old(mapper).mappings(), reqs@, k as int),
            flush.pending() == requests_queued(old(flush).pending(), reqs@, k as int),
        decreases reqs@.len() - k,
    {
        let req = reqs[k];
        let ghost m = *mapper;
        let ghost a = *alloc;
        let ghost f = *flush;
        match mapper.map_range(alloc, req.virt, req.phys, req.flags, flush) {
            Ok(()) => {},
            Err(e) => {
                proof {
                    assert(map_post(m, *mapper, a, *alloc, f, *flush, reqs@[k as int].virt, reqs@[k as int].phys, reqs@[k as int].flags, Err(e)));
                }
                return Err(e);
            },
        }
        k += 1;
    }
    Ok(())
}

/// The loader's own image as requests: code readable and executable, read-only
/// data readable, stack and data readable and writable, each at its own address.
pub open spec fn identity_requests(text: PhysicalRange, rodata: PhysicalRange, rw: PhysicalRange) -> Seq<MapRequest> {
    seq![
        MapRequest { virt: vrange(text.start.0 as int, text.end.0 as int), phys: text, flags: EntryFlags { bits: 0b1010 } },
        MapRequest { virt: vrange(rodata.start.0 as int, rodata.end.0 as int), phys: rodata, flags: EntryFlags { bits: 0b0010 } },
        MapRequest { virt: vrange(rw.start.0 as int, rw.end.0 as int), phys: rw, flags: EntryFlags { bits: 0b0110 } },
    ]
}

/// Identity-maps the loader's own image: its code readable and executable, its
/// read-only data readable, and its stack and data readable and writable, so
/// that it keeps running once the table is switched on. Stops at the first
/// range that fails.
pub fn identity_map_self<A: FrameAllocator>(
    mapper: &mut Mapper,
    alloc: &mut A,
    flush: &mut Flush,
    text: PhysicalRange,
    rodata: PhysicalRange,
    rw: PhysicalRange,
) -> (r: Result<(), Error>)
    requires
        old(mapper).inv(),
        old(alloc).inv(),
        old(flush).spec_asid() == old(mapper).spec_asid(),
    ensures
        final(mapper).inv(),
        final(alloc).inv(),
        final(flush).spec_asid() == final(mapper).spec_asid(),
        r is Ok ==> final(flush).pending() == requests_queued(old(flush).pending(), identity_requests(text, rodata, rw), 3),
        r is Ok ==> final(mapper).mappings() == requests_mapping(old(mapper).mappings(), identity_requests(text, rodata, rw), 3),
        r is Err ==> requests_failure(
            *old(mapper),
            *old(flush),
            *final(mapper),
            *final(alloc),
            *final(flush),
            identity_requests(text, rodata, rw),
            r,
        ),
{
    let reqs = vec![
        MapRequest { virt: VirtualRange::new(text.start.0, text.end.0), phys: text, flags: EntryFlags { bits: 0b1010 } },
        MapRequest { virt: VirtualRange::new(rodata.start.0, rodata.end.0), phys: rodata, flags: EntryFlags { bits: 0b0010 } },
        MapRequest { virt: VirtualRange::new(rw.start.0, rw.end.0), phys: rw, flags: EntryFlags { bits: 0b0110 } },
    ];
    assert(reqs@ =~= identity_requests(text, rodata, rw));
    map_requests(mapper, alloc, flush, &reqs)
}

/// The direct-map request of `region`: readable and writable at `off` above it.
pub open spec fn direct_request(region: PhysicalRange, off: int) -> MapRequest {
    MapRequest {
        virt: vrange(region.start.0 + off, region.end.0 + off),
        phys: region,
        flags: EntryFlags { bits: 0b0110 },
    }
}

/// The pages of region `j` of `mems` at `off` above it all have entries in `m`.
pub open spec fn direct_mapped(m: Map<usize, usize>, mems: Seq<PhysicalRange>, off: int, j: int) -> bool {
    forall|va: usize|
        in_pages(va as int, mems[j].start.0 + off, (mems[j].spec_size() / (PAGE_SIZE as nat)) as int)
            ==> #[trigger] m.contains_key(va)
}

/// Building the direct map stopped at region `j`: the regions before it are
/// mapped in `m1`, and region `j` either lies too high to shift by `off` or its
/// mapping from `m`, `a` and `f` failed with `r`.
pub open spec fn direct_failure<A: FrameAllocator>(
    j: int,
    m: Mapper,
    a: A,
    f: Flush,
    m1: Mapper,
    a1: A,
    f1: Flush,
    mems: Seq<PhysicalRange>,
    off: int,
    r: Result<(), Error>,
) -> bool {
    &&& 0 <= j < mems.len()
    &&& forall|i: int| 0 <= i < j ==> #[trigger] direct_mapped(m1.mappings(), mems, off, i)
    &&& (r == Err::<(), Error>(Error::VirtualAddressTooLarge(mems[j].start.0)) && (mems[j].start.0 + off
        > usize::MAX || mems[j].end.0 + off > usize::MAX)) || map_post(
        m,
        m1,
        a,
        a1,
        f,
        f1,
        direct_request(mems[j], off).virt,
        mems[j],
        direct_request(mems[j], off).flags,
        r,
    )
}

/// Maps every range of usable physical memory, readable and writable, at its
/// address plus `phys_offset`: the direct map. Stops at the first region that
/// fails.
#[verifier::rlimit(80)]
#[verifier::spinoff_prover]
pub fn map_physical_memory<A: FrameAllocator>(
    mapper: &mut Mapper,
    alloc: &mut A,
    flush: &mut Flush,
    memories: &Vec<PhysicalRange>,
    phys_offset: usize,
) -> (r: Result<(), Error>)
    requires
        old(mapper).inv(),
        old(alloc).inv(),
        old(flush).spec_asid() == old(mapper).spec_asid(),
    ensures
        final(mapper).inv(),
        final(alloc).inv(),
        final(flush).spec_asid() == final(mapper).spec_asid(),
        forall|va: usize| #[trigger] old(mapper).mappings().contains_key(va) ==> final(mapper).mappings().contains_key(va),
        r is Ok ==> forall|j: int, va: usize|
            #![trigger memories@[j], final(mapper).mappings().contains_key(va)]
            0 <= j < memories@.len() && in_pages(
                va as int,
                memories@[j].start.0 + phys_offset,
                (memories@[j].spec_size() / (PAGE_SIZE as nat)) as int,
            ) ==> final(mapper).mappings().contains_key(va),
        r is Err ==> exists|j: int, m: Mapper, a: A, f: Flush|
            #[trigger] direct_failure(
                j,
                m,
                a,
                f,
                *final(mapper),
                *final(alloc),
                *final(flush),
                memories@,
                phys_offset as int,
                r,
            ),
{
    let mut k: usize = 0;
    while k < memories.len()
        invariant
            k <= memories@.len(),
            mapper.inv(),
            alloc.inv(),
            flush.spec_asid() == mapper.spec_asid(),
            forall|va: usize| #[trigger] old(mapper).mappings().contains_key(va) ==> mapper.mappings().contains_key(va),
            forall|j: int, va: usize|
                #![trigger memories@[j], mapper.mappings().contains_key(va)]
                0 <= j < k && in_pages(
                    va as int,
                    memories@[j].start.0 + phys_offset,
                    (memories@[j].spec_size() / (PAGE_SIZE as nat)) as int,
                ) ==> mapper.mappings().contains_key(va),
        decreases memories@.len() - k,
    {
        let region = memories[k];
        if region.start.0 > usize::MAX - phys_offset || region.end.0 > usize::MAX - phys_offset {
            proof {
                assert forall|i: int| 0 <= i < k implies #[trigger] direct_mapped(mapper.mappings(), memories@, phys_offset as int, i) by {
                    assert forall|va: usize|
                        in_pages(va as int, memories@[i].start.0 + phys_offset, (memories@[i].spec_size() / (PAGE_SIZE as nat)) as int)
                        implies #[trigger] mapper.mappings().contains_key(va) by {
                        assert(memories@[i] == memories@[i]);
                    }
                }
                assert(direct_failure(k as int, *mapper, *alloc, *flush, *mapper, *alloc, *flush, memories@, phys_offset as int,
                    Err(Error::VirtualAddressTooLarge(region.start.0))));
            }
            return Err(Error::VirtualAddressTooLarge(region.start.0));
        }
        let virt = VirtualRange::new(region.start.0 + phys_offset, region.end.0 + phys_offset);
        let ghost before = mapper.mappings();
        let ghost m_before = *mapper;
        let ghost a_before = *alloc;
        let ghost f_before = *flush;
        match mapper.map_range(alloc, virt, region, EntryFlags { bits: FLAG_READ | FLAG_WRITE }, flush) {
            Ok(()) => {},
            Err(e) => {
                proof {
                    if e == Error::OutOfMemory {
                        let n = pages_in(virt) as int;
                        let i = choose|i: int| 0 <= i < n && mapper.mappings() == before.union_prefer_right(
                            mapping_of(virt.start.0 as int, region.start.0 as int, i, FLAG_READ | FLAG_WRITE | FLAG_VALID));
                    }
                    assert forall|va: usize| #[trigger] old(mapper).mappings().contains_key(va) implies mapper.mappings().contains_key(va) by {
                        assert(before.contains_key(va));
                    }
                    assert forall|i: int| 0 <= i < k implies #[trigger] direct_mapped(mapper.mappings(), memories@, phys_offset as int, i) by {
                        assert forall|va: usize|
                            in_pages(va as int, memories@[i].start.0 + phys_offset, (memories@[i].spec_size() / (PAGE_SIZE as nat)) as int)
                            implies #[trigger] mapper.mappings().contains_key(va) by {
                            assert(before.contains_key(va));
                        }
                    }
                    assert(virt == direct_request(memories@[k as int], phys_offset as int).virt);
                    assert(map_post(m_before, *mapper, a_before, *alloc, f_before, *flush, virt, region,
                        EntryFlags { bits: FLAG_READ | FLAG_WRITE }, Err(e)));
                    assert((2usize | 4usize) == 6usize) by (bit_vector);
                    assert(direct_failure(k as int, m_before, a_before, f_before, *mapper, *alloc, *flush, memories@,
                        phys_offset as int, Err(e)));
                }
                return Err(e);
            },
        }
        proof {
            assert(pages_in(virt) as int == (region.spec_size() / (PAGE_SIZE as nat)) as int);
            assert forall|j: int, va: usize|
                #![trigger memories@[j], mapper.mappings().contains_key(va)]
                0 <= j < k + 1 && in_pages(
                    va as int,
                    memories@[j].start.0 + phys_offset,
                    (memories@[j].spec_size() / (PAGE_SIZE as nat)) as int,
                ) implies mapper.mappings().contains_key(va) by {
                if j < k {
                    assert(before.contains_key(va));
                }
            }
            assert forall|va: usize| #[trigger] old(mapper).mappings().contains_key(va) implies mapper.mappings().contains_key(va) by {
                assert(before.contains_key(va));
            }
        }
        k += 1;
    }
    Ok(())
}

/// The frames that hold the `len` bytes from `addr`: from the page of `addr` to
/// the end rounded up to a page.
pub open spec fn blob_frames(addr: int, len: int) -> PhysicalRange {
    let end = addr + len;
    prange(
        addr - addr % (PAGE_SIZE as int),
        if end % (PAGE_SIZE as int) == 0 {
            end
        } else {
            end + (PAGE_SIZE - end % (PAGE_SIZE as int))
        },
    )
}

/// Maps the device-tree blob of `len` bytes at physical `addr`, readable, at its
/// address plus `phys_offset`, and returns where the blob then starts.
#[verifier::rlimit(80)]
#[verifier::spinoff_prover]
pub fn map_fdt<A: FrameAllocator>(
    mapper: &mut Mapper,
    alloc: &mut A,
    flush: &mut Flush,
    addr: usize,
    len: usize,
    phys_offset: usize,
) -> (r: Result<VirtualAddress, Error>)
    requires
        old(mapper).inv(),
        old(alloc).inv(),
        old(flush).spec_asid() == old(mapper).spec_asid(),
    ensures
        final(mapper).inv(),
        final(alloc).inv(),
        final(flush).spec_asid() == final(mapper).spec_asid(),
        r is Ok ==> r->Ok_0.0 == addr + phys_offset,
        r is Err ==> {
            let p = blob_frames(addr as int, len as int);
            ||| r == Err::<VirtualAddress, Error>(Error::InvalidRange) && addr + len + PAGE_SIZE > usize::MAX
            ||| r == Err::<VirtualAddress, Error>(Error::VirtualAddressTooLarge(addr)) && p.end.0 + phys_offset
                > usize::MAX
            ||| map_post(
                *old(mapper),
                *final(mapper),
                *old(alloc),
                *final(alloc),
                *old(flush),
                *final(flush),
                vrange(p.start.0 + phys_offset, p.end.0 + phys_offset),
                p,
                EntryFlags { bits: FLAG_READ },
                Err::<(), Error>(r->Err_0),
            )
        },
        r is Ok ==> forall|x: usize|
            addr + phys_offset <= x < addr + len + phys_offset ==> #[trigger] final(mapper).mappings().contains_key(
                page_base(x),
            ),
{
    if len > usize::MAX - addr || addr + len > usize::MAX - PAGE_SIZE {
        return Err(Error::InvalidRange);
    }
    let start = addr - addr % PAGE_SIZE;
    let end0 = addr + len;
    let end = if end0 % PAGE_SIZE == 0 {
        end0
    } else {
        end0 + (PAGE_SIZE - end0 % PAGE_SIZE)
    };
    if end > usize::MAX - phys_offset {
        return Err(Error::VirtualAddressTooLarge(addr));
    }
    let phys = PhysicalRange::new(start, end);
    let virt = VirtualRange::new(start + phys_offset, end + phys_offset);
    let ghost before = mapper.mappings();
    proof {
        assert(phys == blob_frames(addr as int, len as int));
    }
    match mapper.map_range(alloc, virt, phys, EntryFlags { bits: FLAG_READ }, flush) {
        Ok(()) => {},
        Err(e) => {
            return Err(e);
        },
    }
    proof {
        assert(ranges_ok(virt, phys));
        let vs = start + phys_offset;
        assert(page_aligned(start as int)) by (nonlinear_arith)
            requires
                start == addr - addr % 4096,
        ;
        assert(phys_offset % 4096 == 0) by (nonlinear_arith)
            requires
                (start + phys_offset) % 4096 == 0,
                start % 4096 == 0,
        ;
        assert(pages_in(virt) * 4096 == end - start) by (nonlinear_arith)
            requires
                pages_in(virt) == (end - start) / 4096,
                end % 4096 == 0,
                start % 4096 == 0,
                start <= end,
        ;
        assert(start <= addr && addr + len <= end) by (nonlinear_arith)
            requires
                start == addr - addr % 4096,
                end0 == addr + len,
                end == (if end0 % 4096 == 0 { end0 as int } else { end0 + (4096 - end0 % 4096) }),
        ;
        assert forall|x: usize|
            addr + phys_offset <= x < addr + len + phys_offset implies #[trigger] mapper.mappings().contains_key(
                page_base(x),
            ) by {
            let p = page_base(x);
            assert((p - vs) % 4096 == 0 && vs <= p && p < vs + (end - start)) by (nonlinear_arith)
                requires
                    p == x - x % 4096,
                    vs == start + phys_offset,
                    start % 4096 == 0,
                    phys_offset % 4096 == 0,
                    start + phys_offset <= addr + phys_offset <= x,
                    x < end + phys_offset,
                    end % 4096 == 0,
            ;
            assert(in_pages(p as int, vs as int, pages_in(virt) as int));
        }
    }
    Ok(VirtualAddress(addr + phys_offset))
}

/// The kernel image as requests: code readable and executable, read-only data
/// readable, bss and data readable and writable.
pub open spec fn kernel_requests(kernel: KernelSections) -> Seq<MapRequest> {
    seq![
        MapRequest { virt: kernel.text.virt, phys: kernel.text.phys, flags: EntryFlags { bits: 0b1010 } },
        MapRequest { virt: kernel.rodata.virt, phys: kernel.rodata.phys, flags: EntryFlags { bits: 0b0010 } },
        MapRequest { virt: kernel.bss.virt, phys: kernel.bss.phys, flags: EntryFlags { bits: 0b0110 } },
        MapRequest { virt: kernel.data.virt, phys: kernel.data.phys, flags: EntryFlags { bits: 0b0110 } },
    ]
}

/// Mapper `m`, allocator `a` and flush batch `f` are where mapping every
/// request of `reqs` from `m0` and `f0` left them.
pub open spec fn after_requests<A: FrameAllocator>(m: Mapper, a: A, f: Flush, m0: Mapper, f0: Flush, reqs: Seq<MapRequest>) -> bool {
    &&& m.mappings() == requests_mapping(m0.mappings(), reqs, reqs.len() as int)
    &&& f.pending() == requests_queued(f0.pending(), reqs, reqs.len() as int)
}

/// Why setting up `cpus * pages` pages of kernel stack below `top` failed with
/// `e`, from mapper `m`, allocator `a` and flush `f` to `m1`, `a1` and `f1`: the
/// size overflows, the stack would start below zero, the allocator has no run
/// for it and is left as it was, or mapping the run failed.
pub open spec fn kernel_stack_failure<A: FrameAllocator>(
    m: Mapper,
    a: A,
    f: Flush,
    m1: Mapper,
    a1: A,
    f1: Flush,
    cpus: int,
    pages: int,
    top: int,
    e: Error,
) -> bool {
    let bytes = cpus * pages * PAGE_SIZE;
    ||| e == Error::OutOfMemory && pages != 0 && cpus > (usize::MAX as int) / (PAGE_SIZE as int) / pages && m1.mappings()
        == m.mappings()
    ||| e == Error::InvalidRange && bytes > top && m1.mappings() == m.mappings()
    ||| e == Error::OutOfMemory && (forall|x: int| #[trigger] a1.frame_free(x) == a.frame_free(x)) && m1.mappings()
        == m.mappings()
    ||| exists|p: int, a2: A|
        #[trigger] map_post(
            m,
            m1,
            a2,
            a1,
            f,
            f1,
            vrange(top - bytes, top),
            prange(p, p + bytes),
            EntryFlags { bits: 0b0110 },
            Err::<(), Error>(e),
        )
}

/// Maps the kernel image, each part with its own permissions, then takes
/// `cpus * stack_pages` free frames for the kernel stacks and maps them,
/// readable and writable, just below `stack_top`. Every range is queued in
/// `flush`. Returns the stack range; stops at the first step that fails.
#[verifier::rlimit(80)]
#[verifier::spinoff_prover]
pub fn map_kernel<A: FrameAllocator>(
    mapper: &mut Mapper,
    alloc: &mut A,
    flush: &mut Flush,
    kernel: &KernelSections,
    cpus: usize,
    stack_pages: usize,
    stack_top: usize,
) -> (r: Result<VirtualRange, Error>)
    requires
        old(mapper).inv(),
        old(alloc).inv(),
        old(flush).spec_asid() == old(mapper).spec_asid(),
    ensures
        final(mapper).inv(),
        final(alloc).inv(),
        final(flush).spec_asid() == final(mapper).spec_asid(),
        r is Ok ==> {
            let stack = r->Ok_0;
            &&& stack.end.0 == stack_top
            &&& stack.spec_size() == cpus * stack_pages * PAGE_SIZE
            &&& final(flush).pending() == queue(
                requests_queued(old(flush).pending(), kernel_requests(*kernel), 4),
                stack,
            )
            &&& exists|p: int|
                final(mapper).mappings() == requests_mapping(old(mapper).mappings(), kernel_requests(*kernel), 4).union_prefer_right(
                    #[trigger] mapping_of(stack.start.0 as int, p, cpus * stack_pages, FLAG_READ | FLAG_WRITE | FLAG_VALID),
                ) && forall|k: int| 0 <= k < cpus * stack_pages ==> #[trigger] old(alloc).frame_free(p + k * PAGE_SIZE)
        },
        r is Err ==> requests_failure(
            *old(mapper),
            *old(flush),
            *final(mapper),
            *final(alloc),
            *final(flush),
            kernel_requests(*kernel),
            Err::<(), Error>(r->Err_0),
        ) || exists|m: Mapper, a: A, f: Flush|
            #[trigger] after_requests(m, a, f, *old(mapper), *old(flush), kernel_requests(*kernel)) && kernel_stack_failure(
                m,
                a,
                f,
                *final(mapper),
                *final(alloc),
                *final(flush),
                cpus as int,
                stack_pages as int,
                stack_top as int,
                r->Err_0,
            ),
{
    let reqs = vec![
        MapRequest { virt: kernel.text.virt, phys: kernel.text.phys, flags: EntryFlags { bits: 0b1010 } },
        MapRequest { virt: kernel.rodata.virt, phys: kernel.rodata.phys, flags: EntryFlags { bits: 0b0010 } },
        MapRequest { virt: kernel.bss.virt, phys: kernel.bss.phys, flags: EntryFlags { bits: 0b0110 } },
        MapRequest { virt: kernel.data.virt, phys: kernel.data.phys, flags: EntryFlags { bits: 0b0110 } },
    ];
    assert(reqs@ =~= kernel_requests(*kernel));
    let ghost a0 = *alloc;
    match map_requests(mapper, alloc, flush, &reqs) {
        Ok(()) => {},
        Err(e) => {
            return Err(e);
        },
    }
    let ghost m4 = *mapper;
    let ghost a4 = *alloc;
    let ghost f4 = *flush;
    assert(after_requests(m4, a4, f4, *old(mapper), *old(flush), kernel_requests(*kernel)));
    if stack_pages != 0 && cpus > usize::MAX / PAGE_SIZE / stack_pages {
        assert(kernel_stack_failure(m4, a4, f4, *mapper, *alloc, *flush, cpus as int, stack_pages as int, stack_top as int, Error::OutOfMemory));
        return Err(Error::OutOfMemory);
    }
    proof {
        if stack_pages != 0 {
            assert(cpus * stack_pages * 4096 <= usize::MAX) by (nonlinear_arith)
                requires
                    cpus <= usize::MAX / 4096 / stack_pages,
                    stack_pages > 0,
            ;
        }
    }
    let frames = cpus * stack_pages;
    let bytes = frames * PAGE_SIZE;
    if bytes > stack_top {
        assert(kernel_stack_failure(m4, a4, f4, *mapper, *alloc, *flush, cpus as int, stack_pages as int, stack_top as int, Error::InvalidRange));
        return Err(Error::InvalidRange);
    }
    let base = match alloc.allocate_frames(frames) {
        Ok(b) => b,
        Err(e) => {
            assert(kernel_stack_failure(m4, a4, f4, *mapper, *alloc, *flush, cpus as int, stack_pages as int, stack_top as int, e));
            return Err(e);
        },
    };
    let ghost a5 = *alloc;
    let stack = VirtualRange::new(stack_top - bytes, stack_top);
    let phys = PhysicalRange::new(base.0, base.0 + bytes);
    match mapper.map_range(alloc, stack, phys, EntryFlags { bits: 0b0110 }, flush) {
        Ok(()) => {},
        Err(e) => {
            proof {
                assert(stack == vrange(stack_top - bytes, stack_top as int));
                assert(phys == prange(base.0 as int, base.0 + bytes));
                assert(map_post(m4, *mapper, a5, *alloc, f4, *flush, stack, phys, EntryFlags { bits: 0b0110 }, Err::<(), Error>(e)));
                assert(kernel_stack_failure(m4, a4, f4, *mapper, *alloc, *flush, cpus as int, stack_pages as int, stack_top as int, e));
            }
            return Err(e);
        },
    }
    proof {
        assert(pages_in(stack) == frames) by (nonlinear_arith)
            requires
                stack.spec_size() == bytes,
                bytes == frames * 4096,
                pages_in(stack) == stack.spec_size() / 4096,
        ;
        assert((2usize | 4usize) == 6usize) by (bit_vector);
        assert(mapper.mappings() == m4.mappings().union_prefer_right(
            mapping_of(stack.start.0 as int, base.0 as int, cpus * stack_pages, FLAG_READ | FLAG_WRITE | FLAG_VALID)));
        assert forall|k: int| 0 <= k < cpus * stack_pages implies #[trigger] old(alloc).frame_free(base.0 + k * PAGE_SIZE) by {
            assert(a4.frame_free(base.0 + k * PAGE_SIZE));
            assert(a4.frame_free(base.0 + k * PAGE_SIZE) ==> a0.frame_free(base.0 + k * PAGE_SIZE));
        }
    }
    Ok(stack)
}

} // verus!
