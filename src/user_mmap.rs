use crate::addr::{vrange, VirtualAddress, VirtualRange, PAGE_SIZE};
use crate::aspace::{
    covered, fault_post, page_align, region_contains, gap_fits, page_base, protect_post, region_allows, round_up_pages, AddressSpace, AddressSpaceKind,
    AddressSpaceRegion, BackingKind, PageFaultFlags, Permissions,
};
use crate::error::Error;
use crate::flush::{FenceRequest, Flush};
use crate::frame_alloc::BitMapAllocator;
use crate::frame_alloc::FrameAllocator;
use crate::page_table::canonical;
use crate::mode::{spec_encode_entry, FLAG_VALID};
use vstd::prelude::*;

verus! {

/// A user range that kernel code may access once its pages are committed and the
/// fence, if any, has been issued.
#[derive(Debug, Clone, Copy, PartialEq, Eq, Structural)]
pub struct UserAccess {
    pub range: VirtualRange,
    pub fence: Option<FenceRequest>,
}

/// A handle to one region of a user address space. The address space owns the
/// region; once the region is unmapped the handle's operations fail.
#[derive(Debug)]
pub struct UserMmap {
    range: VirtualRange,
}

/// Read and write access for user code.
pub open spec fn user_rw() -> Permissions {
    Permissions { read: true, write: true, execute: false, user: true }
}

/// Read and execute access for user code.
pub open spec fn user_rx() -> Permissions {
    Permissions { read: true, write: false, execute: true, user: true }
}

/// Read access for user code.
pub open spec fn user_r() -> Permissions {
    Permissions { read: true, write: false, execute: false, user: true }
}

/// The access that a commit for writing, or for reading, faults in.
pub open spec fn access_for(will_write: bool) -> PageFaultFlags {
    if will_write {
        PageFaultFlags::Store
    } else {
        PageFaultFlags::Load
    }
}

/// Why committing page `p` for `access` failed with `e`, where the allocator
/// then had `used` of `total` frames in use.
pub open spec fn commit_failure(
    regions: Seq<AddressSpaceRegion>,
    levels: nat,
    p: usize,
    access: PageFaultFlags,
    e: Error,
    used: nat,
    total: nat,
) -> bool {
    ||| e == Error::RegionNotFound(p) && !covered(regions, p as int)
    ||| e == Error::AccessDenied(p) && covered(regions, p as int) && !region_allows(regions, p as int, access)
    ||| e == Error::OutOfMemory && total < used + levels
    ||| e == Error::VirtualAddressTooLarge(p) && (!canonical(p, levels) || p > usize::MAX - PAGE_SIZE)
}

/// Entry `e` of page `p` maps a frame with the permissions of the region that
/// holds `p`.
pub open spec fn entry_of_region(regions: Seq<AddressSpaceRegion>, p: usize, e: usize) -> bool {
    exists|i: int|
        0 <= i < regions.len() && region_contains(#[trigger] regions[i], p as int) && exists|f: usize|
            e == #[trigger] spec_encode_entry(f, regions[i].permissions.spec_bits() | FLAG_VALID)
}

/// Every byte of `a .. b` lies on a committed page of `m`.
pub open spec fn committed(m: Map<usize, usize>, a: int, b: int) -> bool {
    forall|x: usize| a <= x < b ==> #[trigger] m.contains_key(page_base(x))
}

impl UserMmap {
    pub closed spec fn spec_range(&self) -> VirtualRange {
        self.range
    }

    /// A mapping of no bytes: its accessors see nothing and its permission
    /// changes do nothing.
    pub fn new_empty() -> (r: Self)
        ensures
            r.wf(),
            r.spec_range() == vrange(0, 0),
    {
        UserMmap { range: VirtualRange::new(0, 0) }
    }

    /// A read-write mapping of `len` bytes, aligned to `align`, in user address
    /// space `aspace`; its pages are committed zero-filled on first touch.
    pub fn new_zeroed(aspace: &mut AddressSpace, len: usize, align: usize) -> (r: Result<Self, Error>)
        requires
            old(aspace).inv(),
            old(aspace).spec_kind() == AddressSpaceKind::User,
            align >= PAGE_SIZE,
            align % PAGE_SIZE == 0,
        ensures
            final(aspace).inv(),
            final(aspace).mappings() == old(aspace).mappings(),
            final(aspace).spec_asid() == old(aspace).spec_asid(),
            final(aspace).spec_kind() == old(aspace).spec_kind(),
            final(aspace).bounds() == old(aspace).bounds(),
            len == 0 ==> r == Err::<UserMmap, Error>(Error::InvalidRange),
            len > 0 ==> r is Ok || r == Err::<UserMmap, Error>(Error::OutOfMemory),
            r == Err::<UserMmap, Error>(Error::OutOfMemory) ==> forall|c: int|
                0 <= c <= usize::MAX && c % (page_align(align) as int) == 0 ==> !gap_fits(
                    old(aspace).regions(),
                    old(aspace).bounds(),
                    c,
                    round_up_pages(len as int),
                ),
            r is Err ==> final(aspace).regions() == old(aspace).regions(),
            r is Ok ==> r->Ok_0.wf(),
            r is Ok ==> {
                let range = r->Ok_0.spec_range();
                &&& range.start.0 % align == 0
                &&& range.spec_size() == round_up_pages(len as int)
                &&& exists|i: int|
                    0 <= i <= old(aspace).regions().len() && final(aspace).regions() == old(
                        aspace,
                    ).regions().insert(
                        i,
                        AddressSpaceRegion {
                            range,
                            permissions: user_rw(),
                            backing: BackingKind::ZeroFill,
                        },
                    )
            },
    {
        let perms = Permissions { read: true, write: true, execute: false, user: true };
        match aspace.map(len, align, perms) {
            Ok(range) => Ok(UserMmap { range }),
            Err(e) => Err(e),
        }
    }

    pub fn range(&self) -> (r: VirtualRange)
        ensures
            r == self.spec_range(),
    {
        self.range
    }

    /// Address of the first byte of the mapping.
    pub fn as_ptr(&self) -> (r: usize)
        ensures
            r == self.spec_range().start.0,
    {
        self.range.start.0
    }

    /// Address of the first byte of the mapping, for writing.
    pub fn as_mut_ptr(&mut self) -> (r: usize)
        ensures
            r == old(self).spec_range().start.0,
            final(self).spec_range() == old(self).spec_range(),
    {
        self.range.start.0
    }

    /// The range is not inverted.
    pub closed spec fn wf(&self) -> bool {
        self.range.start.0 <= self.range.end.0
    }

    /// Size of the mapping in bytes.
    pub fn len(&self) -> (r: usize)
        requires
            self.wf(),
        ensures
            r == self.spec_range().end.0 - self.spec_range().start.0,
            r == self.spec_range().spec_size(),
    {
        self.range.size()
    }

    /// Whether the mapping has no bytes.
    pub fn is_empty(&self) -> (r: bool)
        requires
            self.wf(),
        ensures
            r == (self.spec_range().start.0 == self.spec_range().end.0),
            r == (self.spec_range().spec_size() == 0),
    {
        self.len() == 0
    }

    fn protect(&mut self, aspace: &mut AddressSpace, permissions: Permissions) -> (r: Result<
        Option<FenceRequest>,
        Error,
    >)
        requires
            old(aspace).inv(),
        ensures
            final(aspace).inv(),
            final(self).spec_range() == old(self).spec_range(),
            permissions.write_and_execute() ==> r == Err::<Option<FenceRequest>, Error>(Error::WriteAndExecute)
                && final(aspace).regions() == old(aspace).regions() && final(aspace).mappings() == old(
                aspace,
            ).mappings(),
            old(self).spec_range().spec_size() == 0 && !permissions.write_and_execute() ==> r == Ok::<
                Option<FenceRequest>,
                Error,
            >(None) && final(aspace).regions() == old(aspace).regions() && final(aspace).mappings() == old(
                aspace,
            ).mappings(),
            old(self).spec_range().spec_size() != 0 ==> protect_post(
                *old(aspace),
                *final(aspace),
                old(self).spec_range(),
                permissions,
                r,
            ),
    {
        if permissions.write && permissions.execute {
            return Err(Error::WriteAndExecute);
        }
        if self.range.is_empty() {
            return Ok(None);
        }
        aspace.protect(self.range, permissions)
    }

    /// Makes the mapping readable and executable, which takes away writing.
    pub fn make_executable(&mut self, aspace: &mut AddressSpace, _branch_protection: bool) -> (r:
        Result<Option<FenceRequest>, Error>)
        requires
            old(aspace).inv(),
        ensures
            final(aspace).inv(),
            final(self).spec_range() == old(self).spec_range(),
            old(self).spec_range().spec_size() == 0 ==> r == Ok::<Option<FenceRequest>, Error>(None)
                && final(aspace).regions() == old(aspace).regions() && final(aspace).mappings() == old(
                aspace,
            ).mappings(),
            old(self).spec_range().spec_size() != 0 ==> protect_post(
                *old(aspace),
                *final(aspace),
                old(self).spec_range(),
                user_rx(),
                r,
            ),
    {
        self.protect(aspace, Permissions { read: true, write: false, execute: true, user: true })
    }

    /// Makes the mapping read-only.
    pub fn make_readonly(&mut self, aspace: &mut AddressSpace) -> (r: Result<Option<FenceRequest>, Error>)
        requires
            old(aspace).inv(),
        ensures
            final(aspace).inv(),
            final(self).spec_range() == old(self).spec_range(),
            old(self).spec_range().spec_size() == 0 ==> r == Ok::<Option<FenceRequest>, Error>(None)
                && final(aspace).regions() == old(aspace).regions() && final(aspace).mappings() == old(
                aspace,
            ).mappings(),
            old(self).spec_range().spec_size() != 0 ==> protect_post(
                *old(aspace),
                *final(aspace),
                old(self).spec_range(),
                user_r(),
                r,
            ),
    {
        self.protect(aspace, Permissions { read: true, write: false, execute: false, user: true })
    }

    /// The pages under bytes `start .. end` of the mapping that have no entry yet,
    /// in increasing order: those that a commit of that range would take fresh
    /// frames for.
    pub fn uncommitted_pages(&self, aspace: &AddressSpace, start: usize, end: usize) -> (r: Vec<usize>)
        requires
            aspace.inv(),
            start <= end <= self.spec_range().spec_size(),
        ensures
            forall|i: int|
                0 <= i < r@.len() ==> !aspace.mappings().contains_key(#[trigger] r@[i]) && exists|x: usize|
                    self.spec_range().start.0 + start <= x < self.spec_range().start.0 + end && #[trigger] page_base(x)
                        == r@[i],
            forall|x: usize|
                self.spec_range().start.0 + start <= x < self.spec_range().start.0 + end
                    && !aspace.mappings().contains_key(#[trigger] page_base(x)) ==> r@.contains(page_base(x)),
    {
        let mut pages: Vec<usize> = Vec::new();
        if start == end || self.range.start.0 > self.range.end.0 {
            return pages;
        }
        let a = self.range.start.0 + start;
        let b = self.range.start.0 + end;
        let mut va = a - a % PAGE_SIZE;
        while va < b
            invariant
                aspace.inv(),
                a == self.spec_range().start.0 + start,
                b == self.spec_range().start.0 + end,
                a < b,
                va % PAGE_SIZE == 0,
                a - a % PAGE_SIZE <= va,
                forall|i: int|
                    0 <= i < pages@.len() ==> !aspace.mappings().contains_key(#[trigger] pages@[i]) && exists|x: usize|
                        a <= x < b && #[trigger] page_base(x) == pages@[i],
                forall|x: usize|
                    a <= x < b && x < va && !aspace.mappings().contains_key(#[trigger] page_base(x)) ==> pages@.contains(
                        page_base(x),
                    ),
            decreases b + PAGE_SIZE - va,
        {
            let ghost w = if va < a { a } else { va };
            proof {
                assert(page_base(w) == va && a <= w < b) by (nonlinear_arith)
                    requires
                        w == (if va < a { a } else { va }),
                        va % 4096 == 0,
                        a - a % 4096 <= va,
                        va < b,
                        a < b,
                        page_base(w) == w - w % 4096,
                ;
            }
            let ghost before = pages@;
            if aspace.translate(va).is_none() {
                proof {
                    assert(page_base(va) == va) by (nonlinear_arith)
                        requires
                            va % 4096 == 0,
                            page_base(va) == va - va % 4096,
                    ;
                }
                pages.push(va);
                proof {
                    assert(pages@[pages@.len() - 1] == va);
                    assert forall|i: int| 0 <= i < pages@.len() implies !aspace.mappings().contains_key(#[trigger] pages@[i])
                        && exists|x: usize| a <= x < b && #[trigger] page_base(x) == pages@[i] by {
                        if i < before.len() {
                            assert(pages@[i] == before[i]);
                        } else {
                            assert(page_base(w) == pages@[i]);
                        }
                    }
                }
            }
            proof {
                assert forall|x: usize|
                    a <= x < b && x < va + PAGE_SIZE && !aspace.mappings().contains_key(#[trigger] page_base(x)) implies pages@.contains(
                        page_base(x),
                    ) by {
                    if x >= va {
                        assert(page_base(x) == va) by (nonlinear_arith)
                            requires
                                va % 4096 == 0,
                                va <= x < va + 4096,
                                page_base(x) == x - x % 4096,
                        ;
                        assert(pages@[pages@.len() - 1] == va);
                    } else {
                        assert(before.contains(page_base(x)));
                        let j = choose|j: int| 0 <= j < before.len() && before[j] == page_base(x);
                        assert(pages@[j] == before[j]);
                    }
                }
            }
            if va > usize::MAX - PAGE_SIZE {
                return pages;
            }
            va = va + PAGE_SIZE;
        }
        proof {
            assert forall|i: int|
                0 <= i < pages@.len() implies !aspace.mappings().contains_key(#[trigger] pages@[i]) && exists|x: usize|
                    self.spec_range().start.0 + start <= x < self.spec_range().start.0 + end && #[trigger] page_base(x)
                        == pages@[i] by {
                let x = choose|x: usize| a <= x < b && #[trigger] page_base(x) == pages@[i];
            }
        }
        pages
    }

    /// Commits every page under bytes `start .. end` of the mapping, faulting them
    /// in as a load, or as a store where `will_write`, and returns one fence for
    /// all the pages it mapped.
    #[verifier::rlimit(80)]
    #[verifier::spinoff_prover]
    pub fn commit(
        &self,
        aspace: &mut AddressSpace,
        alloc: &mut BitMapAllocator,
        start: usize,
        end: usize,
        will_write: bool,
    ) -> (r: Result<Option<FenceRequest>, Error>)
        requires
            old(aspace).inv(),
            old(alloc).inv(),
            start <= end <= self.spec_range().spec_size(),
        ensures
            final(aspace).inv(),
            final(alloc).inv(),
            final(alloc).layout() == old(alloc).layout(),
            final(aspace).regions() == old(aspace).regions(),
            final(aspace).spec_asid() == old(aspace).spec_asid(),
            final(alloc).frames_total() == old(alloc).frames_total(),
            final(aspace).levels() == old(aspace).levels(),
            forall|va: usize| #[trigger] old(aspace).mappings().contains_key(va) ==> final(aspace).mappings().contains_key(va),
            r is Ok ==> committed(
                final(aspace).mappings(),
                self.spec_range().start.0 + start,
                self.spec_range().start.0 + end,
            ),
            r is Err ==> exists|x: usize|
                #![trigger page_base(x)]
                self.spec_range().start.0 + start <= x < self.spec_range().start.0 + end && commit_failure(
                    old(aspace).regions(),
                    old(aspace).levels(),
                    page_base(x),
                    access_for(will_write),
                    r->Err_0,
                    final(alloc).frames_used(),
                    final(alloc).frames_total(),
                ),
            r is Ok ==> forall|p: usize|
                #[trigger] final(aspace).mappings().contains_key(p) && !old(aspace).mappings().contains_key(p)
                    ==> entry_of_region(old(aspace).regions(), p, final(aspace).mappings()[p]),
            r == Ok::<Option<FenceRequest>, Error>(None) ==> forall|p: usize|
                #[trigger] final(aspace).mappings().contains_key(p) ==> old(aspace).mappings().contains_key(p),
            r is Ok && r->Ok_0 is Some ==> {
                let f = r->Ok_0->Some_0;
                &&& f.asid == old(aspace).spec_asid()
                &&& forall|p: usize|
                    #[trigger] final(aspace).mappings().contains_key(p) && !old(aspace).mappings().contains_key(p)
                        ==> f.start <= p && p + PAGE_SIZE <= f.start + f.size
            },
    {
        if self.range.is_empty() || start == end {
            return Ok(None);
        }
        let a = self.range.start.0 + start;
        let b = self.range.start.0 + end;
        let access = if will_write {
            PageFaultFlags::Store
        } else {
            PageFaultFlags::Load
        };
        let mut flush = Flush::empty(aspace.asid());
        let mut va = a - a % PAGE_SIZE;
        while va < b
            invariant
                aspace.inv(),
                alloc.inv(),
                alloc.layout() == old(alloc).layout(),
                aspace.regions() == old(aspace).regions(),
                aspace.spec_asid() == old(aspace).spec_asid(),
                flush.spec_asid() == aspace.spec_asid(),
                forall|x: usize| #[trigger] old(aspace).mappings().contains_key(x) ==> aspace.mappings().contains_key(x),
                alloc.frames_total() == old(alloc).frames_total(),
                aspace.levels() == old(aspace).levels(),
                access == access_for(will_write),
                a == self.spec_range().start.0 + start,
                b == self.spec_range().start.0 + end,
                va % PAGE_SIZE == 0,
                a - a % PAGE_SIZE <= va,
                b <= usize::MAX,
                a < b,
                forall|x: usize| a <= x < b && x < va ==> #[trigger] aspace.mappings().contains_key(page_base(x)),
                forall|p: usize|
                    #[trigger] aspace.mappings().contains_key(p) && !old(aspace).mappings().contains_key(p) ==> p
                        + PAGE_SIZE <= va && entry_of_region(old(aspace).regions(), p, aspace.mappings()[p]),
                flush.pending() is None ==> forall|p: usize|
                    #[trigger] aspace.mappings().contains_key(p) ==> old(aspace).mappings().contains_key(p),
                flush.pending() is Some ==> flush.pending()->Some_0.start.0 < flush.pending()->Some_0.end.0
                    && forall|p: usize|
                    #[trigger] aspace.mappings().contains_key(p) && !old(aspace).mappings().contains_key(p)
                        ==> flush.pending()->Some_0.start.0 <= p && p + PAGE_SIZE <= flush.pending()->Some_0.end.0,
            decreases b + PAGE_SIZE - va,
        {
            let ghost x = if va < a { a } else { va };
            proof {
                assert(page_base(x) == va && a <= x < b) by (nonlinear_arith)
                    requires
                        x == (if va < a { a } else { va }),
                        va % 4096 == 0,
                        a - a % 4096 <= va,
                        va < b,
                        a < b,
                        page_base(x) == x - x % 4096,
                ;
            }
            if va > usize::MAX - PAGE_SIZE {
                return Err(Error::VirtualAddressTooLarge(va));
            }
            let ghost before = *aspace;
            let ghost pend = flush.pending();
            let ghost u = alloc.frames_used();
            let res = aspace.page_fault(alloc, VirtualAddress(va), access);
            proof {
                assert(page_base(va) == va);
                assert(fault_post(before, *aspace, u, alloc.frames_used(), alloc.frames_total(), VirtualAddress(va), access, res));
            }
            match res {
                Ok(Some(fence)) => {
                    let _ = flush.extend_range(fence.asid, VirtualRange::new(va, va + PAGE_SIZE));
                },
                Ok(None) => {},
                Err(e) => {
                    assert(commit_failure(
                        old(aspace).regions(),
                        old(aspace).levels(),
                        page_base(x),
                        access,
                        e,
                        alloc.frames_used(),
                        alloc.frames_total(),
                    ));
                    return Err(e);
                },
            }
            proof {
                assert(aspace.mappings().contains_key(va)) by {
                    if !before.mappings().contains_key(va) {
                        let (f, fl) = choose|f: usize, fl: usize| aspace.mappings() == before.mappings().insert(va, crate::mode::spec_encode_entry(f, fl));
                    }
                }
                assert forall|x: usize| #[trigger] before.mappings().contains_key(x) implies aspace.mappings().contains_key(x) by {
                    if !before.mappings().contains_key(va) {
                        let (f, fl) = choose|f: usize, fl: usize| aspace.mappings() == before.mappings().insert(va, crate::mode::spec_encode_entry(f, fl));
                    }
                }
                assert forall|x: usize| a <= x < b && x < va + PAGE_SIZE implies #[trigger] aspace.mappings().contains_key(page_base(x)) by {
                    if x >= va {
                        assert(page_base(x) == va) by (nonlinear_arith)
                            requires
                                va % 4096 == 0,
                                va <= x < va + 4096,
                                page_base(x) == x - x % 4096,
                        ;
                    } else {
                        assert(before.mappings().contains_key(page_base(x)));
                    }
                }
                if !before.mappings().contains_key(va) {
                    let i = choose|i: int|
                        0 <= i < before.regions().len() && region_contains(#[trigger] before.regions()[i], va as int)
                            && before.regions()[i].permissions.spec_allows(access);
                    let f = choose|f: usize|
                        aspace.mappings() == before.mappings().insert(
                            va,
                            #[trigger] spec_encode_entry(f, before.regions()[i].permissions.spec_bits() | FLAG_VALID),
                        );
                    assert(entry_of_region(old(aspace).regions(), va, aspace.mappings()[va]));
                    assert forall|p: usize|
                        #[trigger] aspace.mappings().contains_key(p) && !old(aspace).mappings().contains_key(p) implies p
                            + PAGE_SIZE <= va + PAGE_SIZE && entry_of_region(old(aspace).regions(), p, aspace.mappings()[p]) by {
                        if p != va {
                            assert(before.mappings().contains_key(p));
                        }
                    }
                } else {
                    assert(aspace.mappings() == before.mappings());
                }
            }
            va = va + PAGE_SIZE;
        }
        Ok(flush.flush())
    }

    /// Commits the pages under bytes `start .. end` of the mapping for reading and
    /// returns the user range to copy `end - start` bytes from, with the fence to
    /// issue first. The copy itself runs where hardware faults can be caught.
    pub fn copy_from_userspace(
        &self,
        aspace: &mut AddressSpace,
        alloc: &mut BitMapAllocator,
        start: usize,
        end: usize,
        dst_len: usize,
    ) -> (r: Result<UserAccess, Error>)
        requires
            old(aspace).inv(),
            old(alloc).inv(),
            start <= end <= self.spec_range().spec_size(),
            dst_len == end - start,
        ensures
            final(aspace).inv(),
            final(alloc).inv(),
            final(aspace).regions() == old(aspace).regions(),
            r is Ok ==> r->Ok_0.range == vrange(
                self.spec_range().start.0 + start,
                self.spec_range().start.0 + end,
            ),
            r is Ok ==> committed(
                final(aspace).mappings(),
                self.spec_range().start.0 + start,
                self.spec_range().start.0 + end,
            ),
            r is Err ==> exists|x: usize|
                #![trigger page_base(x)]
                self.spec_range().start.0 + start <= x < self.spec_range().start.0 + end && commit_failure(
                    old(aspace).regions(),
                    old(aspace).levels(),
                    page_base(x),
                    access_for(false),
                    r->Err_0,
                    final(alloc).frames_used(),
                    final(alloc).frames_total(),
                ),
    {
        let fence = match self.commit(aspace, alloc, start, end, false) {
            Ok(f) => f,
            Err(e) => {
                return Err(e);
            },
        };
        let s = self.range.start.0;
        Ok(UserAccess { range: VirtualRange::new(s + start, s + end), fence })
    }

    /// Commits the pages under bytes `start .. end` of the mapping for writing and
    /// returns the user range to copy `src_len` bytes to, with the fence to issue
    /// first.
    pub fn copy_to_userspace(
        &mut self,
        aspace: &mut AddressSpace,
        alloc: &mut BitMapAllocator,
        src_len: usize,
        start: usize,
        end: usize,
    ) -> (r: Result<UserAccess, Error>)
        requires
            old(aspace).inv(),
            old(alloc).inv(),
            start <= end <= old(self).spec_range().spec_size(),
            src_len == end - start,
        ensures
            final(aspace).inv(),
            final(alloc).inv(),
            final(self).spec_range() == old(self).spec_range(),
            final(aspace).regions() == old(aspace).regions(),
            r is Ok ==> r->Ok_0.range == vrange(
                old(self).spec_range().start.0 + start,
                old(self).spec_range().start.0 + end,
            ),
            r is Ok ==> committed(
                final(aspace).mappings(),
                old(self).spec_range().start.0 + start,
                old(self).spec_range().start.0 + end,
            ),
            r is Err ==> exists|x: usize|
                #![trigger page_base(x)]
                old(self).spec_range().start.0 + start <= x < old(self).spec_range().start.0 + end && commit_failure(
                    old(aspace).regions(),
                    old(aspace).levels(),
                    page_base(x),
                    access_for(true),
                    r->Err_0,
                    final(alloc).frames_used(),
                    final(alloc).frames_total(),
                ),
    {
        let fence = match self.commit(aspace, alloc, start, end, true) {
            Ok(f) => f,
            Err(e) => {
                return Err(e);
            },
        };
        let s = self.range.start.0;
        Ok(UserAccess { range: VirtualRange::new(s + start, s + end), fence })
    }
}

} // verus!
