use crate::addr::{page_aligned, VirtualRange, PAGE_SIZE};
use crate::error::Error;
use crate::flush::FenceRequest;
use crate::frame_alloc::{BitMapAllocator, FrameAllocator};
use crate::mode::{FLAG_READ, FLAG_VALID, FLAG_WRITE};
use crate::heap::{fresh_mapping, map_fresh_failure, map_fresh_frames};
use crate::page_table::{mapping_of, Mapper};
use vstd::prelude::*;

verus! {

/// The growing stretch of virtual memory from which a guest runtime's
/// allocations are carved: pages are mapped at `virt_offset`, which then moves
/// past them.
#[derive(Debug)]
pub struct GuestMemory {
    asid: usize,
    virt_offset: usize,
}

impl GuestMemory {
    pub closed spec fn spec_asid(&self) -> usize {
        self.asid
    }

    /// Where the next pages will be mapped.
    pub closed spec fn spec_offset(&self) -> int {
        self.virt_offset as int
    }

    /// The offset is page aligned.
    pub closed spec fn inv(&self) -> bool {
        page_aligned(self.virt_offset as int)
    }

    /// Guest memory of address space `asid` that starts at the page-aligned `virt_offset`.
    pub fn new(asid: usize, virt_offset: usize) -> (r: Self)
        requires
            page_aligned(virt_offset as int),
        ensures
            r.inv(),
            r.spec_asid() == asid,
            r.spec_offset() == virt_offset,
    {
        GuestMemory { asid, virt_offset }
    }

    pub fn asid(&self) -> (r: usize)
        ensures
            r == self.spec_asid(),
    {
        self.asid
    }

    pub fn virt_offset(&self) -> (r: usize)
        ensures
            r == self.spec_offset(),
    {
        self.virt_offset
    }

    /// Maps `num_pages` fresh frames, readable and writable, at the offset and
    /// moves the offset past them. Returns the range mapped and the fence to issue.
    pub fn map_additional_pages(
        &mut self,
        mapper: &mut Mapper,
        alloc: &mut BitMapAllocator,
        num_pages: usize,
    ) -> (r: Result<(VirtualRange, Option<FenceRequest>), Error>)
        requires
            old(self).inv(),
            old(mapper).inv(),
            old(alloc).inv(),
            old(mapper).spec_asid() == old(self).spec_asid(),
        ensures
            final(self).inv(),
            final(mapper).inv(),
            final(alloc).inv(),
            final(self).spec_asid() == old(self).spec_asid(),
            r is Err ==> final(self).spec_offset() == old(self).spec_offset(),
            r is Err ==> (r->Err_0 == Error::VirtualAddressTooLarge(old(self).spec_offset() as usize)
                && old(self).spec_offset() + num_pages * PAGE_SIZE > usize::MAX) || map_fresh_failure(
                *old(mapper),
                *old(alloc),
                *final(alloc),
                old(self).spec_offset(),
                num_pages as int,
                r->Err_0,
            ),
            r is Ok ==> fresh_mapping(
                *old(mapper),
                *final(mapper),
                *old(alloc),
                *final(alloc),
                old(self).spec_offset(),
                num_pages as int,
            ),
            r is Ok ==> {
                let range = r->Ok_0.0;
                &&& range.start.0 == old(self).spec_offset()
                &&& range.end.0 == old(self).spec_offset() + num_pages * PAGE_SIZE
                &&& final(self).spec_offset() == range.end.0
                &&& r->Ok_0.1 == Some(
                    FenceRequest { asid: old(self).spec_asid(), start: range.start.0, size: range.spec_size() as usize },
                )
                &&& exists|p: int| final(mapper).mappings() == old(mapper).mappings().union_prefer_right(
                    #[trigger] mapping_of(range.start.0 as int, p, num_pages as int, FLAG_READ | FLAG_WRITE | FLAG_VALID),
                )
            },
    {
        if num_pages > usize::MAX / PAGE_SIZE || num_pages * PAGE_SIZE > usize::MAX - self.virt_offset {
            return Err(Error::VirtualAddressTooLarge(self.virt_offset));
        }
        let bytes = num_pages * PAGE_SIZE;
        let virt = VirtualRange::new(self.virt_offset, self.virt_offset + bytes);
        proof {
            assert((self.virt_offset + bytes) % 4096 == 0) by (nonlinear_arith)
                requires
                    self.virt_offset % 4096 == 0,
                    bytes == num_pages * 4096,
            ;
            assert((virt.end.0 - virt.start.0) / 4096 == num_pages) by (nonlinear_arith)
                requires
                    virt.end.0 - virt.start.0 == bytes,
                    bytes == num_pages * 4096,
            ;
        }
        let fence = match map_fresh_frames(mapper, alloc, virt) {
            Ok(f) => f,
            Err(e) => {
                return Err(e);
            },
        };
        self.virt_offset = virt.end.0;
        Ok((virt, fence))
    }
}

} // verus!
