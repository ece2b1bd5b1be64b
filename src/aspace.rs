use crate::addr::{page_aligned, PhysicalAddress, PhysicalRange, VirtualAddress, VirtualRange, PAGE_SIZE};
use crate::error::Error;
use crate::flush::{FenceRequest, Flush};
use crate::frame_alloc::{BitMapAllocator, FrameAllocator};
use crate::mode::{pte_phys, spec_encode_entry, EntryFlags, Mode, FLAG_VALID};
use crate::page_table::{
    canonical, in_pages, lemma_page_bounds, leaf_flags_ok, leaf_frames, mapping_of, page_of, page_set, pages_in, Mapper,
};
use vstd::arithmetic::div_mod::{lemma_fundamental_div_mod, lemma_mod_multiples_basic};
use vstd::arithmetic::mul::lemma_mul_is_associative;
use vstd::prelude::*;

verus! {

/// Whether an address space belongs to the kernel or to user code.
#[derive(Debug, Clone, Copy, PartialEq, Eq, Structural)]
pub enum AddressSpaceKind {
    Kernel,
    User,
}

/// What a region may be used for.
#[derive(Debug, Clone, Copy, PartialEq, Eq, Structural)]
pub struct Permissions {
    pub read: bool,
    pub write: bool,
    pub execute: bool,
    pub user: bool,
}

/// Where the contents of a region come from.
#[derive(Debug, Clone, Copy, PartialEq, Eq, Structural)]
pub enum BackingKind {
    /// Fresh zeroed frames, committed on first touch.
    ZeroFill,
    /// Contents fixed at creation.
    Static,
    /// Frames shared with another address space.
    Shared,
}

/// The access that caused a page fault.
#[derive(Debug, Clone, Copy, PartialEq, Eq, Structural)]
pub enum PageFaultFlags {
    Load,
    Store,
    Instruction,
}

/// A range of one address space with its permissions and backing.
#[derive(Debug, Clone, Copy, PartialEq, Eq, Structural)]
pub struct AddressSpaceRegion {
    pub range: VirtualRange,
    pub permissions: Permissions,
    pub backing: BackingKind,
}

impl Permissions {
    pub open spec fn spec_bits(&self) -> usize {
        (if self.read { 2usize } else { 0usize }) | (if self.write { 4usize } else { 0usize }) | (
        if self.execute { 8usize } else { 0usize }) | (if self.user { 16usize } else { 0usize })
    }

    /// Writable and executable at once.
    pub open spec fn write_and_execute(&self) -> bool {
        self.write && self.execute
    }

    /// Entry flags that grant these permissions.
    pub fn to_entry_flags(&self) -> (r: EntryFlags)
        ensures
            r.bits == self.spec_bits(),
            r.bits < 256,
            (self.read || self.execute) ==> leaf_flags_ok(r.bits),
    {
        let r: usize = if self.read { 2 } else { 0 };
        let w: usize = if self.write { 4 } else { 0 };
        let x: usize = if self.execute { 8 } else { 0 };
        let u: usize = if self.user { 16 } else { 0 };
        proof {
            assert((r == 0 || r == 2) && (w == 0 || w == 4) && (x == 0 || x == 8) && (u == 0 || u
                == 16) ==> (r | w | x | u) < 256 && ((r == 2 || x == 8) ==> (r | w | x | u) & 10
                != 0)) by (bit_vector);
        }
        EntryFlags { bits: r | w | x | u }
    }

    /// Whether `access` is allowed.
    pub open spec fn spec_allows(&self, access: PageFaultFlags) -> bool {
        match access {
            PageFaultFlags::Load => self.read,
            PageFaultFlags::Store => self.write,
            PageFaultFlags::Instruction => self.execute,
        }
    }

    pub fn allows(&self, access: PageFaultFlags) -> (r: bool)
        ensures
            r == self.spec_allows(access),
    {
        match access {
            PageFaultFlags::Load => self.read,
            PageFaultFlags::Store => self.write,
            PageFaultFlags::Instruction => self.execute,
        }
    }
}

/// `va` lies in `r`.
pub open spec fn region_contains(r: AddressSpaceRegion, va: int) -> bool {
    r.range.start.0 <= va < r.range.end.0
}

/// Regions that do not overlap, in increasing order of address.
pub open spec fn sorted_disjoint(s: Seq<AddressSpaceRegion>) -> bool {
    forall|i: int, j: int|
        #![trigger s[i], s[j]]
        0 <= i < j < s.len() ==> s[i].range.end.0 <= s[j].range.start.0
}

/// Each region is a non-empty page-aligned range inside `bounds`, never writable
/// and executable at once, readable or executable, and zero-filled: regions are
/// only ever created by `map`, which backs them with fresh zeroed frames.
pub open spec fn regions_well_formed(s: Seq<AddressSpaceRegion>, bounds: VirtualRange) -> bool {
    forall|i: int|
        #![trigger s[i]]
        0 <= i < s.len() ==> {
            &&& s[i].range.start.0 < s[i].range.end.0
            &&& page_aligned(s[i].range.start.0 as int)
            &&& page_aligned(s[i].range.end.0 as int)
            &&& bounds.start.0 <= s[i].range.start.0
            &&& s[i].range.end.0 <= bounds.end.0
            &&& !s[i].permissions.write_and_execute()
            &&& s[i].permissions.read || s[i].permissions.execute
            &&& s[i].backing == BackingKind::ZeroFill
        }
}

/// Some region contains `va`.
pub open spec fn covered(s: Seq<AddressSpaceRegion>, va: int) -> bool {
    exists|i: int| 0 <= i < s.len() && region_contains(#[trigger] s[i], va)
}

/// Bytes covered by the regions.
pub open spec fn total_size(s: Seq<AddressSpaceRegion>) -> nat
    decreases s.len(),
{
    if s.len() == 0 {
        0
    } else {
        total_size(s.drop_last()) + s.last().range.spec_size()
    }
}


/// Alignment `align`, raised to a page where it is smaller.
pub open spec fn page_align(align: usize) -> usize {
    if align < PAGE_SIZE {
        PAGE_SIZE
    } else {
        align
    }
}

/// `len` rounded up to a whole number of pages.
pub open spec fn round_up_pages(len: int) -> int {
    ((len + PAGE_SIZE - 1) / (PAGE_SIZE as int)) * (PAGE_SIZE as int)
}

/// A multiple of a multiple of the page size is page aligned.
proof fn lemma_aligned_multiple(x: int, align: int)
    requires
        x >= 0,
        align > 0,
        x % align == 0,
        align % (PAGE_SIZE as int) == 0,
    ensures
        page_aligned(x),
{
    let p = PAGE_SIZE as int;
    lemma_fundamental_div_mod(x, align);
    lemma_fundamental_div_mod(align, p);
    let q = x / align;
    let m = align / p;
    assert(x == align * q);
    assert(align == p * m);
    lemma_mul_is_associative(p, m, q);
    assert(x == p * (m * q));
    lemma_mod_multiples_basic(m * q, p);
    assert((m * q) * p == p * (m * q)) by (nonlinear_arith);
}

/// The smallest multiple of `align` that is at least `x`, where it fits a word.
fn align_up(x: usize, align: usize) -> (r: Option<usize>)
    requires
        align > 0,
    ensures
        match r {
            Some(v) => v >= x && v % align == 0 && v - x < align,
            None => x % align != 0 && x + (align - x % align) > usize::MAX,
        },
{
    let rem = x % align;
    if rem == 0 {
        return Some(x);
    }
    let add = align - rem;
    if add > usize::MAX - x {
        return None;
    }
    proof {
        lemma_fundamental_div_mod(x as int, align as int);
        let q = x / align;
        assert(x + add == align * (q + 1)) by (nonlinear_arith)
            requires
                x == align * q + rem,
                add == align - rem,
        ;
        lemma_mod_multiples_basic(q + 1, align as int);
        assert((q + 1) * align == align * (q + 1)) by (nonlinear_arith);
    }
    Some(x + add)
}

/// A range of `size` bytes from `c` lies inside `bounds` and meets no region of `s`.
pub open spec fn gap_fits(s: Seq<AddressSpaceRegion>, bounds: VirtualRange, c: int, size: int) -> bool {
    &&& bounds.start.0 <= c
    &&& c + size <= bounds.end.0
    &&& forall|j: int|
        0 <= j < s.len() ==> !(c < (#[trigger] s[j]).range.end.0 && s[j].range.start.0 < c + size)
}

/// No multiple of `a` lies strictly between `v - a` and `v` when `v` is one.
proof fn lemma_no_multiple_between(c: int, v: int, a: int)
    requires
        a > 0,
        c % a == 0,
        v % a == 0,
        v - a < c,
        c >= 0,
        v >= 0,
    ensures
        c >= v,
{
    lemma_fundamental_div_mod(c, a);
    lemma_fundamental_div_mod(v, a);
    let qc = c / a;
    let qv = v / a;
    assert(c == a * qc);
    assert(v == a * qv);
    assert(qc > qv - 1) by (nonlinear_arith)
        requires
            a * qv - a < a * qc,
            a > 0,
    ;
    assert(a * qc >= a * qv) by (nonlinear_arith)
        requires
            qc >= qv,
            a > 0,
    ;
}

/// A multiple of `a` at least `m` is at least `m + (a - m % a)` where `m` is not one.
proof fn lemma_next_multiple(c: int, m: int, a: int)
    requires
        a > 0,
        c % a == 0,
        c >= m,
        m >= 0,
        m % a != 0,
    ensures
        c >= m + (a - m % a),
{
    lemma_fundamental_div_mod(c, a);
    lemma_fundamental_div_mod(m, a);
    let qc = c / a;
    let qm = m / a;
    assert(c == a * qc);
    assert(m == a * qm + m % a);
    assert(0 < m % a < a) by {
        vstd::arithmetic::div_mod::lemma_mod_pos_bound(m, a);
    };
    assert(qc >= qm + 1) by (nonlinear_arith)
        requires
            a * qc >= a * qm + m % a,
            m % a > 0,
            a > 0,
    ;
    assert(a * qc >= a * (qm + 1)) by (nonlinear_arith)
        requires
            qc >= qm + 1,
            a > 0,
    ;
    assert(a * (qm + 1) == a * qm + a) by (nonlinear_arith);
}

/// The state of an isolation domain: its regions and its page tables.
pub struct AddressSpace {
    kind: AddressSpaceKind,
    asid: usize,
    bounds: VirtualRange,
    regions: Vec<AddressSpaceRegion>,
    mapper: Mapper,
}

impl AddressSpace {
    pub closed spec fn regions(&self) -> Seq<AddressSpaceRegion> {
        self.regions@
    }

    /// Leaf entries of the page tables, by page.
    pub closed spec fn mappings(&self) -> Map<usize, usize> {
        self.mapper.mappings()
    }

    pub closed spec fn spec_asid(&self) -> usize {
        self.asid
    }

    /// Levels of the page-table hierarchy.
    pub closed spec fn levels(&self) -> nat {
        self.mapper.spec_levels()
    }

    pub closed spec fn spec_kind(&self) -> AddressSpaceKind {
        self.kind
    }

    /// The addresses that regions may occupy.
    pub closed spec fn bounds(&self) -> VirtualRange {
        self.bounds
    }

    /// Bytes of virtual memory that the regions cover.
    pub open spec fn used_bytes(&self) -> nat {
        total_size(self.regions())
    }

    pub closed spec fn inv(&self) -> bool {
        &&& self.mapper.inv()
        &&& self.mapper.spec_asid() == self.asid
        &&& page_aligned(self.bounds.start.0 as int)
        &&& page_aligned(self.bounds.end.0 as int)
        &&& self.bounds.start.0 <= self.bounds.end.0
        &&& regions_well_formed(self.regions@, self.bounds)
        &&& sorted_disjoint(self.regions@)
        &&& forall|va: usize|
            #[trigger] self.mapper.mappings().contains_key(va) ==> covered(self.regions@, va as int)
    }

    /// An address space of mode `M` with no regions, whose regions may occupy
    /// `bounds`. Its root table takes one frame.
    pub fn new<M: Mode>(
        kind: AddressSpaceKind,
        asid: usize,
        bounds: VirtualRange,
        alloc: &mut BitMapAllocator,
    ) -> (r: Result<AddressSpace, Error>)
        requires
            old(alloc).inv(),
            page_aligned(bounds.start.0 as int),
            page_aligned(bounds.end.0 as int),
            bounds.start.0 <= bounds.end.0,
        ensures
            final(alloc).inv(),
            final(alloc).layout() == old(alloc).layout(),
            match r {
                Ok(a) => {
                    &&& a.inv()
                    &&& a.regions() == Seq::<AddressSpaceRegion>::empty()
                    &&& a.mappings() == Map::<usize, usize>::empty()
                    &&& a.spec_asid() == asid
                    &&& a.spec_kind() == kind
                    &&& a.bounds() == bounds
                    &&& final(alloc).frames_used() == old(alloc).frames_used() + 1
                },
                Err(e) => e == Error::OutOfMemory && final(alloc).frames_used()
                    == old(alloc).frames_used(),
            },
    {
        let mapper = match Mapper::new::<M>(asid, alloc) {
            Ok(m) => m,
            Err(e) => {
                return Err(e);
            },
        };
        Ok(AddressSpace { kind, asid, bounds, regions: Vec::new(), mapper })
    }

    pub fn kind(&self) -> (r: AddressSpaceKind)
        ensures
            r == self.spec_kind(),
    {
        self.kind
    }

    pub fn asid(&self) -> (r: usize)
        ensures
            r == self.spec_asid(),
    {
        self.asid
    }

    /// The regions, in order of address.
    pub fn region_list(&self) -> (r: &Vec<AddressSpaceRegion>)
        ensures
            r@ == self.regions(),
    {
        &self.regions
    }

    /// The physical address that `va` translates to, if its page is committed.
    pub fn translate(&self, va: usize) -> (r: Option<PhysicalAddress>)
        requires
            self.inv(),
        ensures
            ({
                let page = (va - va % PAGE_SIZE) as usize;
                &&& self.mappings().contains_key(page) ==> r == Some(
                    PhysicalAddress((pte_phys(self.mappings()[page]) + va % PAGE_SIZE) as usize),
                )
                &&& !self.mappings().contains_key(page) ==> r is None
            }),
    {
        self.mapper.translate(va)
    }

    /// Index of the region that contains `va`, found by binary search.
    pub fn find_region(&self, va: usize) -> (r: Option<usize>)
        requires
            self.inv(),
        ensures
            match r {
                Some(i) => i < self.regions().len() && region_contains(self.regions()[i as int], va as int),
                None => !covered(self.regions(), va as int),
            },
    {
        let mut lo: usize = 0;
        let mut hi: usize = self.regions.len();
        while lo < hi
            invariant
                self.inv(),
                lo <= hi <= self.regions@.len(),
                forall|i: int| 0 <= i < lo ==> #[trigger] self.regions@[i].range.end.0 <= va,
                forall|i: int| hi <= i < self.regions@.len() ==> va < #[trigger] self.regions@[i].range.start.0,
            decreases hi - lo,
        {
            let mid = lo + (hi - lo) / 2;
            let region = &self.regions[mid];
            if va < region.range.start.0 {
                proof {
                    assert forall|i: int| mid <= i < self.regions@.len() implies va < #[trigger] self.regions@[i].range.start.0 by {
                        if i > mid {
                            assert(self.regions@[mid as int].range.end.0 <= self.regions@[i].range.start.0);
                        }
                    }
                }
                hi = mid;
            } else if va >= region.range.end.0 {
                proof {
                    assert forall|i: int| 0 <= i <= mid implies #[trigger] self.regions@[i].range.end.0 <= va by {
                        if i < mid {
                            assert(self.regions@[i].range.end.0 <= self.regions@[mid as int].range.start.0);
                        }
                    }
                }
                lo = mid + 1;
            } else {
                return Some(mid);
            }
        }
        proof {
            assert forall|i: int| 0 <= i < self.regions@.len() implies !region_contains(#[trigger] self.regions@[i], va as int) by {
                if i < lo {
                } else {
                    assert(self.regions@[i].range.start.0 < self.regions@[i].range.end.0);
                }
            }
        }
        None
    }

    /// Reserves a free range of `len` bytes, rounded up to whole pages, aligned
    /// to `align` or to a page where that is smaller: the lowest such range inside the bounds that meets no region.
    /// The new region is zero-filled and committed page by page on first access.
    #[verifier::rlimit(80)]
    #[verifier::spinoff_prover]
    pub fn map(&mut self, len: usize, align: usize, permissions: Permissions) -> (r: Result<
        VirtualRange,
        Error,
    >)
        requires
            old(self).inv(),
            align > 0,
            align < PAGE_SIZE || align % PAGE_SIZE == 0,
        ensures
            final(self).inv(),
            final(self).mappings() == old(self).mappings(),
            final(self).spec_asid() == old(self).spec_asid(),
            final(self).spec_kind() == old(self).spec_kind(),
            final(self).bounds() == old(self).bounds(),
            len == 0 ==> r == Err::<VirtualRange, Error>(Error::InvalidRange),
            len > 0 && permissions.write_and_execute() ==> r == Err::<VirtualRange, Error>(
                Error::WriteAndExecute,
            ),
            len > 0 && !permissions.write_and_execute() && !permissions.read
                && !permissions.execute ==> r == Err::<VirtualRange, Error>(Error::InvalidPermissions),
            len > 0 && !permissions.write_and_execute() && (permissions.read || permissions.execute)
                ==> r is Ok || r == Err::<VirtualRange, Error>(Error::OutOfMemory),
            r == Err::<VirtualRange, Error>(Error::OutOfMemory) && len > 0 ==> forall|c: int|
                0 <= c <= usize::MAX && c % (page_align(align) as int) == 0 ==> !gap_fits(
                    old(self).regions(),
                    old(self).bounds(),
                    c,
                    round_up_pages(len as int),
                ),
            r is Ok ==> gap_fits(
                old(self).regions(),
                old(self).bounds(),
                r->Ok_0.start.0 as int,
                round_up_pages(len as int),
            ) && forall|c: int|
                0 <= c < r->Ok_0.start.0 && c % (page_align(align) as int) == 0 ==> !gap_fits(
                    old(self).regions(),
                    old(self).bounds(),
                    c,
                    round_up_pages(len as int),
                ),
            r is Err ==> final(self).regions() == old(self).regions(),
            r is Ok ==> {
                let range = r->Ok_0;
                &&& range.start.0 % page_align(align) == 0
                &&& range.start.0 < range.end.0
                &&& range.spec_size() == round_up_pages(len as int)
                &&& exists|i: int|
                    0 <= i <= old(self).regions().len() && final(self).regions() == old(
                        self,
                    ).regions().insert(
                        i,
                        AddressSpaceRegion {
                            range,
                            permissions,
                            backing: BackingKind::ZeroFill,
                        },
                    )
            },
    {
        let al = if align < PAGE_SIZE {
            PAGE_SIZE
        } else {
            align
        };
        if len == 0 {
            return Err(Error::InvalidRange);
        }
        if permissions.write && permissions.execute {
            return Err(Error::WriteAndExecute);
        }
        if !permissions.read && !permissions.execute {
            return Err(Error::InvalidPermissions);
        }
        let rem = len % PAGE_SIZE;
        let size = if rem == 0 {
            len
        } else {
            if PAGE_SIZE - rem > usize::MAX - len {
                return Err(Error::OutOfMemory);
            }
            len + (PAGE_SIZE - rem)
        };
        proof {
            lemma_fundamental_div_mod(len as int, PAGE_SIZE as int);
            let q = len / PAGE_SIZE;
            if rem == 0 {
                assert((len + 4095) / 4096 == q) by (nonlinear_arith)
                    requires
                        len == 4096 * q,
                ;
                assert(size == q * 4096) by (nonlinear_arith)
                    requires
                        len == 4096 * q,
                        size == len,
                ;
            } else {
                assert((len + 4095) / 4096 == q + 1) by (nonlinear_arith)
                    requires
                        len == 4096 * q + rem,
                        0 < rem < 4096,
                ;
                assert(size == (q + 1) * 4096) by (nonlinear_arith)
                    requires
                        len == 4096 * q + rem,
                        size == len + (4096 - rem),
                ;
            }
            lemma_mod_multiples_basic(size as int / 4096, 4096);
            assert(size % 4096 == 0) by (nonlinear_arith)
                requires
                    size == round_up_pages(len as int),
                    round_up_pages(len as int) == ((len + 4095) / 4096) * 4096,
            ;
        }
        let ghost bounds = self.bounds;
        let ghost regs = self.regions@;
        let mut cand = match align_up(self.bounds.start.0, al) {
            Some(c) => c,
            None => {
                proof {
                    assert forall|c: int| 0 <= c <= usize::MAX && c % (al as int) == 0 implies !gap_fits(regs, bounds, c, size as int) by {
                        if c >= bounds.start.0 {
                            lemma_next_multiple(c, bounds.start.0 as int, al as int);
                        }
                    }
                }
                return Err(Error::OutOfMemory);
            },
        };
        proof {
            assert forall|c: int| 0 <= c < cand && c % (al as int) == 0 implies !gap_fits(regs, bounds, c, size as int) by {
                if c >= bounds.start.0 {
                    lemma_no_multiple_between(c, cand as int, al as int);
                }
            }
        }
        let mut i: usize = 0;
        while i < self.regions.len() && !(cand <= self.regions[i].range.start.0 && size
            <= self.regions[i].range.start.0 - cand)
            invariant
                self.inv(),
                *self == *old(self),
                cand % al == 0,
                cand >= self.bounds.start.0,
                i <= self.regions@.len(),
                size > 0,
                size % PAGE_SIZE == 0,
                size == round_up_pages(len as int),
                len > 0,
                al > 0,
                al % PAGE_SIZE == 0,
                al == page_align(align),
                !(permissions.write && permissions.execute),
                permissions.read || permissions.execute,
                forall|j: int| 0 <= j < i ==> #[trigger] self.regions@[j].range.end.0 <= cand,
                bounds == self.bounds,
                regs == self.regions@,
                forall|c: int| 0 <= c < cand && c % (al as int) == 0 ==> !gap_fits(regs, bounds, c, size as int),
            decreases self.regions@.len() - i,
        {
            let reg = self.regions[i];
            let next = if cand >= reg.range.end.0 {
                cand
            } else {
                reg.range.end.0
            };
            let ghost prev = cand;
            proof {
                assert(regs[i as int] == reg);
            }
            cand = match align_up(next, al) {
                Some(c) => c,
                None => {
                    proof {
                        assert forall|c: int| 0 <= c <= usize::MAX && c % (al as int) == 0 implies !gap_fits(regs, bounds, c, size as int) by {
                            if c >= prev && c >= next {
                                lemma_next_multiple(c, next as int, al as int);
                            } else if c >= prev {
                                assert(c < reg.range.end.0 && reg.range.start.0 < c + size);
                            }
                        }
                    }
                    return Err(Error::OutOfMemory);
                },
            };
            proof {
                assert forall|c: int| 0 <= c < cand && c % (al as int) == 0 implies !gap_fits(regs, bounds, c, size as int) by {
                    if c >= prev {
                        if c >= next {
                            lemma_no_multiple_between(c, cand as int, al as int);
                        }
                        assert(c < reg.range.end.0 && reg.range.start.0 < c + size);
                    }
                }
                assert forall|j: int| 0 <= j < i + 1 implies #[trigger] self.regions@[j].range.end.0 <= cand by {
                    if j < i {
                    }
                }
            }
            i += 1;
        }
        let found = i < self.regions.len();
        if !found {
            if !(cand <= self.bounds.end.0 && size <= self.bounds.end.0 - cand) {
                proof {
                    assert forall|c: int| 0 <= c <= usize::MAX && c % (al as int) == 0 implies !gap_fits(regs, bounds, c, size as int) by {
                    }
                }
                return Err(Error::OutOfMemory);
            }
        }
        proof {
            assert forall|j: int| 0 <= j < regs.len() implies !(cand < (#[trigger] regs[j]).range.end.0 && regs[j].range.start.0 < cand + size) by {
                if j >= i {
                    if j > i {
                        assert(regs[i as int].range.end.0 <= regs[j].range.start.0);
                        assert(regs[i as int].range.start.0 < regs[i as int].range.end.0);
                    }
                }
            }
            if found {
                assert(regs[i as int].range.end.0 <= bounds.end.0);
            }
            assert(gap_fits(regs, bounds, cand as int, size as int));
        }
        let range = VirtualRange::new(cand, cand + size);
        let region = AddressSpaceRegion { range, permissions, backing: BackingKind::ZeroFill };
        proof {
            lemma_aligned_multiple(cand as int, al as int);
            assert(page_aligned((cand + size) as int)) by (nonlinear_arith)
                requires
                    cand % 4096 == 0,
                    size % 4096 == 0,
            ;
            if found {
                assert(self.regions@[i as int].range.end.0 <= self.bounds.end.0);
            }
        }
        let ghost old_regions = self.regions@;
        assert(old_regions == old(self).regions());
        self.regions.insert(i, region);
        proof {
            let s = self.regions@;
            assert(s == old_regions.insert(i as int, region));
            assert forall|a: int|
                #![trigger s[a]]
                0 <= a < s.len() implies {
                    &&& s[a].range.start.0 < s[a].range.end.0
                    &&& page_aligned(s[a].range.start.0 as int)
                    &&& page_aligned(s[a].range.end.0 as int)
                    &&& self.bounds.start.0 <= s[a].range.start.0
                    &&& s[a].range.end.0 <= self.bounds.end.0
                    &&& !s[a].permissions.write_and_execute()
                    &&& s[a].permissions.read || s[a].permissions.execute
                    &&& s[a].backing == BackingKind::ZeroFill
                } by {
                if a < i {
                    assert(s[a] == old_regions[a]);
                } else if a > i {
                    assert(s[a] == old_regions[a - 1]);
                }
            }
            assert forall|a: int, b: int|
                #![trigger s[a], s[b]]
                0 <= a < b < s.len() implies s[a].range.end.0 <= s[b].range.start.0 by {
                if a < i && b < i {
                    assert(s[a] == old_regions[a] && s[b] == old_regions[b]);
                } else if a < i && b == i {
                    assert(s[a] == old_regions[a]);
                } else if a < i && b > i {
                    assert(s[a] == old_regions[a] && s[b] == old_regions[b - 1]);
                    assert(old_regions[a].range.end.0 <= cand);
                } else if a == i {
                    assert(s[b] == old_regions[b - 1]);
                    if b - 1 > i {
                        assert(old_regions[i as int].range.end.0 <= old_regions[b - 1].range.start.0);
                        assert(old_regions[i as int].range.start.0 < old_regions[i as int].range.end.0);
                    }
                } else {
                    assert(s[a] == old_regions[a - 1] && s[b] == old_regions[b - 1]);
                }
            }
            assert forall|va: usize|
                #[trigger] self.mapper.mappings().contains_key(va) implies covered(s, va as int) by {
                let j = choose|j: int| 0 <= j < old_regions.len() && region_contains(#[trigger] old_regions[j], va as int);
                if j < i {
                    assert(s[j] == old_regions[j]);
                } else {
                    assert(s[j + 1] == old_regions[j]);
                }
            }
        }
        Ok(range)
    }

    /// Resolves a fault of `access` at `va`. A zero-fill page touched for the first
    /// time is committed: a fresh frame is mapped with the region's permissions and
    /// the fence to issue is returned. A page that is already committed needs
    /// nothing. A fault outside every region, or an access the region does not
    /// allow, is not corrected.
    #[verifier::rlimit(80)]
    #[verifier::spinoff_prover]
    pub fn page_fault(&mut self, alloc: &mut BitMapAllocator, va: VirtualAddress, access: PageFaultFlags) -> (r: Result<
        Option<FenceRequest>,
        Error,
    >)
        requires
            old(self).inv(),
            old(alloc).inv(),
        ensures
            final(self).inv(),
            final(alloc).inv(),
            final(alloc).layout() == old(alloc).layout(),
            final(alloc).frames_total() == old(alloc).frames_total(),
            final(self).levels() == old(self).levels(),
            fault_post(
                *old(self),
                *final(self),
                old(alloc).frames_used(),
                final(alloc).frames_used(),
                old(alloc).frames_total(),
                va,
                access,
                r,
            ),
    {
        let idx = match self.find_region(va.0) {
            Some(i) => i,
            None => {
                return Err(Error::RegionNotFound(va.0));
            },
        };
        let region = self.regions[idx];
        if !region.permissions.allows(access) {
            proof {
                assert(!region_allows(old(self).regions(), va.0 as int, access)) by {
                    assert forall|i: int| 0 <= i < old(self).regions().len() && region_contains(#[trigger] old(self).regions()[i], va.0 as int) implies i == idx by {
                        lemma_region_unique(old(self).regions(), i, idx as int, va.0 as int);
                    }
                }
            }
            return Err(Error::AccessDenied(va.0));
        }
        proof {
            assert(region_allows(old(self).regions(), va.0 as int, access));
        }
        let page = va.0 - va.0 % PAGE_SIZE;
        if self.mapper.leaf(page).is_some() {
            return Ok(None);
        }
        let frame = match alloc.allocate_frames(1) {
            Ok(f) => f,
            Err(e) => {
                proof {
                    crate::frame_alloc::lemma_none_free_all_used(*alloc);
                    self.mapper.lemma_levels();
                }
                return Err(e);
            },
        };
        let ghost mid = *alloc;
        let flags = region.permissions.to_entry_flags();
        let mut flush = Flush::empty(self.asid);
        proof {
            assert(page % 4096 == 0) by (nonlinear_arith)
                requires
                    page == va.0 - va.0 % 4096,
            ;
            assert(region.range.start.0 <= page) by (nonlinear_arith)
                requires
                    page == va.0 - va.0 % 4096,
                    region.range.start.0 % 4096 == 0,
                    region.range.start.0 <= va.0,
            ;
            assert(page + 4096 <= region.range.end.0) by (nonlinear_arith)
                requires
                    page == va.0 - va.0 % 4096,
                    region.range.end.0 % 4096 == 0,
                    va.0 < region.range.end.0,
            ;
        }
        let virt = VirtualRange::new(page, page + PAGE_SIZE);
        let phys = PhysicalRange::new(frame.0, frame.0 + PAGE_SIZE);
        let ghost before = self.mapper.mappings();
        match self.mapper.map_range(alloc, virt, phys, flags, &mut flush) {
            Ok(()) => {},
            Err(e) => {
                proof {
                    if e == Error::OutOfMemory {
                        crate::frame_alloc::lemma_none_free_all_used(*alloc);
                        self.mapper.lemma_levels();
                        assert(pages_in(virt) == 1);
                        let k = choose|k: int| 0 <= k < 1 && self.mapper.mappings() == before.union_prefer_right(
                            mapping_of(page as int, frame.0 as int, k, flags.bits | FLAG_VALID));
                        assert(k == 0);
                        assert(mapping_of(page as int, frame.0 as int, 0, flags.bits | FLAG_VALID) =~= Map::empty());
                        assert(self.mapper.mappings() =~= before);
                    } else {
                        assert(page_of(page as int, 0) == page);
                        assert(e == Error::VirtualAddressTooLarge(page) || e
                            == Error::VirtualAddressAlreadyMapped(page));
                    }
                }
                let _ = alloc.deallocate_frames(frame, 1);
                return Err(e);
            },
        }
        proof {
            assert(pages_in(virt) == 1);
            assert forall|x: usize| #[trigger] in_pages(x as int, page as int, 1) <==> x == page by {
                if in_pages(x as int, page as int, 1) {
                    assert(x - page == 0) by (nonlinear_arith)
                        requires
                            (x - page) % 4096 == 0,
                            0 <= x - page < 4096,
                    ;
                }
            }
            assert(self.mapper.mappings() =~= before.insert(page, spec_encode_entry(frame.0, flags.bits | FLAG_VALID)));
            assert forall|x: usize|
                #[trigger] self.mapper.mappings().contains_key(x) implies covered(self.regions@, x as int) by {
                if x == page {
                    assert(region_contains(self.regions@[idx as int], x as int));
                } else {
                    assert(before.contains_key(x));
                }
            }
        }
        Ok(flush.flush())
    }

    /// Index of the region whose range is exactly `range`.
    fn find_exact(&self, range: VirtualRange) -> (r: Option<usize>)
        requires
            self.inv(),
        ensures
            match r {
                Some(i) => i < self.regions().len() && self.regions()[i as int].range == range,
                None => !exists|i: int| 0 <= i < self.regions().len() && (#[trigger] self.regions()[i]).range == range,
            },
    {
        match self.find_region(range.start.0) {
            Some(i) => {
                if self.regions[i].range == range {
                    Some(i)
                } else {
                    proof {
                        assert forall|j: int| 0 <= j < self.regions().len() implies (#[trigger] self.regions()[j]).range != range by {
                            if self.regions()[j].range == range {
                                assert(self.regions@[j].range.start.0 < self.regions@[j].range.end.0);
                                lemma_region_unique(self.regions@, i as int, j, range.start.0 as int);
                            }
                        }
                    }
                    None
                }
            },
            None => {
                proof {
                    assert forall|j: int| 0 <= j < self.regions().len() implies (#[trigger] self.regions()[j]).range != range by {
                        if self.regions()[j].range == range {
                            assert(self.regions@[j].range.start.0 < self.regions@[j].range.end.0);
                            assert(region_contains(self.regions@[j], range.start.0 as int));
                        }
                    }
                }
                None
            },
        }
    }

    /// Gives the region whose range is exactly `range` new permissions, rewrites
    /// the entries of its committed pages to match, and returns the fence to issue.
    /// A request for writable and executable memory is refused.
    #[verifier::rlimit(80)]
    #[verifier::spinoff_prover]
    pub fn protect(&mut self, range: VirtualRange, permissions: Permissions) -> (r: Result<
        Option<FenceRequest>,
        Error,
    >)
        requires
            old(self).inv(),
        ensures
            final(self).inv(),
            protect_post(*old(self), *final(self), range, permissions, r),
    {
        if permissions.write && permissions.execute {
            return Err(Error::WriteAndExecute);
        }
        if !permissions.read && !permissions.execute {
            return Err(Error::InvalidPermissions);
        }
        let idx = match self.find_exact(range) {
            Some(i) => i,
            None => {
                return Err(Error::RegionNotFound(range.start.0));
            },
        };
        let old_region = self.regions[idx];
        let region = AddressSpaceRegion { range, permissions, backing: old_region.backing };
        let ghost old_regions = self.regions@;
        self.regions.set(idx, region);
        proof {
            assert forall|va: usize|
                #[trigger] self.mapper.mappings().contains_key(va) implies covered(self.regions@, va as int) by {
                let j = choose|j: int| 0 <= j < old_regions.len() && region_contains(#[trigger] old_regions[j], va as int);
                assert(region_contains(self.regions@[j], va as int));
            }
            assert forall|a: int, b: int|
                #![trigger self.regions@[a], self.regions@[b]]
                0 <= a < b < self.regions@.len() implies self.regions@[a].range.end.0 <= self.regions@[b].range.start.0 by {
                assert(old_regions[a].range.end.0 <= old_regions[b].range.start.0);
            }
            assert forall|a: int| #![trigger self.regions@[a]] 0 <= a < self.regions@.len() implies {
                &&& self.regions@[a].range.start.0 < self.regions@[a].range.end.0
                &&& page_aligned(self.regions@[a].range.start.0 as int)
                &&& page_aligned(self.regions@[a].range.end.0 as int)
                &&& self.bounds.start.0 <= self.regions@[a].range.start.0
                &&& self.regions@[a].range.end.0 <= self.bounds.end.0
                &&& !self.regions@[a].permissions.write_and_execute()
                &&& self.regions@[a].permissions.read || self.regions@[a].permissions.execute
                &&& self.regions@[a].backing == BackingKind::ZeroFill
            } by {
                assert(old_regions[a].range == self.regions@[a].range);
            }
        }
        let flags = permissions.to_entry_flags();
        let vs = range.start.0;
        let n = (range.end.0 - vs) / PAGE_SIZE;
        proof {
            assert(n * PAGE_SIZE <= range.end.0 - vs) by (nonlinear_arith)
                requires
                    n == (range.end.0 - vs) / (PAGE_SIZE as int),
            ;
        }
        let ghost m0 = self.mapper.mappings();
        let mut k: usize = 0;
        while k < n
            invariant
                k <= n,
                n == pages_in(range),
                n * PAGE_SIZE <= range.end.0 - vs,
                vs == range.start.0,
                vs < range.end.0,
                leaf_flags_ok(flags.bits),
                self.inv(),
                self.asid == old(self).asid,
                self.kind == old(self).kind,
                self.bounds == old(self).bounds,
                self.regions@ == old_regions.update(idx as int, region),
                m0 == old(self).mappings(),
                self.mapper.mappings() == Map::new(
                    |va: usize| m0.contains_key(va),
                    |va: usize|
                        if in_pages(va as int, vs as int, k as int) {
                            spec_encode_entry(pte_phys(m0[va]), flags.bits | FLAG_VALID)
                        } else {
                            m0[va]
                        },
                ),
            decreases n - k,
        {
            proof {
                lemma_page_bounds(vs as int, k as int, n as int);
            }
            let va = vs + k * PAGE_SIZE;
            let ghost before = self.mapper.mappings();
            let _ = self.mapper.update_page_flags(va, flags);
            proof {
                assert(!in_pages(va as int, vs as int, k as int)) by {
                    if in_pages(va as int, vs as int, k as int) {
                        assert((k as int) * 4096 < (k as int) * 4096) by (nonlinear_arith)
                            requires
                                va == vs + k * 4096,
                                va < vs + k * 4096,
                        ;
                    }
                };
                let next = Map::new(
                    |x: usize| m0.contains_key(x),
                    |x: usize|
                        if in_pages(x as int, vs as int, (k + 1) as int) {
                            spec_encode_entry(pte_phys(m0[x]), flags.bits | FLAG_VALID)
                        } else {
                            m0[x]
                        },
                );
                assert forall|x: usize| #[trigger] self.mapper.mappings().contains_key(x) == next.contains_key(x)
                    && (self.mapper.mappings().contains_key(x) ==> self.mapper.mappings()[x] == next[x]) by {
                    crate::page_table::lemma_in_pages_step(x as int, vs as int, k as int);
                }
                assert(self.mapper.mappings() =~= next);
                assert forall|x: usize|
                    #[trigger] self.mapper.mappings().contains_key(x) implies covered(self.regions@, x as int) by {
                    assert(before.contains_key(x));
                }
            }
            k += 1;
        }
        let flush = Flush::new(self.asid, range);
        Ok(flush.flush())
    }

    /// Removes the region whose range is exactly `range`: clears the entries of its
    /// committed pages, hands their frames back to `alloc`, and returns the fence
    /// to issue.
    #[verifier::rlimit(80)]
    #[verifier::spinoff_prover]
    pub fn unmap(&mut self, alloc: &mut BitMapAllocator, range: VirtualRange) -> (r: Result<
        Option<FenceRequest>,
        Error,
    >)
        requires
            old(self).inv(),
            old(alloc).inv(),
        ensures
            final(self).inv(),
            final(alloc).inv(),
            final(alloc).layout() == old(alloc).layout(),
            unmap_post(*old(self), *final(self), old(alloc).frames_used(), final(alloc).frames_used(), range, r),
    {
        let idx = match self.find_exact(range) {
            Some(i) => i,
            None => {
                return Err(Error::RegionNotFound(range.start.0));
            },
        };
        let mut flush = Flush::empty(self.asid);
        let ghost m0 = self.mapper.mappings();
        let ghost old_regions = self.regions@;
        let frames = match self.mapper.unmap_range(range, &mut flush) {
            Ok(f) => f,
            Err(e) => {
                return Err(e);
            },
        };
        let _ = self.regions.remove(idx);
        proof {
            let s = self.regions@;
            assert(s == old_regions.remove(idx as int));
            assert forall|a: int|
                #![trigger s[a]]
                0 <= a < s.len() implies {
                    &&& s[a].range.start.0 < s[a].range.end.0
                    &&& page_aligned(s[a].range.start.0 as int)
                    &&& page_aligned(s[a].range.end.0 as int)
                    &&& self.bounds.start.0 <= s[a].range.start.0
                    &&& s[a].range.end.0 <= self.bounds.end.0
                    &&& !s[a].permissions.write_and_execute()
                    &&& s[a].permissions.read || s[a].permissions.execute
                    &&& s[a].backing == BackingKind::ZeroFill
                } by {
                if a < idx {
                    assert(s[a] == old_regions[a]);
                } else {
                    assert(s[a] == old_regions[a + 1]);
                }
            }
            assert forall|a: int, b: int|
                #![trigger s[a], s[b]]
                0 <= a < b < s.len() implies s[a].range.end.0 <= s[b].range.start.0 by {
                let a2 = if a < idx { a } else { a + 1 };
                let b2 = if b < idx { b } else { b + 1 };
                assert(s[a] == old_regions[a2] && s[b] == old_regions[b2]);
                assert(old_regions[a2].range.end.0 <= old_regions[b2].range.start.0);
            }
            assert forall|va: usize|
                #[trigger] self.mapper.mappings().contains_key(va) implies covered(s, va as int) by {
                assert(m0.contains_key(va));
                assert(!page_set(range.start.0 as int, pages_in(range) as int).contains(va));
                let j = choose|j: int| 0 <= j < old_regions.len() && region_contains(#[trigger] old_regions[j], va as int);
                if j == idx {
                    self.mapper.lemma_key_aligned(va);
                    lemma_in_range_is_page(va as int, range);
                    assert(false);
                } else if j < idx {
                    assert(s[j] == old_regions[j]);
                } else {
                    assert(s[j - 1] == old_regions[j]);
                }
            }
        }
        let mut j: usize = 0;
        while j < frames.len()
            invariant
                j <= frames@.len(),
                self.inv(),
                alloc.inv(),
                alloc.layout() == old(alloc).layout(),
                self.asid == old(self).asid,
                self.kind == old(self).kind,
                self.bounds == old(self).bounds,
                self.regions@ == old_regions.remove(idx as int),
                old_regions == old(self).regions(),
                old_regions[idx as int].range == range,
                idx < old_regions.len(),
                self.mapper.mappings() == m0.remove_keys(page_set(range.start.0 as int, pages_in(range) as int)),
                m0 == old(self).mappings(),
                frames@ == leaf_frames(m0, range.start.0 as int, pages_in(range)),
                old(alloc).frames_used() >= j,
                alloc.frames_used() == old(alloc).frames_used() - j,
            decreases frames@.len() - j,
        {
            match alloc.deallocate_frames(frames[j], 1) {
                Ok(()) => {},
                Err(e) => {
                    proof {
                        assert(frames@[j as int] == PhysicalAddress(frames@[j as int].0));
                        assert(frames@.contains(frames@[j as int]));
                    }
                    return Err(e);
                },
            }
            j += 1;
        }
        Ok(flush.flush())
    }
}

/// Two regions of a well-formed list that contain the same address are the same.
pub proof fn lemma_region_unique(s: Seq<AddressSpaceRegion>, i: int, j: int, va: int)
    requires
        sorted_disjoint(s),
        0 <= i < s.len(),
        0 <= j < s.len(),
        region_contains(s[i], va),
        region_contains(s[j], va),
    ensures
        i == j,
{
    if i < j {
        assert(s[i].range.end.0 <= s[j].range.start.0);
    } else if j < i {
        assert(s[j].range.end.0 <= s[i].range.start.0);
    }
}

/// The region that contains `va` allows `access`.
pub open spec fn region_allows(s: Seq<AddressSpaceRegion>, va: int, access: PageFaultFlags) -> bool {
    exists|i: int| 0 <= i < s.len() && region_contains(#[trigger] s[i], va) && s[i].permissions.spec_allows(access)
}

/// The page that contains `va`.
pub open spec fn page_base(va: usize) -> usize {
    (va - va % PAGE_SIZE) as usize
}

/// What a page fault of `access` at `va` does, from address space `a` and `u`
/// frames in use to `b` and `v` frames in use, with result `r`.
pub open spec fn fault_post(
    a: AddressSpace,
    b: AddressSpace,
    u: nat,
    v: nat,
    total: nat,
    va: VirtualAddress,
    access: PageFaultFlags,
    r: Result<Option<FenceRequest>, Error>,
) -> bool {
    let page = page_base(va.0);
    &&& b.regions() == a.regions()
    &&& b.spec_asid() == a.spec_asid()
    &&& b.spec_kind() == a.spec_kind()
    &&& b.bounds() == a.bounds()
    &&& b.levels() == a.levels()
    &&& !covered(a.regions(), va.0 as int) ==> r == Err::<Option<FenceRequest>, Error>(
        Error::RegionNotFound(va.0),
    ) && v == u
    &&& covered(a.regions(), va.0 as int) && !region_allows(a.regions(), va.0 as int, access) ==> r
        == Err::<Option<FenceRequest>, Error>(Error::AccessDenied(va.0)) && v == u
    &&& region_allows(a.regions(), va.0 as int, access) && a.mappings().contains_key(page) ==> r
        == Ok::<Option<FenceRequest>, Error>(None) && b.mappings() == a.mappings() && v == u
    &&& region_allows(a.regions(), va.0 as int, access) && !a.mappings().contains_key(page) ==> (r
        is Ok || (r == Err::<Option<FenceRequest>, Error>(Error::OutOfMemory) && total < u + a.levels())
        || (r == Err::<Option<FenceRequest>, Error>(Error::VirtualAddressTooLarge(page)) && !canonical(
        page,
        a.levels(),
    )))
    &&& r is Err ==> b.mappings() == a.mappings() && v >= u
    &&& (r is Ok && !a.mappings().contains_key(page)) ==> {
        &&& v > u
        &&& r == Ok::<Option<FenceRequest>, Error>(
            Some(FenceRequest { asid: a.spec_asid(), start: page, size: PAGE_SIZE }),
        )
        &&& forall|i: int|
            0 <= i < a.regions().len() && region_contains(a.regions()[i], va.0 as int) ==> exists|f: usize|
                b.mappings() == a.mappings().insert(
                    page,
                    #[trigger] spec_encode_entry(f, a.regions()[i].permissions.spec_bits() | FLAG_VALID),
                )
    }
}

/// A page-aligned address inside a page-aligned range is one of its pages.
proof fn lemma_in_range_is_page(va: int, range: VirtualRange)
    requires
        page_aligned(va),
        page_aligned(range.start.0 as int),
        page_aligned(range.end.0 as int),
        range.start.0 <= va < range.end.0,
    ensures
        in_pages(va, range.start.0 as int, pages_in(range) as int),
{
    let s = range.start.0 as int;
    let e = range.end.0 as int;
    assert((va - s) % 4096 == 0) by (nonlinear_arith)
        requires
            va % 4096 == 0,
            s % 4096 == 0,
            s <= va,
    ;
    assert(va < s + ((e - s) / 4096) * 4096) by (nonlinear_arith)
        requires
            e % 4096 == 0,
            s % 4096 == 0,
            s <= va < e,
    ;
}

/// What `protect` does, from address space `a` to `b`, with result `r`.
pub open spec fn protect_post(
    a: AddressSpace,
    b: AddressSpace,
    range: VirtualRange,
    permissions: Permissions,
    r: Result<Option<FenceRequest>, Error>,
) -> bool {
    let exact = exists|i: int| 0 <= i < a.regions().len() && (#[trigger] a.regions()[i]).range == range;
    let n = pages_in(range) as int;
    &&& b.spec_asid() == a.spec_asid()
    &&& b.spec_kind() == a.spec_kind()
    &&& b.bounds() == a.bounds()
    &&& permissions.write_and_execute() ==> r == Err::<Option<FenceRequest>, Error>(Error::WriteAndExecute)
    &&& !permissions.write_and_execute() && !permissions.read && !permissions.execute ==> r == Err::<
        Option<FenceRequest>,
        Error,
    >(Error::InvalidPermissions)
    &&& !permissions.write_and_execute() && (permissions.read || permissions.execute) && !exact ==> r
        == Err::<Option<FenceRequest>, Error>(Error::RegionNotFound(range.start.0))
    &&& !permissions.write_and_execute() && (permissions.read || permissions.execute) && exact ==> r
        == Ok::<Option<FenceRequest>, Error>(
        Some(FenceRequest { asid: a.spec_asid(), start: range.start.0, size: range.spec_size() as usize }),
    )
    &&& r is Err ==> b.regions() == a.regions() && b.mappings() == a.mappings()
    &&& r is Ok ==> exists|i: int|
        0 <= i < a.regions().len() && (#[trigger] a.regions()[i]).range == range && b.regions() == a.regions().update(
            i,
            AddressSpaceRegion { range, permissions, backing: a.regions()[i].backing },
        )
    &&& r is Ok ==> b.mappings() == Map::new(
        |va: usize| a.mappings().contains_key(va),
        |va: usize|
            if in_pages(va as int, range.start.0 as int, n) {
                spec_encode_entry(pte_phys(a.mappings()[va]), permissions.spec_bits() | FLAG_VALID)
            } else {
                a.mappings()[va]
            },
    )
}

/// What `unmap` does, from address space `a` and `u` frames in use to `b` and `v`
/// frames in use, with result `r`.
pub open spec fn unmap_post(
    a: AddressSpace,
    b: AddressSpace,
    u: nat,
    v: nat,
    range: VirtualRange,
    r: Result<Option<FenceRequest>, Error>,
) -> bool {
    let exact = exists|i: int| 0 <= i < a.regions().len() && (#[trigger] a.regions()[i]).range == range;
    let n = pages_in(range);
    &&& b.spec_asid() == a.spec_asid()
    &&& b.spec_kind() == a.spec_kind()
    &&& b.bounds() == a.bounds()
    &&& !exact ==> r == Err::<Option<FenceRequest>, Error>(Error::RegionNotFound(range.start.0))
        && b.regions() == a.regions() && b.mappings() == a.mappings() && v == u
    &&& exact ==> r is Ok || r->Err_0 is FrameNotAllocated
    &&& r is Err && r->Err_0 is FrameNotAllocated ==> leaf_frames(a.mappings(), range.start.0 as int, n).contains(
        PhysicalAddress(r->Err_0->FrameNotAllocated_0),
    )
    &&& exact ==> exists|i: int|
        0 <= i < a.regions().len() && (#[trigger] a.regions()[i]).range == range && b.regions() == a.regions().remove(i)
    &&& exact ==> b.mappings() == a.mappings().remove_keys(page_set(range.start.0 as int, n as int))
    &&& r is Ok ==> r == Ok::<Option<FenceRequest>, Error>(
        Some(FenceRequest { asid: a.spec_asid(), start: range.start.0, size: range.spec_size() as usize }),
    )
    &&& r is Ok ==> u >= leaf_frames(a.mappings(), range.start.0 as int, n).len() && v == u - leaf_frames(
        a.mappings(),
        range.start.0 as int,
        n,
    ).len()
}

/// No leaf among the first `n` pages from `start` leaves no frames to release.
proof fn lemma_leaf_frames_none(m: Map<usize, usize>, start: int, n: nat)
    requires
        forall|k: int| 0 <= k < n ==> !m.contains_key(#[trigger] page_of(start, k) as usize),
    ensures
        leaf_frames(m, start, n) == Seq::<PhysicalAddress>::empty(),
    decreases n,
{
    if n > 0 {
        lemma_leaf_frames_none(m, start, (n - 1) as nat);
        assert(!m.contains_key(page_of(start, n - 1) as usize));
        assert(leaf_frames(m, start, n) =~= Seq::<PhysicalAddress>::empty());
    }
}

/// At every point the regions of an address space are non-empty, do not
/// overlap, and are sorted by start address.
pub proof fn lemma_regions_sorted_disjoint(a: AddressSpace)
    requires
        a.inv(),
    ensures
        sorted_disjoint(a.regions()),
        forall|i: int|
            0 <= i < a.regions().len() ==> (#[trigger] a.regions()[i]).range.start.0
                < a.regions()[i].range.end.0,
        forall|i: int, j: int|
            0 <= i < a.regions().len() && 0 <= j < a.regions().len() && i != j ==> (
            #[trigger] a.regions()[i]).range.end.0 <= (#[trigger] a.regions()[j]).range.start.0 || a.regions()[j].range.end.0
                <= a.regions()[i].range.start.0,
{
    assert forall|i: int| 0 <= i < a.regions().len() implies (#[trigger] a.regions()[i]).range.start.0
        < a.regions()[i].range.end.0 by {
        assert(a.regions@[i] == a.regions()[i]);
    }
    assert forall|i: int, j: int|
        0 <= i < a.regions().len() && 0 <= j < a.regions().len() && i != j implies (
        #[trigger] a.regions()[i]).range.end.0 <= (#[trigger] a.regions()[j]).range.start.0 || a.regions()[j].range.end.0
            <= a.regions()[i].range.start.0 by {
        if i < j {
            assert(a.regions@[i].range.end.0 <= a.regions@[j].range.start.0);
        } else {
            assert(a.regions@[j].range.end.0 <= a.regions@[i].range.start.0);
        }
    }
}

/// Every region of an address space is zero-filled, so a fault on a page not
/// yet committed commits a fresh frame.
pub proof fn lemma_regions_zero_fill(a: AddressSpace)
    requires
        a.inv(),
    ensures
        forall|i: int| 0 <= i < a.regions().len() ==> (#[trigger] a.regions()[i]).backing == BackingKind::ZeroFill,
{
    assert forall|i: int| 0 <= i < a.regions().len() implies (#[trigger] a.regions()[i]).backing == BackingKind::ZeroFill by {
        assert(a.regions@[i] == a.regions()[i]);
    }
}

/// No region of an address space is ever writable and executable at once.
pub proof fn lemma_write_xor_execute(a: AddressSpace)
    requires
        a.inv(),
    ensures
        forall|i: int|
            0 <= i < a.regions().len() ==> !(#[trigger] a.regions()[i]).permissions.write_and_execute(),
{
    assert forall|i: int| 0 <= i < a.regions().len() implies !(#[trigger] a.regions()[i]).permissions.write_and_execute() by {
        assert(a.regions@[i] == a.regions()[i]);
    }
}

/// Mapping a range and unmapping it right away gives back the regions, the
/// virtual bytes in use, the page-table entries and the frames in use from
/// before the mapping. `a0` is the address space before `map`, `a1` after it and
/// `a2` after `unmap`; `u0` frames were in use before and `u2` after.
#[verifier::rlimit(80)]
#[verifier::spinoff_prover]
pub proof fn lemma_map_unmap_round_trip(
    a0: AddressSpace,
    a1: AddressSpace,
    a2: AddressSpace,
    u0: nat,
    u2: nat,
    range: VirtualRange,
    permissions: Permissions,
    r2: Result<Option<FenceRequest>, Error>,
)
    requires
        a0.inv(),
        a1.inv(),
        a1.mappings() == a0.mappings(),
        exists|i: int|
            0 <= i <= a0.regions().len() && a1.regions() == a0.regions().insert(
                i,
                AddressSpaceRegion { range, permissions, backing: BackingKind::ZeroFill },
            ),
        unmap_post(a1, a2, u0, u2, range, r2),
        r2 is Ok,
    ensures
        a2.regions() == a0.regions(),
        a2.used_bytes() == a0.used_bytes(),
        a2.mappings() == a0.mappings(),
        u2 == u0,
{
    let reg = AddressSpaceRegion { range, permissions, backing: BackingKind::ZeroFill };
    let i = choose|i: int|
        0 <= i <= a0.regions().len() && a1.regions() == a0.regions().insert(i, reg);
    let s0 = a0.regions();
    let s1 = a1.regions();
    assert(s1[i] == reg);
    assert(exists|k: int| 0 <= k < s1.len() && (#[trigger] s1[k]).range == range);
    let j = choose|j: int| 0 <= j < s1.len() && (#[trigger] s1[j]).range == range && a2.regions() == s1.remove(j);
    assert(s1 == a1.regions@);
    assert(a1.regions@[i].range.start.0 < a1.regions@[i].range.end.0);
    lemma_region_unique(a1.regions@, i, j, range.start.0 as int);
    assert(a2.regions() =~= s0);
    let n = pages_in(range);
    assert forall|k: int| 0 <= k < n implies !a1.mappings().contains_key(#[trigger] page_of(range.start.0 as int, k) as usize) by {
        let va = page_of(range.start.0 as int, k) as usize;
        lemma_page_bounds(range.start.0 as int, k, n as int);
        assert(range.start.0 + n * 4096 <= range.end.0) by (nonlinear_arith)
            requires
                n == (range.end.0 - range.start.0) / 4096,
                range.start.0 <= range.end.0,
        ;
        if a1.mappings().contains_key(va) {
            assert(a0.mapper.mappings().contains_key(va));
            let w = choose|w: int| 0 <= w < a0.regions@.len() && region_contains(#[trigger] a0.regions@[w], va as int);
            let w1 = if w < i { w } else { w + 1 };
            assert(s1[w1] == s0[w]);
            assert(a1.regions@[w1] == s0[w]);
            lemma_region_unique(a1.regions@, w1, i, va as int);
        }
    }
    lemma_leaf_frames_none(a1.mappings(), range.start.0 as int, n);
    assert forall|x: usize| #[trigger] page_set(range.start.0 as int, n as int).contains(x) implies !a1.mappings().contains_key(x) by {
        let d = x - range.start.0;
        let k = d / 4096;
        assert(x == page_of(range.start.0 as int, k)) by (nonlinear_arith)
            requires
                d % 4096 == 0,
                k == d / 4096,
                d == x - range.start.0,
        ;
        assert(0 <= k < n) by (nonlinear_arith)
            requires
                d % 4096 == 0,
                k == d / 4096,
                0 <= d < n * 4096,
        ;
    }
    assert(a2.mappings() =~= a0.mappings());
}

/// Delivering the same fault again after it was corrected finds the page
/// committed: it succeeds with no new mapping, no fence and no frame taken.
/// `a0` is the address space before the first fault, `a1` after it, `a2` after
/// the second; `u0`, `u1`, `u2` are the frames in use at those points.
pub proof fn lemma_fault_idempotent(
    a0: AddressSpace,
    a1: AddressSpace,
    a2: AddressSpace,
    u0: nat,
    u1: nat,
    u2: nat,
    total: nat,
    va: VirtualAddress,
    access: PageFaultFlags,
    r1: Result<Option<FenceRequest>, Error>,
    r2: Result<Option<FenceRequest>, Error>,
)
    requires
        fault_post(a0, a1, u0, u1, total, va, access, r1),
        r1 is Ok,
        fault_post(a1, a2, u1, u2, total, va, access, r2),
    ensures
        r2 == Ok::<Option<FenceRequest>, Error>(None),
        a2.mappings() == a1.mappings(),
        a2.regions() == a1.regions(),
        u2 == u1,
{
    let page = page_base(va.0);
    assert(region_allows(a0.regions(), va.0 as int, access)) by {
        if !region_allows(a0.regions(), va.0 as int, access) {
            if covered(a0.regions(), va.0 as int) {
            } else {
            }
        }
    }
    if !a0.mappings().contains_key(page) {
        let (f, flags) = choose|f: usize, flags: usize| a1.mappings() == a0.mappings().insert(page, spec_encode_entry(f, flags));
        assert(a1.mappings().contains_key(page));
    }
    assert(a1.mappings().contains_key(page));
    assert(region_allows(a1.regions(), va.0 as int, access));
}

} // verus!
