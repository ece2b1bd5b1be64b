use crate::addr::{page_aligned, vrange, PhysicalAddress, PhysicalRange, VirtualRange, PAGE_SIZE};
use crate::error::Error;
use crate::flush::{cover, Flush};
use crate::frame_alloc::FrameAllocator;
use crate::mode::{
    encodable_frame, encode_entry, entry_is_leaf, entry_phys, pte_phys, spec_encode_entry,
    EntryFlags, Mode, FLAG_VALID,
};
use vstd::hash_map::HashMapWithView;
use vstd::prelude::*;

verus! {

broadcast use vstd::std_specs::hash::group_hash_axioms;

/// Address `k` pages after `start`.
pub open spec fn page_of(start: int, k: int) -> int {
    start + k * (PAGE_SIZE as int)
}

/// `va` is one of the `n` pages that start at `start`.
pub open spec fn in_pages(va: int, start: int, n: int) -> bool {
    start <= va < start + n * (PAGE_SIZE as int) && (va - start) % (PAGE_SIZE as int) == 0
}

/// Number of whole pages in a range.
pub open spec fn pages_in(r: VirtualRange) -> nat {
    r.spec_size() / (PAGE_SIZE as nat)
}

/// The pages of `n` pages from `start` as a set of addresses.
pub open spec fn page_set(start: int, n: int) -> Set<usize> {
    Set::new(|va: usize| in_pages(va as int, start, n))
}

/// Leaf entries that map `n` pages from `vstart` onto the frames from `pstart`.
pub open spec fn mapping_of(vstart: int, pstart: int, n: int, flags: usize) -> Map<usize, usize> {
    Map::new(
        |va: usize| in_pages(va as int, vstart, n),
        |va: usize| spec_encode_entry((pstart + (va - vstart)) as usize, flags),
    )
}

/// Frames of the leaves among the first `n` pages from `start`, in page order.
pub open spec fn leaf_frames(m: Map<usize, usize>, start: int, n: nat) -> Seq<PhysicalAddress>
    decreases n,
{
    if n == 0 {
        Seq::empty()
    } else {
        let va = page_of(start, n - 1) as usize;
        leaf_frames(m, start, (n - 1) as nat) + if m.contains_key(va) {
            seq![PhysicalAddress(pte_phys(m[va]))]
        } else {
            Seq::empty()
        }
    }
}

/// `va` sign-extends the top bit of a virtual address of `levels` table levels.
pub open spec fn canonical(va: usize, levels: nat) -> bool {
    let s = (11 + 9 * levels) as u64;
    ((va as u64) >> s) == 0 || ((va as u64) >> s) == (u64::MAX >> s)
}

/// Flag bits that a leaf entry may carry: some of the eight, with read or execute.
pub open spec fn leaf_flags_ok(f: usize) -> bool {
    f < 256 && f & 0b1010 != 0
}

/// `virt` and `phys` are page aligned, of equal length, and `phys` is encodable.
pub open spec fn ranges_ok(virt: VirtualRange, phys: PhysicalRange) -> bool {
    &&& page_aligned(virt.start.0 as int)
    &&& page_aligned(virt.end.0 as int)
    &&& page_aligned(phys.start.0 as int)
    &&& virt.start.0 <= virt.end.0
    &&& phys.start.0 <= phys.end.0
    &&& phys.end.0 - phys.start.0 == virt.end.0 - virt.start.0
    &&& phys.end.0 < 0x100_0000_0000_0000
}

pub proof fn lemma_in_pages_step(va: int, start: int, k: int)
    requires
        k >= 0,
    ensures
        in_pages(va, start, k + 1) <==> (in_pages(va, start, k) || va == page_of(start, k)),
{
    let p = PAGE_SIZE as int;
    if va == page_of(start, k) {
        assert((k * p) % p == 0) by (nonlinear_arith)
            requires
                p == 4096,
        ;
        assert(k * p < (k + 1) * p) by (nonlinear_arith)
            requires
                p == 4096,
        ;
    }
    if in_pages(va, start, k + 1) && !in_pages(va, start, k) {
        let d = va - start;
        assert(d == k * p) by (nonlinear_arith)
            requires
                p == 4096,
                d % p == 0,
                k * p <= d,
                d < (k + 1) * p,
                0 <= d,
        ;
    }
    if in_pages(va, start, k) {
        assert(k * p < (k + 1) * p) by (nonlinear_arith)
            requires
                p == 4096,
        ;
    }
}

/// Page `k` of `n` pages from `start` lies inside them.
pub proof fn lemma_page_bounds(start: int, k: int, n: int)
    requires
        0 <= k < n,
    ensures
        start <= page_of(start, k),
        page_of(start, k) + PAGE_SIZE <= start + n * (PAGE_SIZE as int),
        in_pages(page_of(start, k), start, n),
{
    let p = PAGE_SIZE as int;
    assert((k + 1) * p <= n * p) by (nonlinear_arith)
        requires
            k + 1 <= n,
            p == 4096,
    ;
    assert((k * p) % p == 0) by (nonlinear_arith)
        requires
            p == 4096,
    ;
    assert(k * p >= 0) by (nonlinear_arith)
        requires
            p == 4096,
            k >= 0,
    ;
}

proof fn lemma_leaf_bits(p: usize, f: usize)
    requires
        encodable_frame(p),
        f < 256,
        f & 1 != 0,
        f & 0b1010 != 0,
    ensures
        entry_is_leaf(spec_encode_entry(p, f)),
{
    assert(((p >> 2usize) | f) & 1 != 0 && ((p >> 2usize) | f) & 10 != 0) by (bit_vector)
        requires
            f & 1 != 0,
            f & 10 != 0,
    ;
}

/// Adding the leaf of page `k` extends the mapping of the first `k` pages to `k + 1`.
proof fn lemma_mapping_step(
    m0: Map<usize, usize>,
    cur: Map<usize, usize>,
    vs: int,
    ps: int,
    k: int,
    f: usize,
    va: usize,
    entry: usize,
)
    requires
        k >= 0,
        cur == m0.union_prefer_right(mapping_of(vs, ps, k, f)),
        va == page_of(vs, k),
        entry == spec_encode_entry((ps + k * (PAGE_SIZE as int)) as usize, f),
    ensures
        cur.insert(va, entry) == m0.union_prefer_right(mapping_of(vs, ps, k + 1, f)),
{
    let next = m0.union_prefer_right(mapping_of(vs, ps, k + 1, f));
    assert forall|x: usize| #[trigger] cur.insert(va, entry).contains_key(x) == next.contains_key(x)
        && (cur.insert(va, entry).contains_key(x) ==> cur.insert(va, entry)[x] == next[x]) by {
        lemma_in_pages_step(x as int, vs, k);
    }
    assert(cur.insert(va, entry) =~= next);
}

/// The leaves of a well-formed table stay well formed when a well-formed leaf is added.
proof fn lemma_leaf_insert_keeps(m: Map<usize, usize>, va: usize, entry: usize, levels: nat)
    requires
        forall|x: usize|
            #![trigger m.contains_key(x)]
            m.contains_key(x) ==> {
                &&& page_aligned(x as int)
                &&& canonical(x, levels)
                &&& entry_is_leaf(m[x])
                &&& encodable_frame(pte_phys(m[x]))
            },
        page_aligned(va as int),
        canonical(va, levels),
        entry_is_leaf(entry),
        encodable_frame(pte_phys(entry)),
    ensures
        forall|x: usize|
            #![trigger m.insert(va, entry).contains_key(x)]
            m.insert(va, entry).contains_key(x) ==> {
                &&& page_aligned(x as int)
                &&& canonical(x, levels)
                &&& entry_is_leaf(m.insert(va, entry)[x])
                &&& encodable_frame(pte_phys(m.insert(va, entry)[x]))
            },
{
    assert forall|x: usize|
        #![trigger m.insert(va, entry).contains_key(x)]
        m.insert(va, entry).contains_key(x) implies {
            &&& page_aligned(x as int)
            &&& canonical(x, levels)
            &&& entry_is_leaf(m.insert(va, entry)[x])
            &&& encodable_frame(pte_phys(m.insert(va, entry)[x]))
        } by {
        if x != va {
            assert(m.contains_key(x));
        }
    }
}

/// What mapping `virt` onto `phys` with `flags` does, from mapper `m0`, allocator
/// `a0` and flush batch `f0` to `m1`, `a1` and `f1`, with result `r`. Each page
/// takes at most one frame per table level below the root; running out of
/// frames is the only failure left once the range is valid and free.
pub open spec fn map_post<A: FrameAllocator>(
    m0: Mapper,
    m1: Mapper,
    a0: A,
    a1: A,
    f0: Flush,
    f1: Flush,
    virt: VirtualRange,
    phys: PhysicalRange,
    flags: EntryFlags,
    r: Result<(), Error>,
) -> bool {
    let n = pages_in(virt) as int;
    let tables = n * (m0.spec_levels() - 1);
    &&& a1.frames_used() <= a0.frames_used() + tables
    &&& forall|x: int| #[trigger] a1.frame_free(x) ==> a0.frame_free(x)
    &&& r == Err::<(), Error>(Error::OutOfMemory) ==> (forall|x: int| !(#[trigger] a1.frame_free(x)))
        && a1.frames_used() + 1 <= a0.frames_used() + tables
    &&& {
                let n = pages_in(virt) as int;
                let valid = ranges_ok(virt, phys) && leaf_flags_ok(flags.bits);
                let free = forall|k: int|
                    0 <= k < n ==> canonical(page_of(virt.start.0 as int, k) as usize, m0.spec_levels())
                        && !m0.mappings().contains_key(page_of(virt.start.0 as int, k) as usize);
                &&& !valid ==> r == Err::<(), Error>(Error::InvalidRange)
                &&& valid && !free ==> exists|k: int|
                    0 <= k < n && ((!canonical(page_of(virt.start.0 as int, k) as usize, m0.spec_levels())
                        && r == Err::<(), Error>(
                        Error::VirtualAddressTooLarge(page_of(virt.start.0 as int, k) as usize),
                    )) || (m0.mappings().contains_key(page_of(virt.start.0 as int, k) as usize)
                        && r == Err::<(), Error>(
                        Error::VirtualAddressAlreadyMapped(page_of(virt.start.0 as int, k) as usize),
                    )))
                &&& valid && free ==> r is Ok || r == Err::<(), Error>(Error::OutOfMemory)
                &&& r is Ok ==> m1.mappings() == m0.mappings().union_prefer_right(
                    mapping_of(virt.start.0 as int, phys.start.0 as int, n, flags.bits | FLAG_VALID),
                )
                &&& r is Ok ==> f1.pending() == Some(
                    match f0.pending() {
                        Some(p) => cover(p, virt),
                        None => virt,
                    },
                )
                &&& r == Err::<(), Error>(Error::OutOfMemory) ==> exists|k: int|
                    0 <= k < n && m1.mappings() == m0.mappings().union_prefer_right(
                        mapping_of(virt.start.0 as int, phys.start.0 as int, k, flags.bits | FLAG_VALID),
                    )
                &&& (r is Err && r != Err::<(), Error>(Error::OutOfMemory)) ==> {
                    &&& m1.mappings() == m0.mappings()
                    &&& a1 == a0
                    &&& f1.pending() == f0.pending()
                }
            }
}

/// A frame-aligned word leaves room for every offset into its frame.
pub proof fn lemma_frame_offset_fits(a: usize)
    requires
        a & 0xfff == 0,
    ensures
        a + 4095 <= usize::MAX,
{
    assert(a % 4096 == 0) by (bit_vector)
        requires
            a & 0xfff == 0,
    ;
    assert(usize::MAX == 0xffff_ffff || usize::MAX == 0xffff_ffff_ffff_ffff);
    assert(a + 4095 <= usize::MAX) by (nonlinear_arith)
        requires
            a % 4096 == 0,
            a <= usize::MAX,
            usize::MAX == 0xffff_ffff || usize::MAX == 0xffff_ffff_ffff_ffff,
    ;
}

/// A page-table hierarchy of one address space: the tables below the root,
/// keyed by level and the part of the address that selects them, and the
/// leaf entries keyed by the page they map.
pub struct Mapper {
    asid: usize,
    root: PhysicalAddress,
    levels: usize,
    tables: HashMapWithView<usize, usize>,
    leaves: HashMapWithView<usize, usize>,
}

impl Mapper {
    /// Leaf entries by page address.
    pub closed spec fn mappings(&self) -> Map<usize, usize> {
        self.leaves@
    }

    pub closed spec fn spec_asid(&self) -> usize {
        self.asid
    }

    /// Physical address of the root table.
    pub closed spec fn spec_root(&self) -> PhysicalAddress {
        self.root
    }

    pub closed spec fn spec_levels(&self) -> nat {
        self.levels as nat
    }

    pub closed spec fn inv(&self) -> bool {
        &&& 3 <= self.levels <= 5
        &&& forall|va: usize|
            #![trigger self.leaves@.contains_key(va)]
            self.leaves@.contains_key(va) ==> {
                &&& page_aligned(va as int)
                &&& canonical(va, self.levels as nat)
                &&& entry_is_leaf(self.leaves@[va])
                &&& encodable_frame(pte_phys(self.leaves@[va]))
            }
    }

    /// An empty hierarchy for mode `M`; the root table takes one frame.
    pub fn new<M: Mode>(asid: usize, alloc: &mut impl FrameAllocator) -> (r: Result<Mapper, Error>)
        requires
            old(alloc).inv(),
        ensures
            final(alloc).inv(),
            final(alloc).layout() == old(alloc).layout(),
            match r {
                Ok(m) => {
                    &&& m.inv()
                    &&& m.mappings() == Map::<usize, usize>::empty()
                    &&& m.spec_asid() == asid
                    &&& m.spec_levels() == M::spec_levels()
                    &&& final(alloc).frames_used() == old(alloc).frames_used() + 1
                    &&& old(alloc).frame_free(m.spec_root().0 as int)
                    &&& !final(alloc).frame_free(m.spec_root().0 as int)
                },
                Err(e) => e == Error::OutOfMemory && final(alloc).frames_used()
                    == old(alloc).frames_used(),
            },
    {
        let root = match alloc.allocate_frames(1) {
            Ok(a) => a,
            Err(e) => {
                return Err(e);
            },
        };
        proof {
            assert(old(alloc).frame_free(root.0 + 0 * PAGE_SIZE));
            assert(!alloc.frame_free(root.0 + 0 * PAGE_SIZE));
        }
        Ok(Mapper {
            asid,
            root,
            levels: M::page_table_levels(),
            tables: HashMapWithView::new(),
            leaves: HashMapWithView::new(),
        })
    }

    pub fn asid(&self) -> (r: usize)
        ensures
            r == self.spec_asid(),
    {
        self.asid
    }

    /// Physical address of the root table.
    pub fn root_table(&self) -> (r: PhysicalAddress)
        ensures
            r == self.spec_root(),
    {
        self.root
    }

    pub fn is_canonical(&self, va: usize) -> (r: bool)
        requires
            self.inv(),
        ensures
            r == canonical(va, self.spec_levels()),
    {
        let s: u64 = 11 + 9 * self.levels as u64;
        ((va as u64) >> s) == 0 || ((va as u64) >> s) == (u64::MAX >> s)
    }

    /// The leaf entry that maps the page at `va`, if any.
    pub fn leaf(&self, va: usize) -> (r: Option<usize>)
        ensures
            r == (if self.mappings().contains_key(va) {
                Some(self.mappings()[va])
            } else {
                None::<usize>
            }),
    {
        match self.leaves.get(&va) {
            Some(e) => Some(*e),
            None => None,
        }
    }

    /// Creates the missing tables on the way from the root to the leaf of `va`,
    /// from the top level down.
    fn ensure_tables<A: FrameAllocator>(&mut self, alloc: &mut A, va: usize) -> (r: Result<(), Error>)
        requires
            old(self).inv(),
            old(alloc).inv(),
        ensures
            final(self).inv(),
            final(alloc).inv(),
            final(alloc).layout() == old(alloc).layout(),
            final(self).mappings() == old(self).mappings(),
            final(self).spec_asid() == old(self).spec_asid(),
            final(self).spec_levels() == old(self).spec_levels(),
            final(alloc).frames_used() >= old(alloc).frames_used(),
            final(alloc).frames_total() == old(alloc).frames_total(),
            final(alloc).frames_used() + 1 <= old(alloc).frames_used() + old(self).spec_levels(),
            forall|x: int| #[trigger] final(alloc).frame_free(x) ==> old(alloc).frame_free(x),
            r is Err ==> r == Err::<(), Error>(Error::OutOfMemory),
            r is Err ==> forall|x: int| !(#[trigger] final(alloc).frame_free(x)),
            r is Err ==> final(alloc).frames_used() + 2 <= old(alloc).frames_used() + old(self).spec_levels(),
    {
        let mut l: usize = self.levels - 1;
        while l > 0
            invariant
                self.inv(),
                alloc.inv(),
                alloc.layout() == old(alloc).layout(),
                self.mappings() == old(self).mappings(),
                self.asid == old(self).asid,
                self.levels == old(self).levels,
                alloc.frames_used() >= old(alloc).frames_used(),
                alloc.frames_used() + l + 1 <= old(alloc).frames_used() + self.levels,
                alloc.frames_total() == old(alloc).frames_total(),
                forall|x: int| #[trigger] alloc.frame_free(x) ==> old(alloc).frame_free(x),
                l < self.levels,
            decreases l,
        {
            l = l - 1;
            let key = ((((va as u64) >> (21 + 9 * l as u64)) << 3u64) | l as u64) as usize;
            if !self.tables.contains_key(&key) {
                match alloc.allocate_frames(1) {
                    Ok(frame) => {
                        self.tables.insert(key, frame.0);
                    },
                    Err(e) => {
                        return Err(e);
                    },
                }
            }
        }
        Ok(())
    }

    /// Maps the pages of `virt` onto the frames of `phys` with `flags`, creating
    /// tables as needed, and records `virt` in `flush`. A page that is already
    /// mapped is an error, never overwritten.
    #[verifier::rlimit(80)]
    #[verifier::spinoff_prover]
    pub fn map_range<A: FrameAllocator>(
        &mut self,
        alloc: &mut A,
        virt: VirtualRange,
        phys: PhysicalRange,
        flags: EntryFlags,
        flush: &mut Flush,
    ) -> (r: Result<(), Error>)
        requires
            old(self).inv(),
            old(alloc).inv(),
            old(flush).spec_asid() == old(self).spec_asid(),
        ensures
            final(self).inv(),
            final(alloc).inv(),
            final(alloc).layout() == old(alloc).layout(),
            final(self).spec_asid() == old(self).spec_asid(),
            final(self).spec_levels() == old(self).spec_levels(),
            final(flush).spec_asid() == old(flush).spec_asid(),
            final(alloc).frames_used() >= old(alloc).frames_used(),
            final(alloc).frames_total() == old(alloc).frames_total(),
            map_post(*old(self), *final(self), *old(alloc), *final(alloc), *old(flush), *final(flush), virt, phys, flags, r),
    {
        let vs = virt.start.0;
        let ps = phys.start.0;
        if vs % PAGE_SIZE != 0 || virt.end.0 % PAGE_SIZE != 0 || ps % PAGE_SIZE != 0 || vs
            > virt.end.0 || ps > phys.end.0 || phys.end.0 - ps != virt.end.0 - vs || phys.end.0 as u64
            >= 0x100_0000_0000_0000u64 || flags.bits >= 256 || flags.bits & 0b1010 == 0 {
            return Err(Error::InvalidRange);
        }
        let n = (virt.end.0 - vs) / PAGE_SIZE;
        proof {
            assert(n * PAGE_SIZE <= virt.end.0 - vs) by (nonlinear_arith)
                requires
                    n == (virt.end.0 - vs) / (PAGE_SIZE as int),
            ;
        }
        let mut k: usize = 0;
        while k < n
            invariant
                k <= n,
                n == pages_in(virt),
                n * PAGE_SIZE <= virt.end.0 - vs,
                vs == virt.start.0,
                vs <= virt.end.0,
                ranges_ok(virt, phys),
                leaf_flags_ok(flags.bits),
                self.inv(),
                alloc.inv(),
                *self == *old(self),
                *alloc == *old(alloc),
                *flush == *old(flush),
                forall|j: int|
                    0 <= j < k ==> canonical(page_of(vs as int, j) as usize, self.spec_levels())
                        && !self.mappings().contains_key(page_of(vs as int, j) as usize),
            decreases n - k,
        {
            proof {
                lemma_page_bounds(vs as int, k as int, n as int);
            }
            let va = vs + k * PAGE_SIZE;
            if !self.is_canonical(va) {
                return Err(Error::VirtualAddressTooLarge(va));
            }
            if self.leaves.contains_key(&va) {
                return Err(Error::VirtualAddressAlreadyMapped(va));
            }
            k += 1;
        }
        let leaf_flags = flags.bits | FLAG_VALID;
        proof {
            let f = flags.bits;
            assert(f < 256 && f & 10 != 0 ==> (f | 1) < 256 && (f | 1) & 1 != 0 && (f | 1) & 10
                != 0) by (bit_vector);
            assert(leaf_flags == f | 1);
        }
        let ghost m0 = self.mappings();
        let ghost u0 = old(alloc).frames_used() as int;
        let mut k: usize = 0;
        while k < n
            invariant
                u0 == old(alloc).frames_used(),
                k <= n,
                n == pages_in(virt),
                n * PAGE_SIZE <= virt.end.0 - vs,
                n * PAGE_SIZE <= phys.end.0 - ps,
                vs == virt.start.0,
                ps == phys.start.0,
                ps % PAGE_SIZE == 0,
                vs % PAGE_SIZE == 0,
                phys.end.0 < 0x100_0000_0000_0000,
                ranges_ok(virt, phys),
                leaf_flags_ok(flags.bits),
                leaf_flags == flags.bits | FLAG_VALID,
                leaf_flags < 256,
                leaf_flags & 1 != 0,
                leaf_flags & 0b1010 != 0,
                flush.spec_asid() == self.asid,
                *flush == *old(flush),
                self.inv(),
                alloc.inv(),
                alloc.layout() == old(alloc).layout(),
                alloc.frames_used() >= old(alloc).frames_used(),
                alloc.frames_used() <= u0 + k * (self.levels - 1),
                alloc.frames_total() == old(alloc).frames_total(),
                forall|x: int| #[trigger] alloc.frame_free(x) ==> old(alloc).frame_free(x),
                self.asid == old(self).asid,
                self.levels == old(self).levels,
                m0 == old(self).mappings(),
                forall|j: int|
                    0 <= j < n ==> canonical(page_of(vs as int, j) as usize, self.spec_levels())
                        && !m0.contains_key(page_of(vs as int, j) as usize),
                self.mappings() == m0.union_prefer_right(
                    mapping_of(vs as int, ps as int, k as int, leaf_flags),
                ),
            decreases n - k,
        {
            proof {
                lemma_page_bounds(vs as int, k as int, n as int);
            }
            let va = vs + k * PAGE_SIZE;
            let pa = ps + k * PAGE_SIZE;
            let ghost used_before = alloc.frames_used();
            match self.ensure_tables(alloc, va) {
                Ok(()) => {},
                Err(e) => {
                    let ghost u = alloc.frames_used() as int;
                    let ghost lv = self.levels as int;
                    assert(u + 1 <= u0 + n * (lv - 1)) by (nonlinear_arith)
                        requires
                            u + 2 <= used_before + lv,
                            used_before <= u0 + k * (lv - 1),
                            k < n,
                            lv >= 3,
                    ;
                    assert(self.mappings() == old(self).mappings().union_prefer_right(
                        mapping_of(virt.start.0 as int, phys.start.0 as int, k as int, flags.bits | FLAG_VALID)));
                    return Err(e);
                },
            }
            proof {
                assert(pa & 0xfff == 0) by (bit_vector)
                    requires
                        pa % 4096 == 0,
                ;
                lemma_leaf_bits(pa, leaf_flags);
                assert(!self.mappings().contains_key(va)) by {
                    assert(!m0.contains_key(va));
                    assert(!in_pages(va as int, vs as int, k as int)) by {
                        if in_pages(va as int, vs as int, k as int) {
                            assert((k as int) * 4096 < (k as int) * 4096) by (nonlinear_arith)
                                requires
                                    va == vs + k * 4096,
                                    va < vs + k * 4096,
                            ;
                        }
                    };
                };
            }
            let entry = encode_entry(PhysicalAddress(pa), EntryFlags { bits: leaf_flags });
            let ghost old_leaves = self.leaves@;
            self.leaves.insert(va, entry);
            proof {
                lemma_mapping_step(m0, old_leaves, vs as int, ps as int, k as int, leaf_flags, va, entry);
                assert(page_aligned(va as int)) by (nonlinear_arith)
                    requires
                        va == vs + k * 4096,
                        vs % 4096 == 0,
                ;
                lemma_leaf_insert_keeps(old_leaves, va, entry, self.levels as nat);
                let ghost u = alloc.frames_used() as int;
                let ghost lv = self.levels as int;
                assert(u <= u0 + (k + 1) * (lv - 1)) by (nonlinear_arith)
                    requires
                        u + 1 <= used_before + lv,
                        used_before <= u0 + k * (lv - 1),
                ;
            }
            k += 1;
        }
        let _ = flush.extend_range(self.asid, virt);
        Ok(())
    }

    /// Maps the frames of `phys` at the same virtual addresses.
    pub fn identity_map_range<A: FrameAllocator>(
        &mut self,
        alloc: &mut A,
        phys: PhysicalRange,
        flags: EntryFlags,
        flush: &mut Flush,
    ) -> (r: Result<(), Error>)
        requires
            old(self).inv(),
            old(alloc).inv(),
            old(flush).spec_asid() == old(self).spec_asid(),
        ensures
            final(self).inv(),
            final(alloc).inv(),
            final(alloc).layout() == old(alloc).layout(),
            final(self).spec_asid() == old(self).spec_asid(),
            final(self).spec_levels() == old(self).spec_levels(),
            final(flush).spec_asid() == old(flush).spec_asid(),
            final(alloc).frames_used() >= old(alloc).frames_used(),
            final(alloc).frames_total() == old(alloc).frames_total(),
            map_post(
                *old(self),
                *final(self),
                *old(alloc),
                *final(alloc),
                *old(flush),
                *final(flush),
                vrange(phys.start.0 as int, phys.end.0 as int),
                phys,
                flags,
                r,
            ),
            r is Ok ==> final(self).mappings() == old(self).mappings().union_prefer_right(
                mapping_of(
                    phys.start.0 as int,
                    phys.start.0 as int,
                    (phys.spec_size() / (PAGE_SIZE as nat)) as int,
                    flags.bits | FLAG_VALID,
                ),
            ),
    {
        let virt = VirtualRange::new(phys.start.0, phys.end.0);
        self.map_range(alloc, virt, phys, flags, flush)
    }

    /// Clears the leaf entries of the pages of `virt` that have one and records
    /// `virt` in `flush`. Returns the frames that those entries pointed to, in
    /// page order, for their owner to release.
    #[verifier::rlimit(80)]
    #[verifier::spinoff_prover]
    pub fn unmap_range(&mut self, virt: VirtualRange, flush: &mut Flush) -> (r: Result<
        Vec<PhysicalAddress>,
        Error,
    >)
        requires
            old(self).inv(),
            old(flush).spec_asid() == old(self).spec_asid(),
        ensures
            final(self).inv(),
            final(self).spec_asid() == old(self).spec_asid(),
            final(self).spec_levels() == old(self).spec_levels(),
            final(flush).spec_asid() == old(flush).spec_asid(),
            ({
                let valid = page_aligned(virt.start.0 as int) && page_aligned(virt.end.0 as int)
                    && virt.start.0 <= virt.end.0;
                let n = pages_in(virt) as int;
                &&& !valid ==> r == Err::<Vec<PhysicalAddress>, Error>(Error::InvalidRange)
                    && final(self).mappings() == old(self).mappings()
                    && final(flush).pending() == old(flush).pending()
                &&& valid ==> r is Ok
                &&& r is Ok ==> final(self).mappings() == old(self).mappings().remove_keys(
                    page_set(virt.start.0 as int, n),
                )
                &&& r is Ok ==> r->Ok_0@ == leaf_frames(old(self).mappings(), virt.start.0 as int, n as nat)
                &&& r is Ok ==> final(flush).pending() == Some(
                    match old(flush).pending() {
                        Some(p) => cover(p, virt),
                        None => virt,
                    },
                )
            }),
    {
        let vs = virt.start.0;
        if vs % PAGE_SIZE != 0 || virt.end.0 % PAGE_SIZE != 0 || vs > virt.end.0 {
            return Err(Error::InvalidRange);
        }
        let n = (virt.end.0 - vs) / PAGE_SIZE;
        proof {
            assert(n * PAGE_SIZE <= virt.end.0 - vs) by (nonlinear_arith)
                requires
                    n == (virt.end.0 - vs) / (PAGE_SIZE as int),
            ;
        }
        let ghost m0 = self.mappings();
        let mut frames: Vec<PhysicalAddress> = Vec::new();
        let mut k: usize = 0;
        while k < n
            invariant
                k <= n,
                n == pages_in(virt),
                n * PAGE_SIZE <= virt.end.0 - vs,
                vs == virt.start.0,
                vs % PAGE_SIZE == 0,
                self.inv(),
                self.asid == old(self).asid,
                self.levels == old(self).levels,
                m0 == old(self).mappings(),
                self.mappings() == m0.remove_keys(page_set(vs as int, k as int)),
                frames@ == leaf_frames(m0, vs as int, k as nat),
                flush.spec_asid() == self.asid,
                *flush == *old(flush),
            decreases n - k,
        {
            proof {
                lemma_page_bounds(vs as int, k as int, n as int);
            }
            let va = vs + k * PAGE_SIZE;
            proof {
                assert(!page_set(vs as int, k as int).contains(va)) by {
                    if in_pages(va as int, vs as int, k as int) {
                        assert((k as int) * 4096 < (k as int) * 4096) by (nonlinear_arith)
                            requires
                                va == vs + k * 4096,
                                va < vs + k * 4096,
                        ;
                    }
                };
            }
            match self.leaves.remove(&va) {
                Some(e) => {
                    frames.push(entry_phys(e));
                },
                None => {},
            }
            proof {
                let next = page_set(vs as int, (k + 1) as int);
                assert forall|x: usize| #[trigger] next.contains(x) == (page_set(vs as int, k as int).contains(x) || x == va) by {
                    lemma_in_pages_step(x as int, vs as int, k as int);
                }
                assert(self.mappings() =~= m0.remove_keys(next));
                assert(frames@ =~= leaf_frames(m0, vs as int, (k + 1) as nat));
            }
            k += 1;
        }
        let _ = flush.extend_range(self.asid, virt);
        Ok(frames)
    }

    /// Rewrites the flags of the leaf entries of every page of `virt`, keeping the
    /// frames. Fails, changing nothing, if a page of `virt` has no leaf entry.
    #[verifier::rlimit(80)]
    #[verifier::spinoff_prover]
    pub fn update_flags(&mut self, virt: VirtualRange, flags: EntryFlags, flush: &mut Flush) -> (r:
        Result<(), Error>)
        requires
            old(self).inv(),
            old(flush).spec_asid() == old(self).spec_asid(),
        ensures
            final(self).inv(),
            final(self).spec_asid() == old(self).spec_asid(),
            final(self).spec_levels() == old(self).spec_levels(),
            final(flush).spec_asid() == old(flush).spec_asid(),
            ({
                let valid = page_aligned(virt.start.0 as int) && page_aligned(virt.end.0 as int)
                    && virt.start.0 <= virt.end.0 && leaf_flags_ok(flags.bits);
                let n = pages_in(virt) as int;
                let all_mapped = forall|k: int|
                    0 <= k < n ==> old(self).mappings().contains_key(page_of(virt.start.0 as int, k) as usize);
                &&& !valid ==> r == Err::<(), Error>(Error::InvalidRange)
                &&& valid && !all_mapped ==> exists|k: int|
                    0 <= k < n && !old(self).mappings().contains_key(page_of(virt.start.0 as int, k) as usize)
                        && r == Err::<(), Error>(Error::VirtualAddressNotMapped(page_of(virt.start.0 as int, k) as usize))
                &&& valid && all_mapped ==> r is Ok
                &&& r is Err ==> final(self).mappings() == old(self).mappings()
                    && final(flush).pending() == old(flush).pending()
                &&& r is Ok ==> final(self).mappings() == Map::new(
                    |va: usize| old(self).mappings().contains_key(va),
                    |va: usize|
                        if in_pages(va as int, virt.start.0 as int, n) {
                            spec_encode_entry(pte_phys(old(self).mappings()[va]), flags.bits | FLAG_VALID)
                        } else {
                            old(self).mappings()[va]
                        },
                )
                &&& r is Ok ==> final(flush).pending() == Some(
                    match old(flush).pending() {
                        Some(p) => cover(p, virt),
                        None => virt,
                    },
                )
            }),
    {
        let vs = virt.start.0;
        if vs % PAGE_SIZE != 0 || virt.end.0 % PAGE_SIZE != 0 || vs > virt.end.0 || flags.bits
            >= 256 || flags.bits & 0b1010 == 0 {
            return Err(Error::InvalidRange);
        }
        let n = (virt.end.0 - vs) / PAGE_SIZE;
        proof {
            assert(n * PAGE_SIZE <= virt.end.0 - vs) by (nonlinear_arith)
                requires
                    n == (virt.end.0 - vs) / (PAGE_SIZE as int),
            ;
        }
        let mut k: usize = 0;
        while k < n
            invariant
                k <= n,
                n == pages_in(virt),
                n * PAGE_SIZE <= virt.end.0 - vs,
                vs == virt.start.0,
                vs % PAGE_SIZE == 0,
                page_aligned(virt.end.0 as int),
                leaf_flags_ok(flags.bits),
                self.inv(),
                *self == *old(self),
                *flush == *old(flush),
                forall|j: int| 0 <= j < k ==> self.mappings().contains_key(page_of(vs as int, j) as usize),
            decreases n - k,
        {
            proof {
                lemma_page_bounds(vs as int, k as int, n as int);
            }
            let va = vs + k * PAGE_SIZE;
            if !self.leaves.contains_key(&va) {
                return Err(Error::VirtualAddressNotMapped(va));
            }
            k += 1;
        }
        let leaf_flags = flags.bits | FLAG_VALID;
        proof {
            let f = flags.bits;
            assert(f < 256 && f & 10 != 0 ==> (f | 1) < 256 && (f | 1) & 1 != 0 && (f | 1) & 10
                != 0) by (bit_vector);
        }
        let ghost m0 = self.mappings();
        let mut k: usize = 0;
        while k < n
            invariant
                k <= n,
                n == pages_in(virt),
                n * PAGE_SIZE <= virt.end.0 - vs,
                vs == virt.start.0,
                vs % PAGE_SIZE == 0,
                leaf_flags == flags.bits | FLAG_VALID,
                leaf_flags < 256,
                leaf_flags & 1 != 0,
                leaf_flags & 0b1010 != 0,
                self.inv(),
                self.asid == old(self).asid,
                self.levels == old(self).levels,
                m0 == old(self).mappings(),
                forall|j: int| 0 <= j < n ==> m0.contains_key(page_of(vs as int, j) as usize),
                self.mappings() == Map::new(
                    |va: usize| m0.contains_key(va),
                    |va: usize|
                        if in_pages(va as int, vs as int, k as int) {
                            spec_encode_entry(pte_phys(m0[va]), leaf_flags)
                        } else {
                            m0[va]
                        },
                ),
                flush.spec_asid() == self.asid,
                *flush == *old(flush),
            decreases n - k,
        {
            proof {
                lemma_page_bounds(vs as int, k as int, n as int);
            }
            let va = vs + k * PAGE_SIZE;
            proof {
                assert(!in_pages(va as int, vs as int, k as int)) by {
                    if in_pages(va as int, vs as int, k as int) {
                        assert((k as int) * 4096 < (k as int) * 4096) by (nonlinear_arith)
                            requires
                                va == vs + k * 4096,
                                va < vs + k * 4096,
                        ;
                    }
                };
                assert(m0.contains_key(va));
            }
            let old_entry = *self.leaves.get(&va).unwrap();
            let frame = entry_phys(old_entry);
            proof {
                assert(entry_is_leaf(old_entry));
                assert(canonical(va, self.levels as nat));
                assert(page_aligned(va as int));
                assert(encodable_frame(pte_phys(old_entry)));
                lemma_leaf_bits(frame.0, leaf_flags);
            }
            let entry = encode_entry(frame, EntryFlags { bits: leaf_flags });
            self.leaves.insert(va, entry);
            proof {
                let next = Map::new(
                    |x: usize| m0.contains_key(x),
                    |x: usize|
                        if in_pages(x as int, vs as int, (k + 1) as int) {
                            spec_encode_entry(pte_phys(m0[x]), leaf_flags)
                        } else {
                            m0[x]
                        },
                );
                assert forall|x: usize| #[trigger] self.mappings().contains_key(x) == next.contains_key(x)
                    && (self.mappings().contains_key(x) ==> self.mappings()[x] == next[x]) by {
                    lemma_in_pages_step(x as int, vs as int, k as int);
                }
                assert(self.mappings() =~= next);
            }
            k += 1;
        }
        let _ = flush.extend_range(self.asid, virt);
        Ok(())
    }

    /// The physical address that `va` translates to.
    pub fn translate(&self, va: usize) -> (r: Option<PhysicalAddress>)
        requires
            self.inv(),
        ensures
            ({
                let page = (va - va % PAGE_SIZE) as usize;
                &&& self.mappings().contains_key(page) ==> r == Some(
                    PhysicalAddress((pte_phys(self.mappings()[page]) + va % PAGE_SIZE) as usize),
                )
                &&& !self.mappings().contains_key(page) ==> r is None
            }),
    {
        let page = va - va % PAGE_SIZE;
        match self.leaves.get(&page) {
            Some(e) => {
                let frame = entry_phys(*e);
                proof {
                    assert(encodable_frame(pte_phys(*e)));
                    lemma_frame_offset_fits(frame.0);
                }
                Some(PhysicalAddress(frame.0 + va % PAGE_SIZE))
            },
            None => None,
        }
    }

    /// Rewrites the flags of the leaf entry of the page at `va`, if it has one.
    pub fn update_page_flags(&mut self, va: usize, flags: EntryFlags) -> (r: bool)
        requires
            old(self).inv(),
            leaf_flags_ok(flags.bits),
        ensures
            final(self).inv(),
            final(self).spec_asid() == old(self).spec_asid(),
            final(self).spec_levels() == old(self).spec_levels(),
            r == old(self).mappings().contains_key(va),
            r ==> final(self).mappings() == old(self).mappings().insert(
                va,
                spec_encode_entry(pte_phys(old(self).mappings()[va]), flags.bits | FLAG_VALID),
            ),
            !r ==> final(self).mappings() == old(self).mappings(),
    {
        let old_entry = match self.leaves.get(&va) {
            Some(e) => *e,
            None => {
                return false;
            },
        };
        let leaf_flags = flags.bits | FLAG_VALID;
        proof {
            let f = flags.bits;
            assert(f < 256 && f & 10 != 0 ==> (f | 1) < 256 && (f | 1) & 1 != 0 && (f | 1) & 10
                != 0) by (bit_vector);
        }
        let frame = entry_phys(old_entry);
        proof {
            lemma_leaf_bits(frame.0, leaf_flags);
        }
        let entry = encode_entry(frame, EntryFlags { bits: leaf_flags });
        self.leaves.insert(va, entry);
        true
    }

    /// A hierarchy has three to five levels.
    pub proof fn lemma_levels(&self)
        requires
            self.inv(),
        ensures
            3 <= self.spec_levels() <= 5,
    {
    }

    /// Leaf entries are keyed by page-aligned addresses.
    pub proof fn lemma_key_aligned(&self, va: usize)
        requires
            self.inv(),
            self.mappings().contains_key(va),
        ensures
            page_aligned(va as int),
    {
    }
}

} // verus!
