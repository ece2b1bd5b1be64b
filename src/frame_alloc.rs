use crate::addr::{page_aligned, PhysicalAddress, PAGE_SIZE};
use crate::error::Error;
use vstd::prelude::*;

verus! {

/// How many physical frames are in use, and how many the allocator manages.
#[derive(Debug, Clone, Copy, PartialEq, Eq, Structural)]
pub struct FrameUsage {
    pub used: usize,
    pub total: usize,
}

/// Address `x` lies in the run of `n` frames that starts at `a`.
pub open spec fn in_run(x: int, a: int, n: int) -> bool {
    a <= x < a + n * (PAGE_SIZE as int)
}

/// Addresses that a page-table entry can hold: below 2^56.
pub open spec fn below_frame_limit(x: int) -> bool {
    x < 0x100_0000_0000_0000
}

/// The common contract of the frame allocation strategies.
pub trait FrameAllocator {
    spec fn inv(&self) -> bool;

    /// Frames currently handed out.
    spec fn frames_used(&self) -> nat;

    /// Frames under management.
    spec fn frames_total(&self) -> nat;

    /// Where the managed memory lies; no call changes it.
    spec fn layout(&self) -> int;

    /// The frame that starts at `x` can be handed out.
    spec fn frame_free(&self, x: int) -> bool;

    /// Handing back the run of `n` frames at `a` is allowed.
    spec fn can_free(&self, a: int, n: int) -> bool;

    /// Allocates `frames` physically contiguous frames and returns the first one.
    /// The run was free and no longer is; no other frame becomes free.
    fn allocate_frames(&mut self, frames: usize) -> (r: Result<PhysicalAddress, Error>)
        requires
            old(self).inv(),
        ensures
            final(self).inv(),
            final(self).frames_total() == old(self).frames_total(),
            final(self).layout() == old(self).layout(),
            r is Ok ==> final(self).frames_used() == old(self).frames_used() + frames,
            r is Ok ==> page_aligned(r->Ok_0.0 as int) && below_frame_limit(r->Ok_0.0 + frames * PAGE_SIZE),
            r is Ok ==> r->Ok_0.0 + frames * PAGE_SIZE <= usize::MAX,
            r is Ok ==> forall|k: int|
                0 <= k < frames ==> #[trigger] old(self).frame_free(r->Ok_0.0 + k * PAGE_SIZE)
                    && !final(self).frame_free(r->Ok_0.0 + k * PAGE_SIZE),
            r is Ok ==> forall|x: int| #[trigger] final(self).frame_free(x) ==> old(self).frame_free(x)
                && !in_run(x, r->Ok_0.0 as int, frames as int),
            r is Err ==> r == Err::<PhysicalAddress, Error>(Error::OutOfMemory),
            r is Err ==> final(self).frames_used() == old(self).frames_used(),
            r is Err ==> forall|x: int| #[trigger] final(self).frame_free(x) == old(self).frame_free(x),
            r is Err && frames == 1 ==> forall|x: int| !(#[trigger] old(self).frame_free(x)),
    ;

    /// Hands back `frames` frames starting at `base`; where that is allowed it
    /// succeeds and the run becomes free.
    fn deallocate_frames(&mut self, base: PhysicalAddress, frames: usize) -> (r: Result<(), Error>)
        requires
            old(self).inv(),
        ensures
            final(self).inv(),
            final(self).frames_total() == old(self).frames_total(),
            final(self).layout() == old(self).layout(),
            old(self).can_free(base.0 as int, frames as int) <==> r is Ok,
            r is Ok ==> old(self).frames_used() >= frames && final(self).frames_used()
                == old(self).frames_used() - frames,
            r is Ok ==> forall|x: int| #[trigger] final(self).frame_free(x) == (old(self).frame_free(x)
                || (in_run(x, base.0 as int, frames as int) && page_aligned(x - base.0))),
            r is Err ==> final(self).frames_used() == old(self).frames_used(),
            r is Err ==> forall|x: int| #[trigger] final(self).frame_free(x) == old(self).frame_free(x),
    ;

    /// The number of frames used and available.
    fn frame_usage(&self) -> (r: FrameUsage)
        requires
            self.inv(),
        ensures
            r.used == self.frames_used(),
            r.total == self.frames_total(),
    ;

    /// Allocates one frame, which was free; fails only where no frame is free,
    /// and then changes nothing.
    fn allocate_frame(&mut self) -> (r: Result<PhysicalAddress, Error>)
        requires
            old(self).inv(),
        ensures
            final(self).inv(),
            final(self).frames_total() == old(self).frames_total(),
            final(self).layout() == old(self).layout(),
            r is Ok ==> final(self).frames_used() == old(self).frames_used() + 1,
            r is Ok ==> page_aligned(r->Ok_0.0 as int),
            r is Ok ==> old(self).frame_free(r->Ok_0.0 as int) && !final(self).frame_free(r->Ok_0.0 as int),
            r is Ok ==> forall|x: int| #[trigger] final(self).frame_free(x) ==> old(self).frame_free(x)
                && x != r->Ok_0.0,
            r is Err ==> r == Err::<PhysicalAddress, Error>(Error::OutOfMemory),
            r is Err ==> final(self).frames_used() == old(self).frames_used(),
            r is Err ==> forall|x: int| #[trigger] final(self).frame_free(x) == old(self).frame_free(x),
            r is Err ==> forall|x: int| !(#[trigger] old(self).frame_free(x)),
    {
        let r = self.allocate_frames(1);
        proof {
            if r is Ok {
                let a = r->Ok_0.0 as int;
                assert(old(self).frame_free(a + 0 * PAGE_SIZE));
                assert forall|x: int| #[trigger] final(self).frame_free(x) implies old(self).frame_free(x)
                    && x != a by {
                    assert(!in_run(x, a, 1));
                }
            }
        }
        r
    }

    /// Hands back the frame at `base`; where that is allowed it succeeds.
    fn deallocate_frame(&mut self, base: PhysicalAddress) -> (r: Result<(), Error>)
        requires
            old(self).inv(),
        ensures
            final(self).inv(),
            final(self).frames_total() == old(self).frames_total(),
            final(self).layout() == old(self).layout(),
            old(self).can_free(base.0 as int, 1) <==> r is Ok,
            r is Ok ==> old(self).frames_used() >= 1 && final(self).frames_used() == old(self).frames_used() - 1,
            r is Err ==> final(self).frames_used() == old(self).frames_used(),
            r is Err ==> forall|x: int| #[trigger] final(self).frame_free(x) == old(self).frame_free(x),
    {
        self.deallocate_frames(base, 1)
    }
}

/// Number of `true` entries of `s`.
pub open spec fn count_used(s: Seq<bool>) -> nat
    decreases s.len(),
{
    if s.len() == 0 {
        0
    } else {
        count_used(s.drop_last()) + (if s.last() {
            1nat
        } else {
            0nat
        })
    }
}

/// Entries `i .. i + n` of `s` exist and are all free.
pub open spec fn run_free(s: Seq<bool>, i: int, n: int) -> bool {
    0 <= i && i + n <= s.len() && forall|j: int| i <= j < i + n ==> !s[j]
}

/// Entries `i .. i + n` of `s` exist and are all in use.
pub open spec fn run_used(s: Seq<bool>, i: int, n: int) -> bool {
    0 <= i && i + n <= s.len() && forall|j: int| i <= j < i + n ==> s[j]
}

/// `s` with entries `i .. i + n` set to `v`.
pub open spec fn with_run(s: Seq<bool>, i: int, n: int, v: bool) -> Seq<bool> {
    Seq::new(s.len(), |j: int| if i <= j < i + n { v } else { s[j] })
}

/// `i` is the lowest index at which a free run of `n` entries starts.
pub open spec fn first_fit(s: Seq<bool>, n: int, i: int) -> bool {
    run_free(s, i, n) && forall|k: int| 0 <= k < i ==> !run_free(s, k, n)
}

/// Two runs of frames share no frame.
pub open spec fn runs_disjoint(i: int, n: int, k: int, m: int) -> bool {
    n <= 0 || m <= 0 || i + n <= k || k + m <= i
}

pub proof fn lemma_count_bound(s: Seq<bool>)
    ensures
        count_used(s) <= s.len(),
    decreases s.len(),
{
    if s.len() > 0 {
        lemma_count_bound(s.drop_last());
    }
}

pub proof fn lemma_count_update(s: Seq<bool>, j: int, v: bool)
    requires
        0 <= j < s.len(),
    ensures
        count_used(s.update(j, v)) + (if s[j] {
            1int
        } else {
            0int
        }) == count_used(s) + (if v {
            1int
        } else {
            0int
        }),
    decreases s.len(),
{
    let t = s.update(j, v);
    if j == s.len() - 1 {
        assert(t.drop_last() =~= s.drop_last());
    } else {
        lemma_count_update(s.drop_last(), j, v);
        assert(t.drop_last() =~= s.drop_last().update(j, v));
    }
}

/// The steady-state strategy: one bit per frame, first-fit runs.
pub struct BitMapAllocator {
    base: usize,
    bits: Vec<bool>,
    used: usize,
}

impl BitMapAllocator {
    /// Physical address of the first managed frame.
    pub closed spec fn base(&self) -> nat {
        self.base as nat
    }

    /// One entry per managed frame, `true` where the frame is allocated.
    pub closed spec fn frames(&self) -> Seq<bool> {
        self.bits@
    }

    /// Index of the frame that starts at `a`.
    pub open spec fn frame_index(&self, a: nat) -> int {
        (a - self.base()) / (PAGE_SIZE as int)
    }

    /// Physical address of frame `i`.
    pub open spec fn frame_addr(&self, i: int) -> int {
        self.base() + i * (PAGE_SIZE as int)
    }

    /// Manages `frames` frames starting at the page-aligned address `base`, all free.
    pub fn new(base: PhysicalAddress, frames: usize) -> (r: Self)
        requires
            page_aligned(base.0 as int),
            base.0 + frames * PAGE_SIZE <= usize::MAX,
            below_frame_limit(base.0 + frames * PAGE_SIZE),
        ensures
            r.inv(),
            r.base() == base.0,
            r.frames() == Seq::new(frames as nat, |i: int| false),
            r.frames_used() == 0,
            r.frames_total() == frames,
    {
        let bits = vec![false; frames];
        let r = BitMapAllocator { base: base.0, bits, used: 0 };
        proof {
            assert(r.bits@ =~= Seq::new(frames as nat, |i: int| false));
            lemma_all_free_count(r.bits@);
        }
        r
    }

    fn run_is_free(&self, i: usize, n: usize) -> (r: bool)
        requires
            i + n <= self.bits@.len(),
        ensures
            r == run_free(self.bits@, i as int, n as int),
    {
        let len = self.bits.len();
        proof {
            assert(i + n <= len);
        }
        let end = i + n;
        let mut j: usize = i;
        while j < end
            invariant
                end == i + n,
                i <= j <= i + n,
                i + n <= self.bits@.len(),
                forall|k: int| i <= k < j ==> !self.bits@[k],
            decreases i + n - j,
        {
            if self.bits[j] {
                return false;
            }
            j += 1;
        }
        true
    }

    fn set_run(&mut self, i: usize, n: usize, v: bool)
        requires
            old(self).inv(),
            v ==> run_free(old(self).bits@, i as int, n as int),
            !v ==> run_used(old(self).bits@, i as int, n as int),
        ensures
            final(self).inv(),
            final(self).base == old(self).base,
            final(self).bits@ == with_run(old(self).bits@, i as int, n as int, v),
            v ==> final(self).used == old(self).used + n,
            !v ==> final(self).used == old(self).used - n,
    {
        let ghost orig = self.bits@;
        let end = i + n;
        let mut j: usize = i;
        while j < end
            invariant
                end == i + n,
                i <= j <= i + n,
                i + n <= orig.len(),
                self.base == old(self).base,
                orig == old(self).bits@,
                self.bits@.len() == orig.len(),
                self.base + orig.len() * PAGE_SIZE <= usize::MAX,
                below_frame_limit(self.base + orig.len() * PAGE_SIZE),
                page_aligned(self.base as int),
                self.used == count_used(self.bits@),
                self.bits@ == with_run(orig, i as int, (j - i) as int, v),
                v ==> run_free(orig, i as int, n as int),
                !v ==> run_used(orig, i as int, n as int),
                v ==> self.used == old(self).used + (j - i),
                !v ==> self.used == old(self).used - (j - i),
                old(self).used == count_used(orig),
            decreases i + n - j,
        {
            proof {
                lemma_count_update(self.bits@, j as int, v);
                lemma_count_bound(self.bits@.update(j as int, v));
            }
            self.bits.set(j, v);
            if v {
                self.used = self.used + 1;
            } else {
                self.used = self.used - 1;
            }
            j += 1;
            proof {
                assert(self.bits@ =~= with_run(orig, i as int, (j - i) as int, v));
            }
        }
    }

    fn allocate_run(&mut self, frames: usize) -> (r: Result<PhysicalAddress, Error>)
        requires
            old(self).inv(),
        ensures
            final(self).inv(),
            final(self).base() == old(self).base(),
            final(self).layout() == old(self).layout(),
            match r {
                Ok(a) => {
                    let i = old(self).frame_index(a.0 as nat);
                    &&& a.0 == old(self).frame_addr(i)
                    &&& first_fit(old(self).frames(), frames as int, i)
                    &&& final(self).frames() == with_run(old(self).frames(), i, frames as int, true)
                },
                Err(e) => {
                    &&& e == Error::OutOfMemory
                    &&& forall|i: int| !run_free(old(self).frames(), i, frames as int)
                    &&& final(self).frames() == old(self).frames()
                },
            },
            r is Ok ==> final(self).frames_used() == old(self).frames_used() + frames,
            r is Ok ==> r->Ok_0.0 + frames * PAGE_SIZE <= usize::MAX,
            r is Ok ==> below_frame_limit(r->Ok_0.0 + frames * PAGE_SIZE),
            r is Ok ==> page_aligned(r->Ok_0.0 as int),
            r is Err ==> final(self).frames_used() == old(self).frames_used(),
    {
        let len = self.bits.len();
        if frames > len {
            return Err(Error::OutOfMemory);
        }
        let mut i: usize = 0;
        while i <= len - frames
            invariant
                self.inv(),
                self.bits@ == old(self).bits@,
                self.base == old(self).base,
                self.used == old(self).used,
                len == self.bits@.len(),
                frames <= len,
                i <= len - frames + 1,
                forall|k: int| 0 <= k < i ==> !run_free(self.bits@, k, frames as int),
            decreases len - frames + 1 - i,
        {
            if self.run_is_free(i, frames) {
                proof {
                    assert(i * PAGE_SIZE <= len * PAGE_SIZE) by (nonlinear_arith)
                        requires
                            i <= len,
                    ;
                    assert((i * PAGE_SIZE) / (PAGE_SIZE as int) == i) by (nonlinear_arith);
                    assert((i + frames) * PAGE_SIZE <= len * PAGE_SIZE) by (nonlinear_arith)
                        requires
                            i + frames <= len,
                    ;
                    assert(i * PAGE_SIZE + frames * PAGE_SIZE == (i + frames) * PAGE_SIZE) by (nonlinear_arith);
                    assert((self.base + i * PAGE_SIZE) % 4096 == 0) by (nonlinear_arith)
                        requires
                            self.base % 4096 == 0,
                    ;
                }
                self.set_run(i, frames, true);
                return Ok(PhysicalAddress(self.base + i * PAGE_SIZE));
            }
            i += 1;
        }
        Err(Error::OutOfMemory)
    }

    /// Allocates the first free run of `frames` frames.
    pub fn allocate_frames(&mut self, frames: usize) -> (r: Result<PhysicalAddress, Error>)
        requires
            old(self).inv(),
        ensures
            final(self).inv(),
            final(self).frames_total() == old(self).frames_total(),
            final(self).layout() == old(self).layout(),
            final(self).base() == old(self).base(),
            match r {
                Ok(a) => {
                    let i = old(self).frame_index(a.0 as nat);
                    &&& a.0 == old(self).frame_addr(i)
                    &&& first_fit(old(self).frames(), frames as int, i)
                    &&& final(self).frames() == with_run(old(self).frames(), i, frames as int, true)
                },
                Err(e) => {
                    &&& e == Error::OutOfMemory
                    &&& forall|i: int| !run_free(old(self).frames(), i, frames as int)
                    &&& final(self).frames() == old(self).frames()
                },
            },
            r is Ok ==> final(self).frames_used() == old(self).frames_used() + frames,
            r is Ok ==> r->Ok_0.0 + frames * PAGE_SIZE <= usize::MAX,
            r is Ok ==> below_frame_limit(r->Ok_0.0 + frames * PAGE_SIZE),
            r is Ok ==> page_aligned(r->Ok_0.0 as int),
            r is Err ==> final(self).frames_used() == old(self).frames_used(),
            r is Ok ==> forall|k: int|
                0 <= k < frames ==> #[trigger] old(self).frame_free(r->Ok_0.0 + k * PAGE_SIZE)
                    && !final(self).frame_free(r->Ok_0.0 + k * PAGE_SIZE),
            r is Ok ==> forall|x: int| #[trigger] final(self).frame_free(x) ==> old(self).frame_free(x)
                && !in_run(x, r->Ok_0.0 as int, frames as int),
            r is Err ==> forall|x: int| #[trigger] final(self).frame_free(x) == old(self).frame_free(x),
            r is Err && frames == 1 ==> forall|x: int| !(#[trigger] old(self).frame_free(x)),
    {
        let r = self.allocate_run(frames);
        proof {
            let base = old(self).base as int;
            if r is Ok {
                let a = r->Ok_0.0 as int;
                let i = old(self).frame_index(a as nat);
                assert(a == base + i * 4096);
                assert forall|k: int|
                    0 <= k < frames implies #[trigger] old(self).frame_free(a + k * PAGE_SIZE)
                        && !final(self).frame_free(a + k * PAGE_SIZE) by {
                    assert(a + k * 4096 == base + (i + k) * 4096) by (nonlinear_arith)
                        requires
                            a == base + i * 4096,
                    ;
                    assert((a + k * 4096 - base) / 4096 == i + k) by (nonlinear_arith)
                        requires
                            a + k * 4096 == base + (i + k) * 4096,
                    ;
                    assert((i + k) * 4096 >= 0) by (nonlinear_arith)
                        requires
                            i + k >= 0,
                    ;
                    assert((a + k * 4096 - base) % 4096 == 0) by (nonlinear_arith)
                        requires
                            a + k * 4096 == base + (i + k) * 4096,
                    ;
                }
                assert forall|x: int| #[trigger] final(self).frame_free(x) implies old(self).frame_free(x)
                    && !in_run(x, a, frames as int) by {
                    let j = (x - base) / 4096;
                    lemma_frame_of(base, x);
                    lemma_index_in_run(base, j, i, frames as int);
                }
            } else {
                if frames == 1 {
                    assert forall|x: int| !(#[trigger] old(self).frame_free(x)) by {
                        if old(self).frame_free(x) {
                            let j = (x - base) / 4096;
                            assert(run_free(old(self).bits@, j, 1));
                        }
                    }
                }
            }
        }
        r
    }


    /// Frees the run of `frames` frames that starts at `base`; every one of them
    /// must be allocated.
    pub fn deallocate_frames(&mut self, base: PhysicalAddress, frames: usize) -> (r: Result<(), Error>)
        requires
            old(self).inv(),
        ensures
            final(self).inv(),
            final(self).frames_total() == old(self).frames_total(),
            final(self).layout() == old(self).layout(),
            final(self).base() == old(self).base(),
            ({
                let i = old(self).frame_index(base.0 as nat);
                let ok = base.0 >= old(self).base() && page_aligned(base.0 - old(self).base())
                    && run_used(old(self).frames(), i, frames as int);
                &&& r is Ok <==> ok
                &&& ok ==> final(self).frames() == with_run(old(self).frames(), i, frames as int, false)
                &&& !ok ==> r == Err::<(), Error>(Error::FrameNotAllocated(base.0))
                &&& !ok ==> final(self).frames() == old(self).frames()
            }),
            r is Ok ==> old(self).frames_used() >= frames && final(self).frames_used()
                == old(self).frames_used() - frames,
            r is Err ==> final(self).frames_used() == old(self).frames_used(),
    {
        if base.0 < self.base || (base.0 - self.base) % PAGE_SIZE != 0 {
            return Err(Error::FrameNotAllocated(base.0));
        }
        let i = (base.0 - self.base) / PAGE_SIZE;
        let len = self.bits.len();
        if i > len || frames > len - i {
            return Err(Error::FrameNotAllocated(base.0));
        }
        let mut j: usize = i;
        while j < i + frames
            invariant
                i <= j <= i + frames,
                i + frames <= len == self.bits@.len(),
                self.bits@ == old(self).bits@,
                self.base == old(self).base,
                self.used == old(self).used,
                self.inv(),
                base.0 >= self.base,
                (base.0 - self.base) % (PAGE_SIZE as int) == 0,
                i == (base.0 - self.base) / (PAGE_SIZE as int),
                forall|k: int| i <= k < j ==> self.bits@[k],
            decreases i + frames - j,
        {
            if !self.bits[j] {
                return Err(Error::FrameNotAllocated(base.0));
            }
            j += 1;
        }
        proof {
            lemma_run_count(self.bits@, i as int, frames as int);
        }
        self.set_run(i, frames, false);
        Ok(())
    }

    /// The number of frames used and managed.
    pub fn frame_usage(&self) -> (r: FrameUsage)
        requires
            self.inv(),
        ensures
            r.used == self.frames_used(),
            r.total == self.frames_total(),
    {
        FrameUsage { used: self.used, total: self.bits.len() }
    }
}

proof fn lemma_all_free_count(s: Seq<bool>)
    requires
        forall|i: int| 0 <= i < s.len() ==> !s[i],
    ensures
        count_used(s) == 0,
    decreases s.len(),
{
    if s.len() > 0 {
        lemma_all_free_count(s.drop_last());
    }
}

proof fn lemma_all_used_count(s: Seq<bool>)
    requires
        forall|i: int| 0 <= i < s.len() ==> s[i],
    ensures
        count_used(s) == s.len(),
    decreases s.len(),
{
    if s.len() > 0 {
        lemma_all_used_count(s.drop_last());
    }
}

/// An allocator with no free frame has every frame in use.
pub proof fn lemma_none_free_all_used(a: BitMapAllocator)
    requires
        a.inv(),
        forall|x: int| !(#[trigger] a.frame_free(x)),
    ensures
        a.frames_used() == a.frames_total(),
{
    let b = a.base as int;
    assert forall|j: int| 0 <= j < a.bits@.len() implies a.bits@[j] by {
        let x = b + j * 4096;
        assert((x - b) / 4096 == j && (x - b) % 4096 == 0) by (nonlinear_arith)
            requires
                x == b + j * 4096,
        ;
        assert(!a.frame_free(x));
    }
    lemma_all_used_count(a.bits@);
}

/// The layout of a bitmap allocator is its first frame.
pub proof fn lemma_base_is_layout(a: BitMapAllocator)
    ensures
        a.base() == a.layout(),
{
}

/// The frames under management are the entries of the bitmap.
pub proof fn lemma_total_is_len(a: BitMapAllocator)
    ensures
        a.frames_total() == a.frames().len(),
{
}

/// A run that was handed out and none of whose frames is free is still allocated.
pub proof fn lemma_run_still_used(a: BitMapAllocator, i: int, n: int)
    requires
        a.inv(),
        0 <= i,
        i + n <= a.frames().len(),
        forall|k: int| 0 <= k < n ==> !(#[trigger] a.frame_free(a.frame_addr(i) + k * PAGE_SIZE)),
    ensures
        run_used(a.frames(), i, n),
{
    let b = a.base as int;
    assert forall|j: int| i <= j < i + n implies a.bits@[j] by {
        let k = j - i;
        let x = a.frame_addr(i) + k * PAGE_SIZE;
        assert(x == b + j * 4096 && (x - b) / 4096 == j && (x - b) % 4096 == 0) by (nonlinear_arith)
            requires
                x == b + i * 4096 + k * 4096,
                k == j - i,
        ;
        assert(!a.frame_free(x));
    }
}

/// A run of used entries is counted in full.
proof fn lemma_run_count(s: Seq<bool>, i: int, n: int)
    requires
        run_used(s, i, n),
    ensures
        count_used(s) >= n,
    decreases n,
{
    if n > 0 {
        let t = s.update(i + n - 1, false);
        lemma_count_update(s, i + n - 1, false);
        assert(run_used(t, i, n - 1));
        lemma_run_count(t, i, n - 1);
    }
}

/// Frame `j` from `base` lies in the run of `n` frames that starts at frame `i`.
proof fn lemma_index_in_run(base: int, j: int, i: int, n: int)
    requires
        n >= 0,
    ensures
        in_run(base + j * (PAGE_SIZE as int), base + i * (PAGE_SIZE as int), n) <==> (i <= j < i + n),
        page_aligned(base + j * (PAGE_SIZE as int) - (base + i * (PAGE_SIZE as int))),
{
    assert(in_run(base + j * 4096, base + i * 4096, n) <==> (i <= j < i + n)) by (nonlinear_arith)
        requires
            n >= 0,
    ;
    assert((j * 4096 - i * 4096) % 4096 == 0) by (nonlinear_arith);
}

/// An address at a whole number of frames from `base` is `base` plus its index.
proof fn lemma_frame_of(base: int, x: int)
    requires
        x >= base,
        (x - base) % (PAGE_SIZE as int) == 0,
    ensures
        x == base + ((x - base) / (PAGE_SIZE as int)) * (PAGE_SIZE as int),
        (x - base) / (PAGE_SIZE as int) >= 0,
{
    assert(x == base + ((x - base) / 4096) * 4096) by (nonlinear_arith)
        requires
            (x - base) % 4096 == 0,
    ;
}

impl FrameAllocator for BitMapAllocator {
    closed spec fn inv(&self) -> bool {
        &&& page_aligned(self.base as int)
        &&& self.base + self.bits@.len() * PAGE_SIZE <= usize::MAX
        &&& below_frame_limit(self.base + self.bits@.len() * PAGE_SIZE)
        &&& self.used == count_used(self.bits@)
    }

    closed spec fn frames_used(&self) -> nat {
        count_used(self.bits@)
    }

    closed spec fn frames_total(&self) -> nat {
        self.bits@.len()
    }

    closed spec fn layout(&self) -> int {
        self.base as int
    }

    closed spec fn frame_free(&self, x: int) -> bool {
        let j = (x - self.base) / (PAGE_SIZE as int);
        &&& x >= self.base
        &&& (x - self.base) % (PAGE_SIZE as int) == 0
        &&& j < self.bits@.len()
        &&& !self.bits@[j]
    }

    closed spec fn can_free(&self, a: int, n: int) -> bool {
        &&& a >= self.base
        &&& page_aligned(a - self.base)
        &&& run_used(self.bits@, (a - self.base) / (PAGE_SIZE as int), n)
    }

    fn allocate_frames(&mut self, frames: usize) -> (r: Result<PhysicalAddress, Error>) {
        BitMapAllocator::allocate_frames(self, frames)
    }

    fn deallocate_frames(&mut self, base: PhysicalAddress, frames: usize) -> (r: Result<(), Error>) {
        let r = BitMapAllocator::deallocate_frames(self, base, frames);
        proof {
            let b0 = old(self).base as int;
            if r is Ok {
                let i = (base.0 - b0) / 4096;
                lemma_frame_of(b0, base.0 as int);
                assert forall|x: int| #[trigger] final(self).frame_free(x) == (old(self).frame_free(x)
                    || (in_run(x, base.0 as int, frames as int) && page_aligned(x - base.0))) by {
                    if x >= b0 && (x - b0) % 4096 == 0 {
                        let j = (x - b0) / 4096;
                        lemma_frame_of(b0, x);
                        lemma_index_in_run(b0, j, i, frames as int);
                    } else if in_run(x, base.0 as int, frames as int) && page_aligned(x - base.0) {
                        assert((x - b0) % 4096 == 0) by (nonlinear_arith)
                            requires
                                (x - base.0) % 4096 == 0,
                                (base.0 - b0) % 4096 == 0,
                        ;
                    }
                }
            }
        }
        r
    }

    fn frame_usage(&self) -> (r: FrameUsage) {
        BitMapAllocator::frame_usage(self)
    }
}

/// Frames in the runs of `live`, each given as (first frame, number of frames).
pub open spec fn live_total(live: Seq<(int, int)>) -> int
    decreases live.len(),
{
    if live.len() == 0 {
        0
    } else {
        live_total(live.drop_last()) + live.last().1
    }
}

/// A first-fit run that the allocator hands out never overlaps a run that is
/// still allocated: if frames `i .. i + n` are in use in `s`, the run `k .. k + m`
/// that `allocate_frames(m)` picks in `s` shares no frame with them.
pub proof fn lemma_allocation_exclusive(s: Seq<bool>, i: int, n: int, k: int, m: int)
    requires
        run_used(s, i, n),
        first_fit(s, m, k),
    ensures
        runs_disjoint(i, n, k, m),
{
    if !runs_disjoint(i, n, k, m) {
        let j = if i > k { i } else { k };
        assert(s[j]);
        assert(!s[j]);
    }
}

/// Clearing a run that is in use lowers the count by its length.
pub proof fn lemma_count_clear_run(s: Seq<bool>, i: int, n: int)
    requires
        run_used(s, i, n),
        n >= 0,
    ensures
        count_used(with_run(s, i, n, false)) + n == count_used(s),
    decreases n,
{
    if n == 0 {
        assert(with_run(s, i, 0, false) =~= s);
    } else {
        lemma_count_clear_run(s, i, n - 1);
        let t = with_run(s, i, n - 1, false);
        assert(t[i + n - 1]);
        lemma_count_update(t, i + n - 1, false);
        assert(t.update(i + n - 1, false) =~= with_run(s, i, n, false));
    }
}

/// The frames in use are exactly those of the live allocations: where `live`
/// lists pairwise disjoint runs that are all in use, and every frame in use
/// belongs to one of them, the count of frames in use is the sum of their lengths.
pub proof fn lemma_usage_is_sum_of_live(s: Seq<bool>, live: Seq<(int, int)>)
    requires
        forall|a: int| 0 <= a < live.len() ==> #[trigger] live[a].1 >= 0 && run_used(s, live[a].0, live[a].1),
        forall|a: int, b: int|
            0 <= a < b < live.len() ==> runs_disjoint(#[trigger] live[a].0, live[a].1, #[trigger] live[b].0, live[b].1),
        forall|j: int|
            0 <= j < s.len() && #[trigger] s[j] ==> exists|a: int|
                0 <= a < live.len() && live[a].0 <= j < live[a].0 + #[trigger] live[a].1,
    ensures
        count_used(s) == live_total(live),
    decreases live.len(),
{
    if live.len() == 0 {
        assert forall|j: int| 0 <= j < s.len() implies !s[j] by {
            if s[j] {
                let a = choose|a: int| 0 <= a < live.len() && live[a].0 <= j < live[a].0 + #[trigger] live[a].1;
            }
        }
        lemma_none_used(s);
    } else {
        let (i, n) = live.last();
        let rest = live.drop_last();
        let t = with_run(s, i, n, false);
        assert(run_used(s, i, n)) by {
            assert(live[live.len() - 1] == (i, n));
        }
        lemma_count_clear_run(s, i, n);
        assert forall|a: int| 0 <= a < rest.len() implies #[trigger] rest[a].1 >= 0 && run_used(t, rest[a].0, rest[a].1) by {
            assert(rest[a] == live[a]);
            assert(runs_disjoint(live[a].0, live[a].1, live[live.len() - 1].0, live[live.len() - 1].1));
        }
        assert forall|a: int, b: int|
            0 <= a < b < rest.len() implies runs_disjoint(#[trigger] rest[a].0, rest[a].1, #[trigger] rest[b].0, rest[b].1) by {
            assert(rest[a] == live[a] && rest[b] == live[b]);
        }
        assert forall|j: int|
            0 <= j < t.len() && #[trigger] t[j] implies exists|a: int|
                0 <= a < rest.len() && rest[a].0 <= j < rest[a].0 + #[trigger] rest[a].1 by {
            assert(s[j]);
            let a = choose|a: int| 0 <= a < live.len() && live[a].0 <= j < live[a].0 + #[trigger] live[a].1;
            assert(a != live.len() - 1);
            assert(rest[a] == live[a]);
        }
        lemma_usage_is_sum_of_live(t, rest);
    }
}

proof fn lemma_none_used(s: Seq<bool>)
    requires
        forall|j: int| 0 <= j < s.len() ==> !s[j],
    ensures
        count_used(s) == 0,
{
    lemma_all_free_count(s);
}

/// Address of frame `k` of the run that starts at `base`.
pub open spec fn frame_of(base: int, k: int) -> int {
    base + k * (PAGE_SIZE as int)
}

/// Every frame of every run of `live`, each given as (first address, number of
/// frames), is in use in `a`.
pub open spec fn live_in<A: FrameAllocator>(a: A, live: Seq<(int, int)>) -> bool {
    forall|j: int, k: int|
        0 <= j < live.len() && 0 <= k < live[j].1 ==> !a.frame_free(#[trigger] frame_of(live[j].0, k))
}

/// The runs of `live` start on page boundaries and share no frame.
pub open spec fn live_disjoint(live: Seq<(int, int)>) -> bool {
    &&& forall|j: int| 0 <= j < live.len() ==> page_aligned(#[trigger] live[j].0)
    &&& forall|j: int, l: int|
        0 <= j < l < live.len() ==> addr_runs_disjoint(#[trigger] live[j], #[trigger] live[l])
}

/// Two runs, as (first address, number of frames), share no frame.
pub open spec fn addr_runs_disjoint(a: (int, int), b: (int, int)) -> bool {
    a.1 <= 0 || b.1 <= 0 || a.0 + a.1 * (PAGE_SIZE as int) <= b.0 || b.0 + b.1 * (PAGE_SIZE as int) <= a.0
}

proof fn lemma_overlap_frame(a: (int, int), b: (int, int))
    requires
        page_aligned(a.0),
        page_aligned(b.0),
        !addr_runs_disjoint(a, b),
    ensures
        exists|k: int, l: int|
            0 <= k < a.1 && 0 <= l < b.1 && #[trigger] frame_of(a.0, k) == #[trigger] frame_of(b.0, l),
{
    let x = if a.0 >= b.0 { a.0 } else { b.0 };
    let k = (x - a.0) / 4096;
    let l = (x - b.0) / 4096;
    assert(frame_of(a.0, k) == x && frame_of(b.0, l) == x && 0 <= k < a.1 && 0 <= l < b.1) by (nonlinear_arith)
        requires
            a.0 % 4096 == 0,
            b.0 % 4096 == 0,
            x == (if a.0 >= b.0 { a.0 } else { b.0 }),
            k == (x - a.0) / 4096,
            l == (x - b.0) / 4096,
            a.0 < b.0 + b.1 * 4096,
            b.0 < a.0 + a.1 * 4096,
            a.1 > 0,
            b.1 > 0,
            frame_of(a.0, k) == a.0 + k * 4096,
            frame_of(b.0, l) == b.0 + l * 4096,
    ;
}

/// Over any sequence of calls, an allocation keeps the live runs apart: where
/// `a0` holds the runs of `live` in use and `allocate_frames(n)` hands out the run
/// at `base` from `a1` on, the new run shares no frame with any live run, the
/// live runs stay in use, and so does the new one.
pub proof fn lemma_allocate_keeps_live<A: FrameAllocator>(a0: A, a1: A, live: Seq<(int, int)>, base: int, n: int)
    requires
        live_in(a0, live),
        live_disjoint(live),
        page_aligned(base),
        n >= 0,
        forall|k: int| 0 <= k < n ==> #[trigger] a0.frame_free(base + k * PAGE_SIZE),
        forall|k: int| 0 <= k < n ==> !(#[trigger] a1.frame_free(base + k * PAGE_SIZE)),
        forall|x: int| #[trigger] a1.frame_free(x) ==> a0.frame_free(x),
    ensures
        live_in(a1, live.push((base, n))),
        live_disjoint(live.push((base, n))),
{
    let l2 = live.push((base, n));
    assert forall|j: int, k: int| 0 <= j < l2.len() && 0 <= k < l2[j].1 implies !a1.frame_free(
        #[trigger] frame_of(l2[j].0, k),
    ) by {
        if j < live.len() {
            assert(l2[j] == live[j]);
            assert(!a0.frame_free(frame_of(live[j].0, k)));
        } else {
            assert(!a1.frame_free(base + k * PAGE_SIZE));
        }
    }
    assert forall|j: int, l: int| 0 <= j < l < l2.len() implies addr_runs_disjoint(#[trigger] l2[j], #[trigger] l2[l]) by {
        if l == live.len() {
            assert(l2[j] == live[j]);
            if !addr_runs_disjoint(l2[j], l2[l]) {
                lemma_overlap_frame(l2[j], l2[l]);
                let (k, m) = choose|k: int, m: int|
                    0 <= k < l2[j].1 && 0 <= m < l2[l].1 && #[trigger] frame_of(l2[j].0, k) == #[trigger] frame_of(l2[l].0, m);
                assert(!a0.frame_free(frame_of(live[j].0, k)));
                assert(a0.frame_free(base + m * PAGE_SIZE));
            }
        } else {
            assert(l2[j] == live[j] && l2[l] == live[l]);
        }
    }
    assert forall|j: int| 0 <= j < l2.len() implies page_aligned(#[trigger] l2[j].0) by {
        if j < live.len() {
            assert(l2[j] == live[j]);
        }
    }
}

/// Over any sequence of calls, handing back live run `i` keeps every other live
/// run in use.
pub proof fn lemma_deallocate_keeps_live<A: FrameAllocator>(a0: A, a1: A, live: Seq<(int, int)>, i: int)
    requires
        live_in(a0, live),
        live_disjoint(live),
        0 <= i < live.len(),
        forall|x: int| #[trigger] a1.frame_free(x) == (a0.frame_free(x) || (in_run(x, live[i].0, live[i].1)
            && page_aligned(x - live[i].0))),
    ensures
        live_in(a1, live.remove(i)),
        live_disjoint(live.remove(i)),
{
    let l2 = live.remove(i);
    assert forall|j: int, k: int| 0 <= j < l2.len() && 0 <= k < l2[j].1 implies !a1.frame_free(
        #[trigger] frame_of(l2[j].0, k),
    ) by {
        let j0 = if j < i { j } else { j + 1 };
        assert(l2[j] == live[j0]);
        let x = frame_of(live[j0].0, k);
        assert(!a0.frame_free(x));
        if in_run(x, live[i].0, live[i].1) && page_aligned(x - live[i].0) {
            let m = (x - live[i].0) / 4096;
            assert(frame_of(live[i].0, m) == x && 0 <= m < live[i].1) by (nonlinear_arith)
                requires
                    (x - live[i].0) % 4096 == 0,
                    live[i].0 <= x < live[i].0 + live[i].1 * 4096,
                    m == (x - live[i].0) / 4096,
                    frame_of(live[i].0, m) == live[i].0 + m * 4096,
            ;
            assert(0 <= k < live[j0].1);
            let (lo, hi) = if j0 < i { (j0, i) } else { (i, j0) };
            assert(addr_runs_disjoint(live[lo], live[hi]));
            assert(frame_of(live[j0].0, k) == live[j0].0 + k * 4096);
            assert(false) by (nonlinear_arith)
                requires
                    addr_runs_disjoint(live[j0], live[i]) || addr_runs_disjoint(live[i], live[j0]),
                    x == live[j0].0 + k * 4096,
                    0 <= k < live[j0].1,
                    live[i].0 <= x < live[i].0 + live[i].1 * 4096,
            ;
        }
    }
    assert forall|j: int, l: int| 0 <= j < l < l2.len() implies addr_runs_disjoint(#[trigger] l2[j], #[trigger] l2[l]) by {
        let j0 = if j < i { j } else { j + 1 };
        let l0 = if l < i { l } else { l + 1 };
        assert(l2[j] == live[j0] && l2[l] == live[l0]);
    }
    assert forall|j: int| 0 <= j < l2.len() implies page_aligned(#[trigger] l2[j].0) by {
        let j0 = if j < i { j } else { j + 1 };
        assert(l2[j] == live[j0]);
    }
}

/// Frames in use follow the live runs: adding a run adds its size.
pub proof fn lemma_usage_after_allocate(live: Seq<(int, int)>, used0: int, used1: int, run: (int, int))
    requires
        used0 == live_total(live),
        used1 == used0 + run.1,
    ensures
        used1 == live_total(live.push(run)),
{
    assert(live.push(run).drop_last() =~= live);
}

/// Frames in use follow the live runs: removing run `i` takes away its size.
pub proof fn lemma_usage_after_deallocate(live: Seq<(int, int)>, i: int, used0: int, used1: int)
    requires
        used0 == live_total(live),
        0 <= i < live.len(),
        used1 == used0 - live[i].1,
    ensures
        used1 == live_total(live.remove(i)),
    decreases live.len(),
{
    if i == live.len() - 1 {
        assert(live.remove(i) =~= live.drop_last());
    } else {
        let d = live.drop_last();
        lemma_usage_after_deallocate(d, i, live_total(d), live_total(d) - live[i].1);
        assert(live.remove(i).drop_last() =~= d.remove(i));
        assert(live.remove(i).last() == live.last());
    }
}

} // verus!
