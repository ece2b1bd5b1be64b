use vstd::prelude::*;

verus! {

/// Size in bytes of a page and of a physical frame.
pub const PAGE_SIZE: usize = 4096;

/// log2 of [`PAGE_SIZE`].
pub const PAGE_SHIFT: usize = 12;

/// A physical memory address.
#[derive(Debug, Clone, Copy, PartialEq, Eq, Structural)]
pub struct PhysicalAddress(pub usize);

/// A virtual memory address.
#[derive(Debug, Clone, Copy, PartialEq, Eq, Structural)]
pub struct VirtualAddress(pub usize);

/// Whether `a` is a multiple of the page size.
pub open spec fn page_aligned(a: int) -> bool {
    a % (PAGE_SIZE as int) == 0
}

impl PhysicalAddress {
    pub fn new(raw: usize) -> (r: Self)
        ensures
            r.0 == raw,
    {
        PhysicalAddress(raw)
    }

    pub fn as_raw(&self) -> (r: usize)
        ensures
            r == self.0,
    {
        self.0
    }

    pub fn is_page_aligned(&self) -> (r: bool)
        ensures
            r == page_aligned(self.0 as int),
    {
        self.0 % PAGE_SIZE == 0
    }
}

impl VirtualAddress {
    pub fn new(raw: usize) -> (r: Self)
        ensures
            r.0 == raw,
    {
        VirtualAddress(raw)
    }

    pub fn as_raw(&self) -> (r: usize)
        ensures
            r == self.0,
    {
        self.0
    }

    pub fn is_page_aligned(&self) -> (r: bool)
        ensures
            r == page_aligned(self.0 as int),
    {
        self.0 % PAGE_SIZE == 0
    }

    /// The address `n` bytes further, or `None` where that does not fit a word.
    pub fn checked_add(&self, n: usize) -> (r: Option<VirtualAddress>)
        ensures
            r == (if self.0 + n <= usize::MAX {
                Some(VirtualAddress((self.0 + n) as usize))
            } else {
                None::<VirtualAddress>
            }),
    {
        if n <= usize::MAX - self.0 {
            Some(VirtualAddress(self.0 + n))
        } else {
            None
        }
    }
}

/// A half-open range of virtual addresses `start..end`.
#[derive(Debug, Clone, Copy, PartialEq, Eq, Structural)]
pub struct VirtualRange {
    pub start: VirtualAddress,
    pub end: VirtualAddress,
}

/// A half-open range of physical addresses `start..end`.
#[derive(Debug, Clone, Copy, PartialEq, Eq, Structural)]
pub struct PhysicalRange {
    pub start: PhysicalAddress,
    pub end: PhysicalAddress,
}

/// The virtual range `start .. end`.
pub open spec fn vrange(start: int, end: int) -> VirtualRange {
    VirtualRange { start: VirtualAddress(start as usize), end: VirtualAddress(end as usize) }
}

/// The physical range `start .. end`.
pub open spec fn prange(start: int, end: int) -> PhysicalRange {
    PhysicalRange { start: PhysicalAddress(start as usize), end: PhysicalAddress(end as usize) }
}

impl VirtualRange {
    pub fn new(start: usize, end: usize) -> (r: Self)
        ensures
            r.start.0 == start,
            r.end.0 == end,
    {
        VirtualRange { start: VirtualAddress(start), end: VirtualAddress(end) }
    }

    /// Number of bytes in the range; an inverted range has none.
    pub open spec fn spec_size(&self) -> nat {
        if self.start.0 <= self.end.0 {
            (self.end.0 - self.start.0) as nat
        } else {
            0
        }
    }

    pub fn size(&self) -> (r: usize)
        ensures
            r == self.spec_size(),
    {
        if self.start.0 <= self.end.0 {
            self.end.0 - self.start.0
        } else {
            0
        }
    }

    pub fn is_empty(&self) -> (r: bool)
        ensures
            r == (self.spec_size() == 0),
    {
        self.end.0 <= self.start.0
    }
}

impl PhysicalRange {
    pub fn new(start: usize, end: usize) -> (r: Self)
        ensures
            r.start.0 == start,
            r.end.0 == end,
    {
        PhysicalRange { start: PhysicalAddress(start), end: PhysicalAddress(end) }
    }

    pub open spec fn spec_size(&self) -> nat {
        if self.start.0 <= self.end.0 {
            (self.end.0 - self.start.0) as nat
        } else {
            0
        }
    }

    pub fn size(&self) -> (r: usize)
        ensures
            r == self.spec_size(),
    {
        if self.start.0 <= self.end.0 {
            self.end.0 - self.start.0
        } else {
            0
        }
    }
}

} // verus!
