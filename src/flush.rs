use crate::addr::{VirtualAddress, VirtualRange};
use crate::error::Error;
use vstd::prelude::*;

verus! {

/// One remote fence: invalidate `size` bytes from `start` for `asid` on every hart.
#[derive(Debug, Clone, Copy, PartialEq, Eq, Structural)]
pub struct FenceRequest {
    pub asid: usize,
    pub start: usize,
    pub size: usize,
}

/// The virtual ranges of one address space whose translations changed since the
/// last invalidation, merged into one covering range.
#[derive(Debug)]
pub struct Flush {
    asid: usize,
    range: Option<VirtualRange>,
}

/// The smallest range covering `a` and `b`.
pub open spec fn cover(a: VirtualRange, b: VirtualRange) -> VirtualRange {
    VirtualRange {
        start: VirtualAddress(if a.start.0 <= b.start.0 { a.start.0 } else { b.start.0 }),
        end: VirtualAddress(if a.end.0 >= b.end.0 { a.end.0 } else { b.end.0 }),
    }
}

impl Flush {
    pub closed spec fn spec_asid(&self) -> usize {
        self.asid
    }

    pub closed spec fn pending(&self) -> Option<VirtualRange> {
        self.range
    }

    pub fn empty(asid: usize) -> (r: Self)
        ensures
            r.spec_asid() == asid,
            r.pending() is None,
    {
        Flush { asid, range: None }
    }

    pub fn new(asid: usize, range: VirtualRange) -> (r: Self)
        ensures
            r.spec_asid() == asid,
            r.pending() == Some(range),
    {
        Flush { asid, range: Some(range) }
    }

    pub fn asid(&self) -> (r: usize)
        ensures
            r == self.spec_asid(),
    {
        self.asid
    }

    /// Adds `other` to the pending range of address space `asid`.
    pub fn extend_range(&mut self, asid: usize, other: VirtualRange) -> (r: Result<(), Error>)
        ensures
            final(self).spec_asid() == old(self).spec_asid(),
            asid == old(self).spec_asid() ==> r is Ok && final(self).pending() == Some(
                match old(self).pending() {
                    Some(this) => cover(this, other),
                    None => other,
                },
            ),
            asid != old(self).spec_asid() ==> r == Err::<(), Error>(
                Error::AddressSpaceMismatch { expected: old(self).spec_asid(), found: asid },
            ) && final(self).pending() == old(self).pending(),
    {
        if self.asid == asid {
            match self.range {
                Some(this) => {
                    let start = if this.start.0 <= other.start.0 {
                        this.start.0
                    } else {
                        other.start.0
                    };
                    let end = if this.end.0 >= other.end.0 {
                        this.end.0
                    } else {
                        other.end.0
                    };
                    self.range = Some(VirtualRange::new(start, end));
                },
                None => {
                    self.range = Some(other);
                },
            }
            Ok(())
        } else {
            Err(Error::AddressSpaceMismatch { expected: self.asid, found: asid })
        }
    }

    /// Ends the batch: the fence to issue on every hart, or `None` when nothing
    /// is pending.
    pub fn flush(self) -> (r: Option<FenceRequest>)
        ensures
            self.pending() is None ==> r is None,
            self.pending() is Some ==> r == Some(
                FenceRequest {
                    asid: self.spec_asid(),
                    start: self.pending()->Some_0.start.0,
                    size: self.pending()->Some_0.spec_size() as usize,
                },
            ),
    {
        match self.range {
            Some(range) => Some(FenceRequest { asid: self.asid, start: range.start.0, size: range.size() }),
            None => None,
        }
    }
}

} // verus!
