use vstd::prelude::*;

verus! {

/// The ways in which a memory-management operation can fail.
#[derive(Debug, Clone, Copy, PartialEq, Eq, Structural)]
pub enum Error {
    /// No free run of physical frames, or no free gap of virtual addresses.
    OutOfMemory,
    /// The address does not fit the addressing mode's width.
    VirtualAddressTooLarge(usize),
    /// An operation expected a valid leaf entry for this page and found none.
    VirtualAddressNotMapped(usize),
    /// A page that should have been free already holds a valid leaf entry.
    VirtualAddressAlreadyMapped(usize),
    /// A flush batch was extended with a range of another address space.
    AddressSpaceMismatch { expected: usize, found: usize },
    /// Ranges that are not page aligned, or whose lengths differ.
    InvalidRange,
    /// Frames handed back that this allocator does not hold as allocated.
    FrameNotAllocated(usize),
    /// No region of the address space contains this address, or the range
    /// given is not exactly one region.
    RegionNotFound(usize),
    /// The requested access exceeds the permissions of the region.
    AccessDenied(usize),
    /// A region was asked to be writable and executable at once.
    WriteAndExecute,
    /// Permissions that allow neither reading nor executing cannot back a leaf entry.
    InvalidPermissions,
    /// A hardware fault was caught while accessing user memory.
    Trap,
}

} // verus!
