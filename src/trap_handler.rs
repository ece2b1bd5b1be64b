use crate::addr::VirtualAddress;
use crate::aspace::{fault_post, AddressSpace, PageFaultFlags};
use crate::error::Error;
use crate::flush::FenceRequest;
use crate::frame_alloc::BitMapAllocator;
use crate::frame_alloc::FrameAllocator;
use core::ops::ControlFlow;
use vstd::prelude::*;

verus! {

/// `scause` code of an instruction page fault.
pub const INSTRUCTION_PAGE_FAULT: usize = 12;

/// `scause` code of a load page fault.
pub const LOAD_PAGE_FAULT: usize = 13;

/// `scause` code of a store page fault.
pub const STORE_PAGE_FAULT: usize = 15;

/// The access that an exception code reports, if it is a page fault.
pub open spec fn fault_access(cause: usize) -> Option<PageFaultFlags> {
    if cause == LOAD_PAGE_FAULT {
        Some(PageFaultFlags::Load)
    } else if cause == STORE_PAGE_FAULT {
        Some(PageFaultFlags::Store)
    } else if cause == INSTRUCTION_PAGE_FAULT {
        Some(PageFaultFlags::Instruction)
    } else {
        None
    }
}

/// Classifies an exception code.
pub fn page_fault_flags(cause: usize) -> (r: Option<PageFaultFlags>)
    ensures
        r == fault_access(cause),
{
    if cause == LOAD_PAGE_FAULT {
        Some(PageFaultFlags::Load)
    } else if cause == STORE_PAGE_FAULT {
        Some(PageFaultFlags::Store)
    } else if cause == INSTRUCTION_PAGE_FAULT {
        Some(PageFaultFlags::Instruction)
    } else {
        None
    }
}

/// Handles exception `cause` at address `tval` in the current task's address
/// space. `Break` carries the fence to issue when the fault was corrected;
/// `Continue` hands the trap on to the next handler, because it is no page fault
/// or the address space could not correct it.
pub fn handle_page_fault(
    aspace: &mut AddressSpace,
    alloc: &mut BitMapAllocator,
    cause: usize,
    tval: VirtualAddress,
) -> (r: ControlFlow<Option<FenceRequest>>)
    requires
        old(aspace).inv(),
        old(alloc).inv(),
    ensures
        final(aspace).inv(),
        final(alloc).inv(),
        fault_access(cause) is None ==> r == ControlFlow::<Option<FenceRequest>>::Continue(())
            && final(aspace).mappings() == old(aspace).mappings()
            && final(aspace).regions() == old(aspace).regions()
            && final(alloc).frames_used() == old(alloc).frames_used(),
        fault_access(cause) is Some ==> exists|res: Result<Option<FenceRequest>, Error>|
            fault_post(
                *old(aspace),
                *final(aspace),
                old(alloc).frames_used(),
                final(alloc).frames_used(),
                old(alloc).frames_total(),
                tval,
                fault_access(cause)->Some_0,
                res,
            ) && match res {
                Ok(f) => r == ControlFlow::<Option<FenceRequest>>::Break(f),
                Err(_) => r == ControlFlow::<Option<FenceRequest>>::Continue(()),
            },
{
    let flags = match page_fault_flags(cause) {
        Some(f) => f,
        None => {
            return ControlFlow::Continue(());
        },
    };
    let res = aspace.page_fault(alloc, tval, flags);
    match res {
        Ok(fence) => ControlFlow::Break(fence),
        Err(_) => ControlFlow::Continue(()),
    }
}

} // verus!
