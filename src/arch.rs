use crate::addr::VirtualAddress;
use vstd::prelude::*;

verus! {

/// Alignment of the stack, and so of every frame pointer.
pub const STACK_ALIGN: usize = 16;

/// A frame pointer is aligned as the platform's calling convention demands.
pub fn assert_fp_is_aligned(fp: VirtualAddress)
    requires
        fp.0 % STACK_ALIGN == 0,
{
}

} // verus!
