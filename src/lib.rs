//! The virtual-memory core of a small multiprocessor kernel: physical frame
//! allocation, page-table modes and mapping, TLB flush batching, per-address-space
//! region management with fault-driven lazy commit, user-memory access and
//! on-demand growth of the kernel heap.
//!
//! Around that core sit the pieces of the kernel that feed it or build on it:
//! the boot-time mappings, the device-tree header, the page-fault entry
//! decision, the panic counters, a counter-enable register and the encoders of
//! WebAssembly table sections and instance-context layouts.
pub mod addr;
pub mod arch;
pub mod aspace;
pub mod boot;
pub mod bump;
pub mod dtb;
pub mod error;
pub mod flush;
pub mod frame_alloc;
pub mod guest;
pub mod heap;
pub mod mode;
pub mod page_table;
pub mod panic_count;
pub mod scounteren;
pub mod tables;
pub mod trap_handler;
pub mod user_mmap;
pub mod vmcontext;

pub use addr::{PhysicalAddress, VirtualAddress, PAGE_SIZE};
pub use error::Error;
pub use frame_alloc::{BitMapAllocator, FrameAllocator, FrameUsage};
