use vstd::prelude::*;

verus! {

/// Size of one page and of one physical frame, in bytes.
pub const PAGE_SIZE: u64 = 4096;

/// Number of entries in one page-table node.
pub const ENTRIES_PER_TABLE: u64 = 512;

/// Physical address at which the kernel image is loaded.
pub const KERNEL_BEGIN_PADDR: u64 = 0x8020_0000;

/// Virtual address at which the kernel image is linked to run.
pub const KERNEL_BEGIN_VADDR: u64 = 0xffff_ffff_c020_0000;

/// One past the last byte of physical memory.
pub const PHYSICAL_MEMORY_END: u64 = 0x8800_0000;

/// Distance between a kernel virtual address and the physical address that the
/// direct map sends it to.
pub const PHYSICAL_MEMORY_OFFSET: u64 = 0xffff_ffff_4000_0000;

/// One past the largest physical page number: a page number has 44 bits.
pub const MAX_PPN: u64 = 0x1000_0000_0000;

/// Number of virtual pages that a page table translates: a virtual page
/// number has 27 bits.
pub const MAX_VPN: u64 = 0x800_0000;

/// Largest number of frames that one frame allocator manages.
pub const MAX_PHYSICAL_PAGES: usize = 0x8000;

/// Size of a kernel stack, in bytes: eight pages.
pub const KERNEL_STACK_SIZE: u64 = 0x8000;

/// Lowest address of the user stack.
pub const USER_STACK_OFFSET: u64 = 0xffff_ffff_0000_0000;

/// Size of the user stack, in bytes.
pub const USER_STACK_SIZE: u64 = 0x1_0000;

/// Number of timer ticks between two timer interrupts, in cycles of the time
/// base.
pub const TIMEBASE: u64 = 100_000;

} // verus!
