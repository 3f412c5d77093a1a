//! Constants of the kernel.

use vstd::prelude::*;

verus! {

/// Number of bytes in one page.
pub const PAGE_SIZE: usize = 4096;

/// log2 of the page size.
pub const PAGE_SIZE_BITS: usize = 12;

/// Width of an SV39 virtual address.
pub const VA_WIDTH_SV39: usize = 39;

/// Number of distinct system call numbers a task's statistics track.
pub const MAX_SYSCALL_NUM: usize = 500;

} // verus!
