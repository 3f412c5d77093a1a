//! A verified model of the process-management system calls of a small
//! teaching kernel: the address spaces of tasks, the scheduler's ready
//! queue, and the system calls `exit`, `yield`, `get_time`, `task_info`,
//! `mmap`, `munmap` and `sbrk` that act on them.

pub mod config;
pub mod address;
pub mod frame_allocator;
pub mod memory_set;
pub mod task;
pub mod kernel_memory;
pub mod user_buffer;
pub mod syscall;
pub mod laws;

pub use config::{MAX_SYSCALL_NUM, PAGE_SIZE, PAGE_SIZE_BITS, VA_WIDTH_SV39};
pub use address::{VirtAddr, VirtPageNum};
pub use frame_allocator::FrameAllocator;
pub use memory_set::{MapPermission, MemorySet, PageTableEntry, MAP_PERM_R, MAP_PERM_U, MAP_PERM_W, MAP_PERM_X, PTE_V};
pub use task::{Kernel, TaskControlBlock, TaskStatus, HEAP_PTE_FLAGS, IDLE_PID, INITPROC_PID};
pub use syscall::{
    sys_exit, sys_get_time, sys_mmap, sys_munmap, sys_sbrk, sys_task_info, sys_yield,
    time_val_from_us, TaskInfo, TimeVal, UserWrite, TIME_VAL_SIZE, USEC_PER_SEC,
};
pub use user_buffer::BufferPiece;
