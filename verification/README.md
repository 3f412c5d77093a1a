# os

A verified model of the process-management system calls of a small RISC-V
teaching kernel (SV39 paging), written in Verus.

- `src/address.rs`: virtual addresses and page numbers (truncation to 39
  bits, alignment, floor and ceiling pages).
- `src/frame_allocator.rs`: the physical frame allocator (recycled frames
  first, then fresh ones).
- `src/memory_set.rs`: a task's address space as a page table from page
  numbers to entries (frame and flags).
- `src/kernel_memory.rs`: mapping and unmapping pages of the running task,
  each page to a frame taken from or given back to the allocator; the
  kernel keeps every mapped page on its own frame; the heap end
  (`change_program_brk`).
- `src/task.rs`: task control blocks, the ready queue, the running task,
  and the transitions that suspend or
  end the running task, with the kernel's well-formedness invariant
  (queued tasks are ready and distinct; parents and children agree; no
  frame backs two pages). Each task holds the value its pending system
  call returns to it when the scheduler runs it again; `record_syscall`
  counts each task's system calls.
- `src/user_buffer.rs`: a user buffer split at page boundaries into pieces,
  each inside the frame that backs its page (`translated_byte_buffer`).
- `src/syscall.rs`: `sys_exit`, `sys_yield`, `sys_get_time`,
  `sys_task_info`, `sys_mmap`, `sys_munmap`, `sys_sbrk`. `sys_exit` and
  `sys_yield` are the kernel's scheduling steps: they return the state
  after the switch, not to the calling task; a yielding task's call
  returns, with 0, once the scheduler runs it again. `sys_get_time` and
  `sys_task_info` give the bytes to store and the pieces of the user
  buffer they go to, which may span two pages.
- `src/laws.rs`: properties relating several calls (unmapping undoes
  mapping, a second map of the same area fails, growing then shrinking the
  heap restores the address space, an exited task is never queued, a
  yielding task gets 0 when it runs again).
- `app/lib.rs`: the global kernel state (`lazy_static`), the clock,
  physical memory, one thread per task with the kernel lock as the
  processor, and the entry points with the signatures user programs call.
