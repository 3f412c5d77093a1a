//! The process-management system calls, acting on the kernel's task state.

use vstd::prelude::*;
use crate::address::{spec_aligned, spec_ceil, spec_floor, spec_va_from, va_space, VirtAddr};
use crate::user_buffer::{buffer_mapped, buffer_pieces, BufferPiece};
use crate::config::MAX_SYSCALL_NUM;
use crate::kernel_memory::{fresh_frames, frames_after_map, frames_after_unmap};
use crate::memory_set::{
    range_mapped, range_unmapped, with_range_mapped, with_range_unmapped, MapPermission,
    MAP_PERM_R, MAP_PERM_U, MAP_PERM_W, MAP_PERM_X,
};
use crate::task::{
    exited, heap_move_allowed, heap_moved, only_current_memory_changed, spec_new_brk, zombies_stay, same_but_schedule, same_but_status,
    Kernel, TaskStatus, IDLE_PID,
};

verus! {

/// A point in time as seconds and microseconds.
#[derive(Clone, Copy, Debug, PartialEq, Eq, Structural)]
pub struct TimeVal {
    pub sec: usize,
    pub usec: usize,
}

/// Task information
pub struct TaskInfo {
    /// Task status in its life cycle
    pub status: TaskStatus,
    /// The numbers of syscall called by task
    pub syscall_times: [u32; MAX_SYSCALL_NUM],
    /// Total running time of task
    pub time: usize,
}

/// Microseconds in a second.
pub const USEC_PER_SEC: usize = 1_000_000;

/// Whether `port` is an acceptable protection for `sys_mmap`: some of the
/// bits read (1), write (2), execute (4), and no other bit.
pub open spec fn port_valid(port: usize) -> bool {
    1 <= port <= 7
}

/// The page-table flags that `sys_mmap` gives its pages for a valid `port`:
/// the user and valid bits, plus read, write and execute for the port bits
/// 1, 2 and 4 (port bit `i` becomes flag bit `i + 1`).
pub open spec fn mmap_pte_flags(port: usize) -> u8 {
    (17 + 2 * port) as u8
}

/// First page of the area that `sys_mmap`/`sys_munmap` act on.
pub open spec fn area_first_page(start: usize) -> nat {
    spec_floor(spec_va_from(start))
}

/// Page just past the area that `sys_mmap`/`sys_munmap` act on.
pub open spec fn area_end_page(start: usize, len: usize) -> nat {
    spec_ceil(spec_va_from((start + len) as usize))
}

/// `new` and `old` hold the same tasks, queue and running task.
pub open spec fn unchanged(old: Kernel, new: Kernel) -> bool {
    &&& new.tasks == old.tasks
    &&& new.frame_allocator == old.frame_allocator
    &&& new.ready_queue@ == old.ready_queue@
    &&& new.current == old.current
}

proof fn lemma_port_bits(port: usize)
    by (bit_vector)
    ensures
        (port & !0x7usize != 0 || port & 0x7usize == 0) == !(1 <= port && port <= 7),
        1 <= port <= 7 ==> (((16u8 | (if port & 1usize == 1usize {
            2u8
        } else {
            0u8
        })) | (if port & 2usize == 2usize {
            4u8
        } else {
            0u8
        })) | (if port & 4usize > 0usize {
            8u8
        } else {
            0u8
        })) | 1u8 == (17 + 2 * port) as u8,
{
}

/// The kernel's step for an exit: the running task, which must not be the
/// idle process, ends with `exit_code` and the task at the front of the
/// ready queue, if any, runs next; see [`Kernel::exit_current_and_run_next`].
/// The call never returns to the exiting task: it is a zombie from here on,
/// and no later step queues it or runs it again (`zombies_stay`).
pub fn sys_exit(kernel: &mut Kernel, exit_code: i32)
    requires
        old(kernel).wf(),
        old(kernel).current_running(),
        old(kernel).cur() != IDLE_PID,
    ensures
        final(kernel).wf(),
        exited(*old(kernel), *final(kernel), exit_code),
        zombies_stay(*old(kernel), *final(kernel)),
        final(kernel).tasks@[old(kernel).cur()].exit_code == exit_code,
        final(kernel).tasks@[old(kernel).cur()].task_status == TaskStatus::Zombie,
{
    kernel.exit_current_and_run_next(exit_code)
}

/// The scheduling step of a yield: the calling task, which is running,
/// goes back ready to the end of the ready queue with 0 as the result of its
/// system call, and the task at the front of the queue runs next. Returns
/// the task switched to. The caller's call returns only once the scheduler
/// picks it again ([`Kernel::run_next_task`] or another task's yield or
/// exit): it is then the running task and its pending result, still 0, is
/// what the call returns.
pub fn sys_yield(kernel: &mut Kernel) -> (next: usize)
    requires
        old(kernel).wf(),
        old(kernel).current_running(),
    ensures
        final(kernel).wf(),
        final(kernel).current_running(),
        final(kernel).current == Some(next),
        final(kernel).frame_allocator == old(kernel).frame_allocator,
        zombies_stay(*old(kernel), *final(kernel)),
        seq![next] + final(kernel).ready_queue@ == old(kernel).ready_queue@.push(
            old(kernel).current.unwrap(),
        ),
        final(kernel).tasks@.len() == old(kernel).tasks@.len(),
        final(kernel).tasks@[old(kernel).cur()].syscall_result == 0,
        forall|p: int|
            0 <= p < old(kernel).tasks@.len() ==> #[trigger] final(kernel).tasks@[p].task_status
                == (if p == next {
                TaskStatus::Running
            } else if p == old(kernel).cur() {
                TaskStatus::Ready
            } else {
                old(kernel).tasks@[p].task_status
            }),
        same_but_schedule(old(kernel).tasks@[old(kernel).cur()], final(kernel).tasks@[old(kernel).cur()]),
        forall|p: int|
            0 <= p < old(kernel).tasks@.len() && p != old(kernel).cur() ==> same_but_status(
                old(kernel).tasks@[p],
                #[trigger] final(kernel).tasks@[p],
            ),
{
    let caller = kernel.current.unwrap();
    kernel.set_return_value(caller, 0);
    kernel.suspend_current_and_run_next();
    kernel.current.unwrap()
}

/// Byte `k`, counting from the least significant, of `x`.
pub open spec fn le_byte(x: u64, k: nat) -> u8 {
    ((x >> ((8 * k) as u64)) & 0xff) as u8
}

impl TimeVal {
    /// The bytes of the value as a user program reads them: `sec`, then
    /// `usec`, each as eight little-endian bytes.
    pub fn to_bytes(&self) -> (b: Vec<u8>)
        ensures
            b@.len() == 16,
            forall|k: int| 0 <= k < 8 ==> #[trigger] b@[k] == le_byte(self.sec as u64, k as nat),
            forall|k: int| 8 <= k < 16 ==> #[trigger] b@[k] == le_byte(self.usec as u64, (k - 8) as nat),
            b@[0] + b@[1] * 0x100 + b@[2] * 0x1_0000 + b@[3] * 0x100_0000 + b@[4] * 0x1_0000_0000
                + b@[5] * 0x100_0000_0000 + b@[6] * 0x1_0000_0000_0000 + b@[7]
                * 0x100_0000_0000_0000 == self.sec,
            b@[8] + b@[9] * 0x100 + b@[10] * 0x1_0000 + b@[11] * 0x100_0000 + b@[12]
                * 0x1_0000_0000 + b@[13] * 0x100_0000_0000 + b@[14] * 0x1_0000_0000_0000 + b@[15]
                * 0x100_0000_0000_0000 == self.usec,
    {
        let mut b: Vec<u8> = Vec::new();
        let sec = self.sec as u64;
        let usec = self.usec as u64;
        let mut k: u64 = 0;
        while k < 8
            invariant
                k <= 8,
                sec == self.sec as u64,
                b@.len() == k,
                forall|j: int| 0 <= j < k ==> #[trigger] b@[j] == le_byte(sec, j as nat),
            decreases 8 - k,
        {
            b.push(((sec >> (8 * k)) & 0xff) as u8);
            k = k + 1;
        }
        let mut k: u64 = 0;
        while k < 8
            invariant
                k <= 8,
                usec == self.usec as u64,
                b@.len() == 8 + k,
                forall|j: int| 0 <= j < 8 ==> #[trigger] b@[j] == le_byte(self.sec as u64, j as nat),
                forall|j: int| 8 <= j < 8 + k ==> #[trigger] b@[j] == le_byte(usec, (j - 8) as nat),
            decreases 8 - k,
        {
            b.push(((usec >> (8 * k)) & 0xff) as u8);
            k = k + 1;
        }
        proof {
            crate::laws::law_le_bytes_read_back(sec);
            crate::laws::law_le_bytes_read_back(usec);
            assert(b@[0] == le_byte(sec, 0) && b@[1] == le_byte(sec, 1) && b@[2] == le_byte(sec, 2)
                && b@[3] == le_byte(sec, 3) && b@[4] == le_byte(sec, 4) && b@[5] == le_byte(sec, 5)
                && b@[6] == le_byte(sec, 6) && b@[7] == le_byte(sec, 7));
            assert(b@[8] == le_byte(usec, 0) && b@[9] == le_byte(usec, 1) && b@[10] == le_byte(
                usec,
                2,
            ) && b@[11] == le_byte(usec, 3) && b@[12] == le_byte(usec, 4) && b@[13] == le_byte(
                usec,
                5,
            ) && b@[14] == le_byte(usec, 6) && b@[15] == le_byte(usec, 7));
        }
        b
    }
}

/// The time `us` microseconds after boot, as seconds and microseconds.
pub fn time_val_from_us(us: usize) -> (tv: TimeVal)
    ensures
        tv.sec == us / USEC_PER_SEC,
        tv.usec == us % USEC_PER_SEC,
        tv.sec * USEC_PER_SEC + tv.usec == us,
        tv.usec < USEC_PER_SEC,
{
    TimeVal { sec: us / USEC_PER_SEC, usec: us % USEC_PER_SEC }
}

/// What a system call stores into the caller's memory: `bytes`, in order,
/// laid across `pieces`.
pub struct UserWrite {
    pub pieces: Vec<BufferPiece>,
    pub bytes: Vec<u8>,
}

/// Size in bytes of a `TimeVal` in a user program's memory.
pub const TIME_VAL_SIZE: usize = 16;

/// Writes the time `us` microseconds after boot to the running task's
/// `TimeVal` at user address `ts`, which may span two pages: the value's
/// sixteen bytes go, in order, across the pieces of that buffer.
pub fn sys_get_time(kernel: &Kernel, ts: usize, us: usize) -> (w: UserWrite)
    requires
        kernel.current is Some,
        kernel.valid_pid(kernel.cur()),
        ts + TIME_VAL_SIZE <= va_space(),
        ts + TIME_VAL_SIZE <= usize::MAX,
        buffer_mapped(kernel.current_memory(), ts as nat, TIME_VAL_SIZE as nat),
    ensures
        buffer_pieces(kernel.current_frames(), ts as nat, TIME_VAL_SIZE as nat, w.pieces@),
        w.bytes@.len() == TIME_VAL_SIZE,
        forall|k: int|
            0 <= k < 8 ==> #[trigger] w.bytes@[k] == le_byte((us / USEC_PER_SEC) as u64, k as nat),
        forall|k: int|
            8 <= k < 16 ==> #[trigger] w.bytes@[k] == le_byte(
                (us % USEC_PER_SEC) as u64,
                (k - 8) as nat,
            ),
        ({
            let b = w.bytes@;
            &&& b[0] + b[1] * 0x100 + b[2] * 0x1_0000 + b[3] * 0x100_0000 + b[4] * 0x1_0000_0000
                + b[5] * 0x100_0000_0000 + b[6] * 0x1_0000_0000_0000 + b[7] * 0x100_0000_0000_0000
                == us / 1_000_000
            &&& b[8] + b[9] * 0x100 + b[10] * 0x1_0000 + b[11] * 0x100_0000 + b[12] * 0x1_0000_0000
                + b[13] * 0x100_0000_0000 + b[14] * 0x1_0000_0000_0000 + b[15]
                * 0x100_0000_0000_0000 == us % 1_000_000
        }),
{
    let tv = time_val_from_us(us);
    let pieces = kernel.translated_byte_buffer(ts, TIME_VAL_SIZE);
    UserWrite { pieces, bytes: tv.to_bytes() }
}

/// The running task's status, system call counts, and the milliseconds
/// that passed from its creation to `now_ms`, together with the pieces of
/// the user buffer of `size` bytes at `ti` where they go (the buffer may
/// span two pages).
pub fn sys_task_info(kernel: &Kernel, ti: usize, size: usize, now_ms: usize) -> (r: (TaskInfo, Vec<BufferPiece>))
    requires
        kernel.current_running(),
        now_ms >= kernel.tasks@[kernel.cur()].sys_time,
        ti + size <= va_space(),
        ti + size <= usize::MAX,
        buffer_mapped(kernel.current_memory(), ti as nat, size as nat),
    ensures
        r.0.status == kernel.tasks@[kernel.cur()].task_status,
        r.0.syscall_times == kernel.tasks@[kernel.cur()].syscall_times,
        r.0.time == now_ms - kernel.tasks@[kernel.cur()].sys_time,
        buffer_pieces(kernel.current_frames(), ti as nat, size as nat, r.1@),
{
    let status = kernel.current_status();
    let syscall_times = kernel.current_syscall_times();
    let time = now_ms - kernel.current_sys_time();
    let pieces = kernel.translated_byte_buffer(ti, size);
    (TaskInfo { status, syscall_times, time }, pieces)
}

/// Maps `len` bytes from `start` into the running task with protection
/// `port`. Fails with -1 when `port` is not valid, when `start` is not page
/// aligned, or when a page of the area is already mapped; otherwise maps
/// every page of the area and returns 0.
pub fn sys_mmap(kernel: &mut Kernel, start: usize, len: usize, port: usize) -> (r: isize)
    requires
        old(kernel).wf(),
        old(kernel).current_running(),
        start + len <= usize::MAX,
        port_valid(port) && spec_aligned(spec_va_from(start)) ==> area_first_page(start)
            <= area_end_page(start, len),
        port_valid(port) && spec_aligned(spec_va_from(start)) && range_unmapped(
            old(kernel).current_memory(),
            area_first_page(start),
            area_end_page(start, len),
        ) ==> old(kernel).frame_allocator.free_count() >= area_end_page(start, len)
            - area_first_page(start),
    ensures
        final(kernel).wf(),
        final(kernel).current_running(),
        ({
            let lo = area_first_page(start);
            let hi = area_end_page(start, len);
            let ok = port_valid(port) && spec_aligned(spec_va_from(start)) && range_unmapped(
                old(kernel).current_memory(),
                lo,
                hi,
            );
            &&& ok ==> {
                &&& r == 0
                &&& only_current_memory_changed(*old(kernel), *final(kernel))
                &&& final(kernel).tasks@[old(kernel).cur()].program_brk == old(
                    kernel,
                ).tasks@[old(kernel).cur()].program_brk
                &&& final(kernel).current_memory() == with_range_mapped(
                    old(kernel).current_memory(),
                    lo,
                    hi,
                    mmap_pte_flags(port),
                )
                &&& frames_after_map(*old(kernel), *final(kernel), lo, hi)
                &&& fresh_frames(*old(kernel), *final(kernel), lo, hi)
            }
            &&& !ok ==> r == -1 && unchanged(*old(kernel), *final(kernel))
        }),
        (start as nat) % 4096 != 0 || !(1 <= port <= 7) ==> r == -1 && unchanged(
            *old(kernel),
            *final(kernel),
        ),
{
    let end = start + len;
    let start_va = VirtAddr::from_usize(start);
    proof {
        lemma_port_bits(port);
        crate::laws::law_virtual_address_keeps_low_bits(start);
    }
    if (port & !0x7 != 0) || (port & 0x7 == 0) {
        -1
    } else if start_va.aligned() {
        let start_vpn = start_va.floor();
        let end_va = VirtAddr::from_usize(end);
        let end_vpn = end_va.ceil();
        let mut vpn = start_vpn.0;
        while vpn < end_vpn.0
            invariant
                start_vpn.0 <= vpn <= end_vpn.0,
                start_vpn.0 == area_first_page(start),
                end_vpn.0 == area_end_page(start, len),
                kernel.current_running(),
                kernel.wf(),
                unchanged(*old(kernel), *kernel),
                range_unmapped(kernel.current_memory(), start_vpn.0 as nat, vpn as nat),
            decreases end_vpn.0 - vpn,
        {
            if kernel.vaddr_mapped(crate::address::VirtPageNum(vpn)) {
                proof {
                    assert(old(kernel).current_memory() == kernel.current_memory());
                    assert(vpn as nat >= area_first_page(start) && (vpn as nat) < area_end_page(start, len));
                    assert(crate::memory_set::in_range(vpn, area_first_page(start), area_end_page(start, len)));
                }
                return -1;
            }
            vpn = vpn + 1;
            proof {
                assert forall|k: usize| #[trigger] crate::memory_set::in_range(k, start_vpn.0 as nat, vpn as nat)
                    implies !kernel.current_memory().contains_key(k) by {
                    if k < vpn - 1 {
                        assert(crate::memory_set::in_range(k, start_vpn.0 as nat, (vpn - 1) as nat));
                    }
                }
            }
        }
        let r: u8 = if (port & 0x1) == 0x1 {
            MAP_PERM_R
        } else {
            0
        };
        let w: u8 = if (port & 0x2) == 0x2 {
            MAP_PERM_W
        } else {
            0
        };
        let x: u8 = if (port & 0x4) > 0 {
            MAP_PERM_X
        } else {
            0
        };
        let permission = MapPermission::from_bits(MAP_PERM_U).union(
            MapPermission::from_bits(r),
        ).union(MapPermission::from_bits(w)).union(MapPermission::from_bits(x));
        kernel.insert_map(start_va, end_va, permission);
        0
    } else {
        -1
    }
}

/// Unmaps `len` bytes from `start` from the running task. Fails with -1
/// when `start` is not page aligned or when a page of the area is not
/// mapped; otherwise unmaps every page of the area and returns 0.
pub fn sys_munmap(kernel: &mut Kernel, start: usize, len: usize) -> (r: isize)
    requires
        old(kernel).wf(),
        old(kernel).current_running(),
        start + len <= usize::MAX,
        spec_aligned(spec_va_from(start)) ==> area_first_page(start) <= area_end_page(start, len),
    ensures
        final(kernel).wf(),
        final(kernel).current_running(),
        ({
            let lo = area_first_page(start);
            let hi = area_end_page(start, len);
            let ok = spec_aligned(spec_va_from(start)) && range_mapped(
                old(kernel).current_memory(),
                lo,
                hi,
            );
            &&& ok ==> {
                &&& r == 0
                &&& only_current_memory_changed(*old(kernel), *final(kernel))
                &&& final(kernel).tasks@[old(kernel).cur()].program_brk == old(
                    kernel,
                ).tasks@[old(kernel).cur()].program_brk
                &&& final(kernel).current_memory() == with_range_unmapped(
                    old(kernel).current_memory(),
                    lo,
                    hi,
                )
                &&& frames_after_unmap(*old(kernel), *final(kernel), lo, hi)
            }
            &&& !ok ==> r == -1 && unchanged(*old(kernel), *final(kernel))
        }),
        (start as nat) % 4096 != 0 ==> r == -1 && unchanged(*old(kernel), *final(kernel)),
{
    let end = start + len;
    let start_va = VirtAddr::from_usize(start);
    proof {
        crate::laws::law_virtual_address_keeps_low_bits(start);
    }
    if start_va.aligned() {
        let start_vpn = start_va.floor();
        let end_va = VirtAddr::from_usize(end);
        let end_vpn = end_va.ceil();
        let mut vpn = start_vpn.0;
        while vpn < end_vpn.0
            invariant
                start_vpn.0 <= vpn <= end_vpn.0,
                start_vpn.0 == area_first_page(start),
                end_vpn.0 == area_end_page(start, len),
                kernel.current_running(),
                kernel.wf(),
                unchanged(*old(kernel), *kernel),
                range_mapped(kernel.current_memory(), start_vpn.0 as nat, vpn as nat),
            decreases end_vpn.0 - vpn,
        {
            if !kernel.vaddr_mapped(crate::address::VirtPageNum(vpn)) {
                proof {
                    assert(old(kernel).current_memory() == kernel.current_memory());
                    assert(vpn as nat >= area_first_page(start) && (vpn as nat) < area_end_page(start, len));
                    assert(crate::memory_set::in_range(vpn, area_first_page(start), area_end_page(start, len)));
                }
                return -1;
            }
            vpn = vpn + 1;
            proof {
                assert forall|k: usize| #[trigger] crate::memory_set::in_range(k, start_vpn.0 as nat, vpn as nat)
                    implies kernel.current_memory().contains_key(k) by {
                    if k < vpn - 1 {
                        assert(crate::memory_set::in_range(k, start_vpn.0 as nat, (vpn - 1) as nat));
                    }
                }
            }
        }
        kernel.remove_map(start_va, end_va);
        0
    } else {
        -1
    }
}

/// Moves the running task's heap end by `size` bytes. Returns the old heap
/// end, or -1 when the new end would fall below the heap's bottom.
pub fn sys_sbrk(kernel: &mut Kernel, size: i32) -> (r: isize)
    requires
        old(kernel).wf(),
        old(kernel).current_running(),
        spec_new_brk(old(kernel).tasks@[old(kernel).cur()].program_brk, size) <= isize::MAX,
        spec_new_brk(old(kernel).tasks@[old(kernel).cur()].program_brk, size) >= old(
            kernel,
        ).tasks@[old(kernel).cur()].heap_bottom ==> heap_move_allowed(
            old(kernel).current_memory(),
            old(kernel).tasks@[old(kernel).cur()].program_brk as nat,
            spec_new_brk(old(kernel).tasks@[old(kernel).cur()].program_brk, size) as nat,
        ),
        size >= 0 ==> old(kernel).frame_allocator.free_count() >= spec_ceil(
            spec_new_brk(old(kernel).tasks@[old(kernel).cur()].program_brk, size) as nat,
        ) - spec_ceil(old(kernel).tasks@[old(kernel).cur()].program_brk as nat),
    ensures
        final(kernel).wf(),
        final(kernel).current_running(),
        only_current_memory_changed(*old(kernel), *final(kernel)),
        ({
            let t = old(kernel).tasks@[old(kernel).cur()];
            let n = final(kernel).tasks@[old(kernel).cur()];
            let new_brk = spec_new_brk(t.program_brk, size);
            &&& new_brk < t.heap_bottom ==> {
                &&& r == -1
                &&& n.program_brk == t.program_brk
                &&& n.memory_set == t.memory_set
                &&& final(kernel).frame_allocator == old(kernel).frame_allocator
            }
            &&& new_brk >= t.heap_bottom ==> {
                &&& r == t.program_brk
                &&& n.program_brk == new_brk
                &&& n.memory_set@ == heap_moved(t.memory_set@, t.program_brk as nat, new_brk as nat)
                &&& new_brk < t.program_brk ==> frames_after_unmap(
                    *old(kernel),
                    *final(kernel),
                    spec_ceil(new_brk as nat),
                    spec_ceil(t.program_brk as nat),
                )
                &&& new_brk >= t.program_brk ==> frames_after_map(
                    *old(kernel),
                    *final(kernel),
                    spec_ceil(t.program_brk as nat),
                    spec_ceil(new_brk as nat),
                ) && fresh_frames(
                    *old(kernel),
                    *final(kernel),
                    spec_ceil(t.program_brk as nat),
                    spec_ceil(new_brk as nat),
                )
            }
        }),
        ({
            let t = old(kernel).tasks@[old(kernel).cur()];
            let n = final(kernel).tasks@[old(kernel).cur()];
            &&& t.program_brk + size < t.heap_bottom ==> r == -1 && n.program_brk == t.program_brk
            &&& t.program_brk + size >= t.heap_bottom ==> r == t.program_brk && n.program_brk
                == t.program_brk + size
        }),
{
    proof {
        assert(old(kernel).tasks@[old(kernel).cur()].wf());
    }
    if let Some(old_brk) = kernel.change_program_brk(size) {
        old_brk as isize
    } else {
        -1
    }
}

} // verus!
