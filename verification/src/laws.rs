//! Properties that relate several operations of the kernel, stated over the
//! spec functions that the operations' contracts use.

use vstd::prelude::*;
use crate::address::{spec_aligned, spec_ceil, spec_floor, spec_va_from, va_space};
use crate::syscall::{le_byte, mmap_pte_flags};
use crate::user_buffer::{piece_count, spec_piece};
use crate::task::{exited, spec_new_brk, INITPROC_PID};
use crate::memory_set::{in_range, range_mapped, range_unmapped, with_range_mapped, with_range_unmapped};
use crate::task::{heap_move_allowed, heap_moved, lemma_not_ready_not_queued, Kernel, TaskStatus};

verus! {

/// Unmapping an area right after mapping it (what `sys_munmap` does after a
/// successful `sys_mmap` of the same `start` and `len`) gives back the
/// address space as it was.
pub proof fn law_munmap_undoes_mmap(m: Map<usize, u8>, lo: nat, hi: nat, flags: u8)
    requires
        range_unmapped(m, lo, hi),
    ensures
        with_range_unmapped(with_range_mapped(m, lo, hi, flags), lo, hi) == m,
{
    let r = with_range_unmapped(with_range_mapped(m, lo, hi, flags), lo, hi);
    assert forall|k: usize| #[trigger] r.contains_key(k) == m.contains_key(k) by {
        if m.contains_key(k) {
            assert(!in_range(k, lo, hi));
        }
    }
    assert(r =~= m);
}

/// Right after an area was mapped, every page of it is mapped: a
/// `sys_munmap` of the same area succeeds.
pub proof fn law_mapped_area_can_be_unmapped(m: Map<usize, u8>, lo: nat, hi: nat, flags: u8)
    ensures
        range_mapped(with_range_mapped(m, lo, hi, flags), lo, hi),
{
}

/// Right after a non-empty area of page numbers was mapped, mapping it
/// again is refused:
/// a second `sys_mmap` of the same area fails.
pub proof fn law_mmap_twice_fails(m: Map<usize, u8>, lo: nat, hi: nat, flags: u8)
    requires
        lo < hi,
        lo <= usize::MAX,
    ensures
        !range_unmapped(with_range_mapped(m, lo, hi, flags), lo, hi),
{
    assert(in_range(lo as usize, lo, hi));
}

/// Right after an area was unmapped, no page of it is mapped: a second
/// `sys_munmap` of the same non-empty area fails, and a `sys_mmap` of it
/// succeeds.
pub proof fn law_unmapped_area_is_free(m: Map<usize, u8>, lo: nat, hi: nat)
    requires
        lo <= usize::MAX,
    ensures
        range_unmapped(with_range_unmapped(m, lo, hi), lo, hi),
        lo < hi ==> !range_mapped(with_range_unmapped(m, lo, hi), lo, hi),
{
    if lo < hi {
        assert(in_range(lo as usize, lo, hi));
    }
}

/// Growing the heap and then shrinking it back by the same amount (two
/// `sys_sbrk` calls with `n` and `-n`) gives back the address space, and the
/// second move is allowed whenever the first was.
pub proof fn law_sbrk_grow_then_shrink(m: Map<usize, u8>, brk: nat, new_brk: nat)
    requires
        brk <= new_brk,
        heap_move_allowed(m, brk, new_brk),
    ensures
        heap_move_allowed(heap_moved(m, brk, new_brk), new_brk, brk),
        heap_moved(heap_moved(m, brk, new_brk), new_brk, brk) == m,
{
    if brk == new_brk {
        assert(heap_moved(m, brk, new_brk) =~= m);
    } else {
        assert(spec_ceil(brk) <= spec_ceil(new_brk)) by {
            vstd::arithmetic::div_mod::lemma_div_is_ordered(
                (brk + 4095) as int,
                (new_brk + 4095) as int,
                4096,
            );
        }
        law_munmap_undoes_mmap(m, spec_ceil(brk), spec_ceil(new_brk), crate::task::HEAP_PTE_FLAGS);
    }
}

/// A task that has exited is never in the ready queue. Every scheduling
/// step keeps a zombie a zombie and never makes it the running task anew
/// (the `zombies_stay` clause of `run_next_task`,
/// `suspend_current_and_run_next` and `exit_current_and_run_next`), and
/// `add_task` queues only ready tasks; so the exited task is not resumed.
pub proof fn law_zombie_never_queued(k: Kernel, pid: usize)
    requires
        k.wf(),
        pid < k.tasks@.len(),
        k.tasks@[pid as int].task_status == TaskStatus::Zombie,
    ensures
        !k.ready_queue@.contains(pid),
{
    lemma_not_ready_not_queued(k.ready_queue@, k.tasks@, pid);
}

/// Whether `b` still owes task `pid` the return value that `a` owed it.
pub open spec fn keeps_pending_result(a: Kernel, b: Kernel, pid: int) -> bool {
    &&& b.tasks@.len() == a.tasks@.len()
    &&& b.tasks@[pid].syscall_result == a.tasks@[pid].syscall_result
}

/// A task that yielded gets 0 back from its `sys_yield` when it runs again.
/// `states` starts at the state that `sys_yield` left, in which the caller
/// waits in the ready queue and is owed 0, and each state follows from the
/// one before by a step that keeps what the caller is owed: a scheduling
/// step (`same_but_status` in `run_next_task`, `suspend_current_and_run_next`
/// and `sys_yield`, `same_accounting` in `exited`) or a system call of
/// another task (`only_current_memory_changed`). Once the caller is again
/// the running task, the value its call returns
/// ([`Kernel::current_return_value`]) is 0.
pub proof fn law_yield_returns_zero_when_resumed(states: Seq<Kernel>, caller: usize)
    requires
        states.len() > 0,
        caller < states[0].tasks@.len(),
        states[0].tasks@[caller as int].syscall_result == 0,
        forall|i: int|
            0 <= i < states.len() - 1 ==> #[trigger] keeps_pending_result(
                states[i],
                states[i + 1],
                caller as int,
            ),
        states.last().current == Some(caller),
        states.last().current_running(),
    ensures
        states.last().cur() == caller as int,
        states.last().tasks@[caller as int].task_status == TaskStatus::Running,
        states.last().tasks@[caller as int].syscall_result == 0,
{
    lemma_pending_result_kept(states, caller as int);
}

/// Along steps that each keep what task `pid` is owed, the last state owes
/// it what the first did.
proof fn lemma_pending_result_kept(states: Seq<Kernel>, pid: int)
    requires
        states.len() > 0,
        0 <= pid < states[0].tasks@.len(),
        forall|i: int|
            0 <= i < states.len() - 1 ==> #[trigger] keeps_pending_result(states[i], states[i + 1], pid),
    ensures
        states.last().tasks@.len() == states[0].tasks@.len(),
        states.last().tasks@[pid].syscall_result == states[0].tasks@[pid].syscall_result,
    decreases states.len(),
{
    if states.len() > 1 {
        let prefix = states.drop_last();
        assert forall|i: int| 0 <= i < prefix.len() - 1 implies #[trigger] keeps_pending_result(
            prefix[i],
            prefix[i + 1],
            pid,
        ) by {
            assert(keeps_pending_result(states[i], states[i + 1], pid));
        }
        lemma_pending_result_kept(prefix, pid);
        let j = states.len() - 2;
        assert(keeps_pending_result(states[j], states[j + 1], pid));
        assert(prefix.last() == states[j]);
    }
}

/// An address is aligned exactly when it is a multiple of the 4096-byte
/// page size: `sys_mmap` and `sys_munmap` refuse every other start.
pub proof fn law_aligned_is_page_multiple(va: nat)
    ensures
        spec_aligned(va) <==> va % 4096 == 0,
{
}

/// The page of an address is the one whose 4096 bytes hold it, and the
/// ceiling page is the least page boundary at or above it.
pub proof fn law_floor_and_ceil_pages(va: nat)
    ensures
        spec_floor(va) * 4096 <= va < spec_floor(va) * 4096 + 4096,
        va <= spec_ceil(va) * 4096 < va + 4096,
{
    assert(spec_floor(va) * 4096 <= va < spec_floor(va) * 4096 + 4096) by (nonlinear_arith);
    assert(va <= spec_ceil(va) * 4096 < va + 4096) by (nonlinear_arith)
        requires
            spec_ceil(va) == (va + 4095) / 4096,
    ;
}

/// An SV39 address keeps the low 39 bits of the integer it is made from,
/// which leaves its offset inside a page as it was.
pub proof fn law_virtual_address_keeps_low_bits(v: usize)
    ensures
        va_space() == 0x80_0000_0000,
        spec_va_from(v) == (v as nat) % 0x80_0000_0000,
        spec_va_from(v) % 4096 == (v as nat) % 4096,
{
    vstd::arithmetic::div_mod::lemma_mod_mod(v as int, 4096, 0x800_0000);
    assert(4096 * 0x800_0000int == 0x80_0000_0000int);
}

/// Moving the heap end by `size` bytes puts it exactly `size` bytes from
/// where it was, for every size, negative or positive.
pub proof fn law_new_brk_is_sum(brk: usize, size: i32)
    ensures
        spec_new_brk(brk, size) == brk as int + size as int,
        spec_new_brk(brk, size) - brk as int == size as int,
{
}

/// The eight bytes `le_byte(x, 0..8)` are the base-256 digits of `x`, least
/// significant first: read back as a little-endian number they give `x`.
pub proof fn law_le_bytes_read_back(x: u64)
    ensures
        le_byte(x, 0) + le_byte(x, 1) * 0x100 + le_byte(x, 2) * 0x1_0000 + le_byte(x, 3)
            * 0x100_0000 + le_byte(x, 4) * 0x1_0000_0000 + le_byte(x, 5) * 0x100_0000_0000
            + le_byte(x, 6) * 0x1_0000_0000_0000 + le_byte(x, 7) * 0x100_0000_0000_0000 == x,
{
    let b0 = x & 0xff;
    let b1 = (x >> 8u64) & 0xff;
    let b2 = (x >> 16u64) & 0xff;
    let b3 = (x >> 24u64) & 0xff;
    let b4 = (x >> 32u64) & 0xff;
    let b5 = (x >> 40u64) & 0xff;
    let b6 = (x >> 48u64) & 0xff;
    let b7 = (x >> 56u64) & 0xff;
    assert(b0 + b1 * 0x100 + b2 * 0x1_0000 + b3 * 0x100_0000 + b4 * 0x1_0000_0000 + b5
        * 0x100_0000_0000 + b6 * 0x1_0000_0000_0000 + b7 * 0x100_0000_0000_0000 == x
        && b0 < 256 && b1 < 256 && b2 < 256 && b3 < 256 && b4 < 256 && b5 < 256 && b6 < 256
        && b7 < 256) by (bit_vector)
        requires
            b0 == x & 0xff,
            b1 == (x >> 8u64) & 0xff,
            b2 == (x >> 16u64) & 0xff,
            b3 == (x >> 24u64) & 0xff,
            b4 == (x >> 32u64) & 0xff,
            b5 == (x >> 40u64) & 0xff,
            b6 == (x >> 48u64) & 0xff,
            b7 == (x >> 56u64) & 0xff,
    ;
    assert(x >> 0u64 == x) by (bit_vector);
    assert(le_byte(x, 0) == b0);
    assert(le_byte(x, 1) == b1);
    assert(le_byte(x, 2) == b2);
    assert(le_byte(x, 3) == b3);
    assert(le_byte(x, 4) == b4);
    assert(le_byte(x, 5) == b5);
    assert(le_byte(x, 6) == b6);
    assert(le_byte(x, 7) == b7);
}

/// The page-table flags `sys_mmap` gives for a valid `port`: valid and user
/// always, read for port bit 1, write for port bit 2, execute for port bit
/// 4, and nothing else.
pub proof fn law_mmap_flags_follow_port(port: usize)
    requires
        1 <= port <= 7,
    ensures
        mmap_pte_flags(port) & 1 == 1,
        mmap_pte_flags(port) & 16 == 16,
        (mmap_pte_flags(port) & 2 == 2) == (port & 1 == 1),
        (mmap_pte_flags(port) & 4 == 4) == (port & 2 == 2),
        (mmap_pte_flags(port) & 8 == 8) == (port & 4 == 4),
        mmap_pte_flags(port) < 32,
{
    let f = mmap_pte_flags(port);
    assert(f == 17 + 2 * port);
    assert({
        &&& f & 1 == 1
        &&& f & 16 == 16
        &&& (f & 2 == 2) == (port & 1 == 1)
        &&& (f & 4 == 4) == (port & 2 == 2)
        &&& (f & 8 == 8) == (port & 4 == 4)
        &&& f < 32
    }) by (bit_vector)
        requires
            f as usize == 17 + 2 * port,
            1 <= port <= 7,
    ;
}

/// An exit records exactly the code it was given: the exiting task becomes
/// a zombie with exit code `code`, no children and no mapped page, and each
/// of its children now has the initial process as parent.
pub proof fn law_exit_records_code(old: Kernel, new: Kernel, code: i32)
    requires
        old.wf(),
        old.current_running(),
        exited(old, new, code),
    ensures
        new.tasks@[old.cur()].exit_code == code,
        new.tasks@[old.cur()].task_status == TaskStatus::Zombie,
        new.tasks@[old.cur()].children@.len() == 0,
        new.tasks@[old.cur()].memory_set@.dom().len() == 0,
        forall|c: usize|
            #[trigger] old.tasks@[old.cur()].children@.contains(c) && c < old.tasks@.len()
                ==> new.tasks@[c as int].parent == Some(INITPROC_PID),
{
    let cur = old.cur();
    assert(new.tasks@[cur].task_status == TaskStatus::Zombie);
    assert(crate::task::task_after_exit(
        old.tasks@[cur],
        new.tasks@[cur],
        cur,
        cur,
        old.tasks@[cur].children@,
        code,
    ));
    assert(new.tasks@[cur].memory_set@.dom() =~= Set::<usize>::empty());
    assert forall|c: usize|
        #[trigger] old.tasks@[cur].children@.contains(c) && c < old.tasks@.len() implies new.tasks@[c as int].parent
        == Some(INITPROC_PID) by {
        assert(crate::task::task_after_exit(
            old.tasks@[c as int],
            new.tasks@[c as int],
            c as int,
            cur,
            old.tasks@[cur].children@,
            code,
        ));
    }
}

/// Mapping the pages `lo..hi` adds exactly those pages, each with the given
/// flags, and keeps every other page as it was; unmapping them removes
/// exactly those pages. An area is mapped (unmapped) when each of its pages
/// is (is not).
pub proof fn law_range_changes_exactly_the_area(m: Map<usize, u8>, lo: nat, hi: nat, flags: u8)
    ensures
        forall|v: usize|
            #[trigger] with_range_mapped(m, lo, hi, flags).contains_key(v) == (m.contains_key(v)
                || (lo <= v && v < hi)),
        forall|v: usize|
            lo <= v < hi ==> #[trigger] with_range_mapped(m, lo, hi, flags)[v] == flags,
        forall|v: usize|
            !(lo <= v < hi) && m.contains_key(v) ==> #[trigger] with_range_mapped(
                m,
                lo,
                hi,
                flags,
            )[v] == m[v],
        forall|v: usize|
            #[trigger] with_range_unmapped(m, lo, hi).contains_key(v) == (m.contains_key(v) && !(
            lo <= v && v < hi)),
        forall|v: usize|
            #[trigger] with_range_unmapped(m, lo, hi).contains_key(v) ==> with_range_unmapped(
                m,
                lo,
                hi,
            )[v] == m[v],
        range_mapped(m, lo, hi) == (forall|v: usize| lo <= v < hi ==> #[trigger] m.contains_key(v)),
        range_unmapped(m, lo, hi) == (forall|v: usize|
            lo <= v < hi ==> !#[trigger] m.contains_key(v)),
{
    assert(range_mapped(m, lo, hi) == (forall|v: usize| lo <= v < hi ==> #[trigger] m.contains_key(v))) by {
        if forall|v: usize| lo <= v < hi ==> #[trigger] m.contains_key(v) {
            assert forall|v: usize| #[trigger] in_range(v, lo, hi) implies m.contains_key(v) by {}
        }
        if range_mapped(m, lo, hi) {
            assert forall|v: usize| lo <= v < hi implies #[trigger] m.contains_key(v) by {
                assert(in_range(v, lo, hi));
            }
        }
    }
    assert(range_unmapped(m, lo, hi) == (forall|v: usize|
        lo <= v < hi ==> !#[trigger] m.contains_key(v))) by {
        if forall|v: usize| lo <= v < hi ==> !#[trigger] m.contains_key(v) {
            assert forall|v: usize| #[trigger] in_range(v, lo, hi) implies !m.contains_key(v) by {}
        }
        if range_unmapped(m, lo, hi) {
            assert forall|v: usize| lo <= v < hi implies !#[trigger] m.contains_key(v) by {
                assert(in_range(v, lo, hi));
            }
        }
    }
}

/// The pieces of a user buffer of `len > 0` bytes at `va` tile it page by
/// page: there is one piece per page the buffer touches; piece `i` lies in
/// the frame of page `va / 4096 + i`, is not empty and does not cross its
/// page; the first piece starts at `va`, each next piece starts where the one
/// before ended (at the start of its page), and the last one ends at
/// `va + len`.
pub proof fn law_pieces_tile_buffer(frames: Map<usize, usize>, va: nat, len: nat, i: nat)
    requires
        len > 0,
        i < piece_count(va, len),
    ensures
        piece_count(va, len) == (va + len + 4095) / 4096 - va / 4096,
        spec_piece(frames, va, len, i).ppn == frames[(va / 4096 + i) as usize],
        spec_piece(frames, va, len, i).len > 0,
        spec_piece(frames, va, len, i).offset + spec_piece(frames, va, len, i).len <= 4096,
        i == 0 ==> (va / 4096) * 4096 + spec_piece(frames, va, len, i).offset == va,
        i + 1 < piece_count(va, len) ==> spec_piece(frames, va, len, i).offset + spec_piece(
            frames,
            va,
            len,
            i,
        ).len == 4096 && spec_piece(frames, va, len, i + 1).offset == 0,
        i + 1 == piece_count(va, len) ==> (va / 4096 + i) * 4096 + spec_piece(
            frames,
            va,
            len,
            i,
        ).offset + spec_piece(frames, va, len, i).len == va + len,
{
    law_floor_and_ceil_pages(va);
    law_floor_and_ceil_pages(va + len);
    let f = va / 4096;
    let c = (va + len + 4095) / 4096;
    assert(spec_floor(va) == f);
    assert(spec_ceil(va + len) == c);
    assert(f * 4096 <= va < f * 4096 + 4096);
    assert(va + len <= c * 4096 < va + len + 4096);
    assert(f < c) by (nonlinear_arith)
        requires
            f * 4096 <= va,
            va + len <= c * 4096,
            len > 0,
    ;
    assert(piece_count(va, len) == c - f);
    let page = f + i;
    assert(page + 1 <= c);
    assert((page + 1) * 4096 == page * 4096 + 4096) by (nonlinear_arith);
    assert(page * 4096 < va + len) by (nonlinear_arith)
        requires
            page + 1 <= c,
            c * 4096 < va + len + 4096,
    ;
    if i + 1 < c - f {
        assert((page + 1) * 4096 < va + len) by (nonlinear_arith)
            requires
                page + 2 <= c,
                c * 4096 < va + len + 4096,
        ;
        assert((page + 2) * 4096 == (page + 1) * 4096 + 4096) by (nonlinear_arith);
    } else {
        assert((page + 1) * 4096 >= va + len) by (nonlinear_arith)
            requires
                page + 1 == c,
                va + len <= c * 4096,
        ;
    }
    if i == 0 {
        assert(page * 4096 <= va);
    }
}

} // verus!
