use os::{
    sys_exit, sys_get_time, sys_mmap, sys_munmap, sys_sbrk, sys_task_info, sys_yield,
    time_val_from_us, BufferPiece, FrameAllocator, TimeVal, TIME_VAL_SIZE,
    Kernel, MapPermission, MemorySet, TaskControlBlock, TaskStatus, VirtAddr, VirtPageNum,
    HEAP_PTE_FLAGS, MAP_PERM_R, MAP_PERM_U, MAP_PERM_W, MAP_PERM_X, MAX_SYSCALL_NUM, PTE_V,
};

const HEAP_BOTTOM: usize = 0x10000;
const FIRST_FRAME: usize = 0x80400;
const FRAME_END: usize = 0x88000;

/// The kernel with the initial process running.
fn boot() -> Kernel {
    let init = TaskControlBlock::new(MemorySet::new_bare(), HEAP_BOTTOM, 5);
    let mut k = Kernel::new(init, FrameAllocator::new(FIRST_FRAME, FRAME_END));
    k.add_initproc();
    assert_eq!(k.run_next_task(), Some(0));
    k
}

/// Adds a ready task whose parent is `parent`, queues it, and returns its pid.
fn spawn(k: &mut Kernel, parent: usize) -> usize {
    let mut t = TaskControlBlock::new(MemorySet::new_bare(), HEAP_BOTTOM, 10);
    t.parent = Some(parent);
    let pid = k.tasks.len();
    k.tasks.push(t);
    k.tasks[parent].children.push(pid);
    pid
}

fn cur(k: &Kernel) -> usize {
    k.current.unwrap()
}

fn flags_of(k: &Kernel, vpn: usize) -> Option<u8> {
    k.tasks[cur(k)].memory_set.translate(VirtPageNum(vpn))
}

fn frame(k: &Kernel, vpn: usize) -> Option<usize> {
    k.tasks[cur(k)].memory_set.frame_of(VirtPageNum(vpn))
}

fn free(k: &Kernel) -> usize {
    k.frame_allocator.free_frames()
}

fn mapped(k: &Kernel, vpn: usize) -> bool {
    k.tasks[cur(k)].memory_set.vaddr_mapped(VirtPageNum(vpn))
}

fn queue(k: &Kernel) -> Vec<usize> {
    k.ready_queue.iter().copied().collect()
}

#[test]
fn get_time_splits_microseconds() {
    let tv = time_val_from_us(1_500_000);
    assert_eq!((tv.sec, tv.usec), (1, 500_000));
    let tv = time_val_from_us(0);
    assert_eq!((tv.sec, tv.usec), (0, 0));
    let tv = time_val_from_us(999_999);
    assert_eq!((tv.sec, tv.usec), (0, 999_999));
    let tv = time_val_from_us(12_000_001);
    assert_eq!(tv.sec * 1_000_000 + tv.usec, 12_000_001);
}

#[test]
fn time_val_bytes_are_little_endian() {
    let tv = TimeVal { sec: 0x0102, usec: 0x0a0b0c };
    let b = tv.to_bytes();
    assert_eq!(b, vec![2, 1, 0, 0, 0, 0, 0, 0, 0x0c, 0x0b, 0x0a, 0, 0, 0, 0, 0]);
}

#[test]
fn get_time_in_one_page() {
    let mut k = boot();
    assert_eq!(sys_mmap(&mut k, 0x1000, 0x2000, 3), 0);
    let w = sys_get_time(&k, 0x1100, 3_000_007);
    assert_eq!(w.pieces, vec![BufferPiece { ppn: frame(&k, 1).unwrap(), offset: 0x100, len: 16 }]);
    assert_eq!(w.bytes, TimeVal { sec: 3, usec: 7 }.to_bytes());
}

#[test]
fn get_time_across_two_pages() {
    let mut k = boot();
    assert_eq!(sys_mmap(&mut k, 0x1000, 0x2000, 3), 0);
    let w = sys_get_time(&k, 0x1ffc, 1);
    assert_eq!(
        w.pieces,
        vec![
            BufferPiece { ppn: frame(&k, 1).unwrap(), offset: 0xffc, len: 4 },
            BufferPiece { ppn: frame(&k, 2).unwrap(), offset: 0, len: 12 },
        ]
    );
    assert_eq!(w.bytes.len(), TIME_VAL_SIZE);
    assert_eq!(w.bytes[8], 1);
}

#[test]
fn translated_buffer_pieces() {
    let mut k = boot();
    assert_eq!(sys_mmap(&mut k, 0x1000, 0x3000, 3), 0);
    assert!(k.translated_byte_buffer(0x1234, 0).is_empty());
    let p = k.translated_byte_buffer(0x1800, 0x2000);
    assert_eq!(p.len(), 3);
    assert_eq!(p[0], BufferPiece { ppn: frame(&k, 1).unwrap(), offset: 0x800, len: 0x800 });
    assert_eq!(p[1], BufferPiece { ppn: frame(&k, 2).unwrap(), offset: 0, len: 0x1000 });
    assert_eq!(p[2], BufferPiece { ppn: frame(&k, 3).unwrap(), offset: 0, len: 0x800 });
    let p = k.translated_byte_buffer(0x2000, 0x1000);
    assert_eq!(p, vec![BufferPiece { ppn: frame(&k, 2).unwrap(), offset: 0, len: 0x1000 }]);
}

#[test]
fn record_syscall_counts_calls() {
    let mut k = boot();
    k.record_syscall(124);
    k.record_syscall(124);
    k.record_syscall(93);
    assert_eq!(k.tasks[0].syscall_times[124], 2);
    assert_eq!(k.tasks[0].syscall_times[93], 1);
    assert_eq!(k.tasks[0].syscall_times[0], 0);
}

#[test]
fn virt_addr_arithmetic() {
    assert_eq!(VirtAddr::from_usize((1usize << 39) + 0x1234).0, 0x1234);
    assert!(VirtAddr(0x3000).aligned());
    assert!(!VirtAddr(0x3001).aligned());
    assert_eq!(VirtAddr(0x3001).page_offset(), 1);
    assert_eq!(VirtAddr(0x3fff).floor(), VirtPageNum(3));
    assert_eq!(VirtAddr(0x3001).ceil(), VirtPageNum(4));
    assert_eq!(VirtAddr(0x3000).ceil(), VirtPageNum(3));
    assert_eq!(VirtAddr(0).ceil(), VirtPageNum(0));
}

#[test]
fn map_permission_bits() {
    let p = MapPermission::from_bits(MAP_PERM_U).union(MapPermission::from_bits(MAP_PERM_R));
    assert_eq!(p.bits, 18);
    assert_eq!(p.pte_flags(), 18 | PTE_V);
    assert_eq!(HEAP_PTE_FLAGS, MAP_PERM_R | MAP_PERM_W | MAP_PERM_U | PTE_V);
}

#[test]
fn mmap_rejects_bad_port() {
    let mut k = boot();
    assert_eq!(sys_mmap(&mut k, 0x1000, 0x1000, 0), -1);
    assert_eq!(sys_mmap(&mut k, 0x1000, 0x1000, 8), -1);
    assert_eq!(sys_mmap(&mut k, 0x1000, 0x1000, 0x9), -1);
    assert!(!mapped(&k, 1));
}

#[test]
fn mmap_rejects_unaligned_start() {
    let mut k = boot();
    assert_eq!(sys_mmap(&mut k, 0x1001, 0x1000, 3), -1);
    assert!(!mapped(&k, 1));
    assert!(!mapped(&k, 2));
}

#[test]
fn mmap_maps_every_page_with_port_flags() {
    let mut k = boot();
    assert_eq!(sys_mmap(&mut k, 0x1000, 0x2000, 3), 0);
    assert_eq!(flags_of(&k, 1), Some(MAP_PERM_U | MAP_PERM_R | MAP_PERM_W | PTE_V));
    assert_eq!(flags_of(&k, 2), Some(23));
    assert_eq!(flags_of(&k, 0), None);
    assert_eq!(flags_of(&k, 3), None);
    assert_eq!(sys_mmap(&mut k, 0x8000, 0x1000, 4), 0);
    assert_eq!(flags_of(&k, 8), Some(MAP_PERM_U | MAP_PERM_X | PTE_V));
    assert_eq!(sys_mmap(&mut k, 0x9000, 0x1000, 7), 0);
    assert_eq!(flags_of(&k, 9), Some(31));
}

#[test]
fn mmap_rounds_length_up_to_pages() {
    let mut k = boot();
    assert_eq!(sys_mmap(&mut k, 0x4000, 1, 1), 0);
    assert!(mapped(&k, 4));
    assert!(!mapped(&k, 5));
    assert_eq!(sys_mmap(&mut k, 0x10_0000, 0x1001, 1), 0);
    assert!(mapped(&k, 0x100));
    assert!(mapped(&k, 0x101));
    assert!(!mapped(&k, 0x102));
}

#[test]
fn mmap_of_zero_length_maps_nothing() {
    let mut k = boot();
    assert_eq!(sys_mmap(&mut k, 0x4000, 0, 1), 0);
    assert!(!mapped(&k, 4));
}

#[test]
fn mmap_keeps_low_address_bits() {
    let mut k = boot();
    assert_eq!(sys_mmap(&mut k, (1usize << 39) + 0x5000, 0x1000, 2), 0);
    assert_eq!(flags_of(&k, 5), Some(MAP_PERM_U | MAP_PERM_W | PTE_V));
}

#[test]
fn mmap_twice_fails() {
    let mut k = boot();
    assert_eq!(sys_mmap(&mut k, 0x1000, 0x3000, 1), 0);
    assert_eq!(sys_mmap(&mut k, 0x1000, 0x3000, 1), -1);
    assert_eq!(sys_mmap(&mut k, 0x3000, 0x1000, 2), -1);
    assert_eq!(flags_of(&k, 3), Some(MAP_PERM_U | MAP_PERM_R | PTE_V));
}

#[test]
fn munmap_undoes_mmap() {
    let mut k = boot();
    assert_eq!(sys_mmap(&mut k, 0x7000, 0x1000, 3), 0);
    assert_eq!(sys_mmap(&mut k, 0x1000, 0x3000, 3), 0);
    assert_eq!(sys_munmap(&mut k, 0x1000, 0x3000), 0);
    for vpn in 1..4 {
        assert!(!mapped(&k, vpn));
    }
    assert!(mapped(&k, 7));
    assert_eq!(sys_mmap(&mut k, 0x1000, 0x3000, 1), 0);
}

#[test]
fn munmap_requires_every_page_mapped() {
    let mut k = boot();
    assert_eq!(sys_munmap(&mut k, 0x1000, 0x1000), -1);
    assert_eq!(sys_mmap(&mut k, 0x1000, 0x1000, 3), 0);
    assert_eq!(sys_munmap(&mut k, 0x1000, 0x2000), -1);
    assert!(mapped(&k, 1));
    assert_eq!(sys_munmap(&mut k, 0x1000, 0x1000), 0);
    assert_eq!(sys_munmap(&mut k, 0x1000, 0x1000), -1);
}

#[test]
fn munmap_rejects_unaligned_start() {
    let mut k = boot();
    assert_eq!(sys_mmap(&mut k, 0x1000, 0x1000, 3), 0);
    assert_eq!(sys_munmap(&mut k, 0x1004, 0x10), -1);
    assert!(mapped(&k, 1));
}

#[test]
fn sbrk_grows_and_shrinks_heap() {
    let mut k = boot();
    assert_eq!(sys_sbrk(&mut k, 4096), HEAP_BOTTOM as isize);
    assert_eq!(k.tasks[0].program_brk, HEAP_BOTTOM + 4096);
    assert_eq!(flags_of(&k, 0x10), Some(HEAP_PTE_FLAGS));
    assert!(!mapped(&k, 0x11));
    assert_eq!(sys_sbrk(&mut k, 100), (HEAP_BOTTOM + 4096) as isize);
    assert!(mapped(&k, 0x11));
    assert_eq!(sys_sbrk(&mut k, -100), (HEAP_BOTTOM + 4196) as isize);
    assert!(!mapped(&k, 0x11));
    assert_eq!(sys_sbrk(&mut k, -4096), (HEAP_BOTTOM + 4096) as isize);
    assert!(!mapped(&k, 0x10));
    assert_eq!(k.tasks[0].program_brk, HEAP_BOTTOM);
}

#[test]
fn sbrk_below_heap_bottom_fails() {
    let mut k = boot();
    assert_eq!(sys_sbrk(&mut k, -1), -1);
    assert_eq!(k.tasks[0].program_brk, HEAP_BOTTOM);
    assert_eq!(sys_sbrk(&mut k, 0), HEAP_BOTTOM as isize);
    assert_eq!(k.tasks[0].program_brk, HEAP_BOTTOM);
}

#[test]
fn sbrk_grow_then_shrink_restores_memory() {
    let mut k = boot();
    assert_eq!(sys_mmap(&mut k, 0x1000, 0x1000, 3), 0);
    assert_eq!(sys_sbrk(&mut k, 3 * 4096 + 5), HEAP_BOTTOM as isize);
    for vpn in 0x10..0x14 {
        assert!(mapped(&k, vpn));
    }
    assert_eq!(sys_sbrk(&mut k, -(3 * 4096 + 5)), (HEAP_BOTTOM + 3 * 4096 + 5) as isize);
    for vpn in 0x10..0x14 {
        assert!(!mapped(&k, vpn));
    }
    assert!(mapped(&k, 1));
    assert_eq!(k.tasks[0].program_brk, HEAP_BOTTOM);
}

#[test]
fn yield_rotates_ready_queue() {
    let mut k = boot();
    let a = spawn(&mut k, 0);
    let b = spawn(&mut k, 0);
    k.add_task(a);
    k.add_task(b);
    k.tasks[0].syscall_result = 5;
    assert_eq!(sys_yield(&mut k), a);
    assert_eq!(cur(&k), a);
    assert_eq!(queue(&k), vec![b, 0]);
    assert_eq!(k.tasks[0].task_status, TaskStatus::Ready);
    assert_eq!(k.tasks[0].syscall_result, 0);
    assert_eq!(k.tasks[a].task_status, TaskStatus::Running);
    assert_eq!(sys_yield(&mut k), b);
    assert_eq!(cur(&k), b);
    assert_eq!(queue(&k), vec![0, a]);
    assert_eq!(sys_yield(&mut k), 0);
    assert_eq!(cur(&k), 0);
    assert_eq!(k.tasks[0].task_status, TaskStatus::Running);
    assert_eq!(k.current_return_value(), 0);
}

#[test]
fn yielded_task_gets_zero_when_resumed() {
    let mut k = boot();
    let a = spawn(&mut k, 0);
    k.add_task(a);
    k.tasks[0].syscall_result = 9;
    assert_eq!(sys_yield(&mut k), a);
    assert_eq!(sys_mmap(&mut k, 0x1000, 0x1000, 3), 0);
    assert_eq!(k.current_return_value(), 0);
    k.tasks[a].syscall_result = 4;
    assert_eq!(sys_yield(&mut k), 0);
    assert_eq!(cur(&k), 0);
    assert_eq!(k.tasks[0].task_status, TaskStatus::Running);
    assert_eq!(k.current_return_value(), 0);
    assert_eq!(k.tasks[a].task_status, TaskStatus::Ready);
    assert_eq!(k.tasks[a].syscall_result, 0);
}

#[test]
fn yield_alone_keeps_running() {
    let mut k = boot();
    assert_eq!(sys_yield(&mut k), 0);
    assert_eq!(k.tasks[0].syscall_result, 0);
    assert_eq!(cur(&k), 0);
    assert!(queue(&k).is_empty());
    assert_eq!(k.tasks[0].task_status, TaskStatus::Running);
}

#[test]
fn exit_hands_children_to_initproc() {
    let mut k = boot();
    let a = spawn(&mut k, 0);
    let b = spawn(&mut k, 0);
    let c = spawn(&mut k, a);
    let d = spawn(&mut k, a);
    k.add_task(a);
    k.add_task(b);
    k.add_task(c);
    sys_yield(&mut k);
    assert_eq!(cur(&k), a);
    assert_eq!(sys_mmap(&mut k, 0x1000, 0x1000, 3), 0);
    sys_exit(&mut k, 7);
    assert_eq!(k.tasks[a].task_status, TaskStatus::Zombie);
    assert_eq!(k.tasks[a].exit_code, 7);
    assert!(k.tasks[a].children.is_empty());
    assert!(!k.tasks[a].memory_set.vaddr_mapped(VirtPageNum(1)));
    assert_eq!(k.tasks[c].parent, Some(0));
    assert_eq!(k.tasks[d].parent, Some(0));
    assert_eq!(k.tasks[0].children, vec![a, b, c, d]);
    assert_eq!(k.tasks[a].parent, Some(0));
    assert_eq!(cur(&k), b);
    assert_eq!(k.tasks[b].task_status, TaskStatus::Running);
    assert_eq!(queue(&k), vec![c, 0]);
}

#[test]
fn exit_with_empty_queue_leaves_processor_on_zombie() {
    let mut k = boot();
    let a = spawn(&mut k, 0);
    k.add_task(a);
    sys_yield(&mut k);
    assert_eq!(cur(&k), a);
    assert_eq!(queue(&k), vec![0]);
    sys_exit(&mut k, -2);
    assert_eq!(cur(&k), 0);
    assert_eq!(k.tasks[a].task_status, TaskStatus::Zombie);
    let mut k2 = boot();
    let b = spawn(&mut k2, 0);
    k2.tasks[0].task_status = TaskStatus::Ready;
    k2.current = Some(b);
    k2.tasks[b].task_status = TaskStatus::Running;
    sys_exit(&mut k2, 1);
    assert_eq!(k2.current, Some(b));
    assert_eq!(k2.tasks[b].task_status, TaskStatus::Zombie);
}

#[test]
fn task_info_reports_running_task() {
    let mut k = boot();
    k.tasks[0].syscall_times[64] = 3;
    assert_eq!(sys_mmap(&mut k, 0x1000, 0x2000, 3), 0);
    let (ti, pieces) = sys_task_info(&k, 0x1f00, 2016, 105);
    assert_eq!(
        pieces,
        vec![
            BufferPiece { ppn: frame(&k, 1).unwrap(), offset: 0xf00, len: 0x100 },
            BufferPiece { ppn: frame(&k, 2).unwrap(), offset: 0, len: 2016 - 0x100 },
        ]
    );
    assert_eq!(ti.status, TaskStatus::Running);
    assert_eq!(ti.time, 100);
    assert_eq!(ti.syscall_times[64], 3);
    assert_eq!(ti.syscall_times.len(), MAX_SYSCALL_NUM);
    assert_eq!(ti.syscall_times.iter().map(|&x| x as usize).sum::<usize>(), 3);
}

#[test]
fn new_task_starts_ready_and_empty() {
    let t = TaskControlBlock::new(MemorySet::new_bare(), 0x2000, 9);
    assert_eq!(t.task_status, TaskStatus::Ready);
    assert_eq!(t.program_brk, 0x2000);
    assert_eq!(t.parent, None);
    assert!(t.children.is_empty());
    assert!(t.syscall_times.iter().all(|&x| x == 0));
}

#[test]
fn current_status_of_exited_task() {
    let mut k = boot();
    let b = spawn(&mut k, 0);
    k.tasks[0].task_status = TaskStatus::Ready;
    k.current = Some(b);
    k.tasks[b].task_status = TaskStatus::Running;
    assert_eq!(k.current_status(), TaskStatus::Running);
    sys_exit(&mut k, 1);
    assert_eq!(k.current_status(), TaskStatus::Zombie);
}

#[test]
fn mmap_takes_distinct_fresh_frames() {
    let mut k = boot();
    let before = free(&k);
    assert_eq!(sys_mmap(&mut k, 0x1000, 0x3000, 3), 0);
    assert_eq!(free(&k), before - 3);
    let frames: Vec<usize> = (1..4).map(|v| frame(&k, v).unwrap()).collect();
    assert_eq!(frames, vec![FIRST_FRAME, FIRST_FRAME + 1, FIRST_FRAME + 2]);
    assert_eq!(sys_mmap(&mut k, 0x8000, 0x1000, 1), 0);
    assert_eq!(frame(&k, 8), Some(FIRST_FRAME + 3));
}

#[test]
fn munmap_returns_frames_for_reuse() {
    let mut k = boot();
    let before = free(&k);
    assert_eq!(sys_mmap(&mut k, 0x1000, 0x2000, 3), 0);
    assert_eq!(sys_munmap(&mut k, 0x1000, 0x2000), 0);
    assert_eq!(free(&k), before);
    assert_eq!(frame(&k, 1), None);
    assert_eq!(sys_mmap(&mut k, 0x5000, 0x1000, 3), 0);
    let f = frame(&k, 5).unwrap();
    assert!(f == FIRST_FRAME || f == FIRST_FRAME + 1);
    assert_eq!(sys_mmap(&mut k, 0x6000, 0x1000, 3), 0);
    assert_ne!(frame(&k, 6), Some(f));
}

#[test]
fn sbrk_takes_and_returns_frames() {
    let mut k = boot();
    let before = free(&k);
    assert_eq!(sys_sbrk(&mut k, 2 * 4096), HEAP_BOTTOM as isize);
    assert_eq!(free(&k), before - 2);
    assert!(frame(&k, 0x10).is_some());
    assert_ne!(frame(&k, 0x10), frame(&k, 0x11));
    assert_eq!(sys_sbrk(&mut k, -(2 * 4096)), (HEAP_BOTTOM + 2 * 4096) as isize);
    assert_eq!(free(&k), before);
}

#[test]
fn exit_returns_all_frames() {
    let mut k = boot();
    let a = spawn(&mut k, 0);
    k.add_task(a);
    sys_yield(&mut k);
    let before = free(&k);
    assert_eq!(sys_mmap(&mut k, 0x1000, 0x4000, 3), 0);
    assert_eq!(sys_sbrk(&mut k, 100), HEAP_BOTTOM as isize);
    assert_eq!(free(&k), before - 5);
    sys_exit(&mut k, 0);
    assert_eq!(free(&k), before);
    assert!(!k.ready_queue.contains(&a));
    assert_eq!(cur(&k), 0);
}

#[test]
fn zombie_is_not_scheduled_again() {
    let mut k = boot();
    let a = spawn(&mut k, 0);
    k.add_task(a);
    sys_yield(&mut k);
    assert_eq!(cur(&k), a);
    sys_exit(&mut k, 0);
    for _ in 0..3 {
        sys_yield(&mut k);
        assert_eq!(cur(&k), 0);
        assert!(!k.ready_queue.contains(&a));
        assert_eq!(k.tasks[a].task_status, TaskStatus::Zombie);
    }
}

#[test]
fn frame_allocator_reuses_recycled_frames() {
    let mut fa = FrameAllocator::new(10, 12);
    assert_eq!(fa.free_frames(), 2);
    assert_eq!(fa.frame_alloc(), Some(10));
    assert_eq!(fa.frame_alloc(), Some(11));
    assert_eq!(fa.frame_alloc(), None);
    fa.frame_dealloc(10);
    assert_eq!(fa.free_frames(), 1);
    assert_eq!(fa.frame_alloc(), Some(10));
}
