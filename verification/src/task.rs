//! Task management: the task control blocks, the ready queue of the
//! scheduler, the processor's current task, and the transitions that
//! suspend or end the running task.

use vstd::prelude::*;
use std::collections::VecDeque;
use crate::address::{spec_ceil, spec_floor, VirtAddr, VirtPageNum};
use crate::config::MAX_SYSCALL_NUM;
use crate::frame_allocator::FrameAllocator;
use crate::memory_set::{
    range_mapped, range_unmapped, with_range_mapped, with_range_unmapped, MemorySet, MapPermission,
    MAP_PERM_R, MAP_PERM_U, MAP_PERM_W, PTE_V,
};

verus! {

broadcast use vstd::seq_lib::group_seq_properties;

/// The pid whose exit means that every application has completed.
pub const IDLE_PID: usize = 0;

/// The pid of the initial process, which adopts the children of exiting tasks.
pub const INITPROC_PID: usize = 0;

/// Page-table flags of heap pages: readable, writable, user, valid.
pub const HEAP_PTE_FLAGS: u8 = MAP_PERM_R | MAP_PERM_W | MAP_PERM_U | PTE_V;

/// The life-cycle state of a task.
#[derive(Clone, Copy, Debug, PartialEq, Eq, Structural)]
pub enum TaskStatus {
    Ready,
    Running,
    Zombie,
}

/// The control block of one task.
pub struct TaskControlBlock {
    pub task_status: TaskStatus,
    pub parent: Option<usize>,
    pub children: Vec<usize>,
    pub exit_code: i32,
    pub memory_set: MemorySet,
    /// Lowest address of the heap.
    pub heap_bottom: usize,
    /// Current end of the heap.
    pub program_brk: usize,
    /// How many times the task made each system call.
    pub syscall_times: [u32; MAX_SYSCALL_NUM],
    /// Time, in milliseconds, at which the task was created.
    pub sys_time: usize,
    /// What the task's pending system call returns to it when the task runs
    /// again (the return register of its saved trap context).
    pub syscall_result: isize,
}

/// The fields of a control block that neither the heap nor the address
/// space nor the life cycle touch.
pub open spec fn same_accounting(a: TaskControlBlock, b: TaskControlBlock) -> bool {
    &&& a.heap_bottom == b.heap_bottom
    &&& a.syscall_times == b.syscall_times
    &&& a.sys_time == b.sys_time
    &&& a.syscall_result == b.syscall_result
}

/// `a` and `b` agree on everything but the status and the pending return
/// value: what a task keeps while it waits to run again.
pub open spec fn same_but_schedule(a: TaskControlBlock, b: TaskControlBlock) -> bool {
    &&& a.heap_bottom == b.heap_bottom
    &&& a.syscall_times == b.syscall_times
    &&& a.sys_time == b.sys_time
    &&& a.program_brk == b.program_brk
    &&& a.memory_set == b.memory_set
    &&& a.parent == b.parent
    &&& a.children@ == b.children@
    &&& a.exit_code == b.exit_code
}

/// `a` and `b` agree on everything but the system call counts.
pub open spec fn same_but_counts(a: TaskControlBlock, b: TaskControlBlock) -> bool {
    &&& a.task_status == b.task_status
    &&& a.heap_bottom == b.heap_bottom
    &&& a.sys_time == b.sys_time
    &&& a.syscall_result == b.syscall_result
    &&& a.program_brk == b.program_brk
    &&& a.memory_set == b.memory_set
    &&& a.parent == b.parent
    &&& a.children@ == b.children@
    &&& a.exit_code == b.exit_code
}

/// `a` and `b` agree on everything but the address space and the program break.
pub open spec fn same_but_memory(a: TaskControlBlock, b: TaskControlBlock) -> bool {
    &&& same_accounting(a, b)
    &&& a.task_status == b.task_status
    &&& a.parent == b.parent
    &&& a.children@ == b.children@
    &&& a.exit_code == b.exit_code
}

/// `a` and `b` agree on everything but the status.
pub open spec fn same_but_status(a: TaskControlBlock, b: TaskControlBlock) -> bool {
    &&& same_accounting(a, b)
    &&& a.program_brk == b.program_brk
    &&& a.memory_set == b.memory_set
    &&& a.parent == b.parent
    &&& a.children@ == b.children@
    &&& a.exit_code == b.exit_code
}

/// The end of the heap after growing or shrinking it by `size` bytes.
pub open spec fn spec_new_brk(brk: usize, size: i32) -> int {
    brk as int + size as int
}

/// The address space after the heap moved from `old_brk` to `new_brk`: the
/// pages gained are mapped as heap pages, the pages lost are unmapped.
pub open spec fn heap_moved(m: Map<usize, u8>, old_brk: nat, new_brk: nat) -> Map<usize, u8> {
    if new_brk < old_brk {
        with_range_unmapped(m, spec_ceil(new_brk), spec_ceil(old_brk))
    } else {
        with_range_mapped(m, spec_ceil(old_brk), spec_ceil(new_brk), HEAP_PTE_FLAGS)
    }
}

/// What moving the heap end needs of the address space: the pages to drop
/// are mapped, the pages to add are not.
pub open spec fn heap_move_allowed(m: Map<usize, u8>, old_brk: nat, new_brk: nat) -> bool {
    if new_brk < old_brk {
        range_mapped(m, spec_ceil(new_brk), spec_ceil(old_brk))
    } else {
        range_unmapped(m, spec_ceil(old_brk), spec_ceil(new_brk))
    }
}

impl TaskControlBlock {
    /// Well-formedness of one task: its heap end lies between the heap's
    /// bottom and the largest signed address.
    pub open spec fn wf(self) -> bool {
        self.heap_bottom <= self.program_brk <= isize::MAX
    }

    /// A fresh task, ready to run, with the given address space and an empty
    /// heap starting at `heap_bottom`.
    pub fn new(memory_set: MemorySet, heap_bottom: usize, sys_time: usize) -> (t: TaskControlBlock)
        requires
            heap_bottom <= isize::MAX,
        ensures
            t.wf(),
            t.task_status == TaskStatus::Ready,
            t.parent is None,
            t.children@ == Seq::<usize>::empty(),
            t.exit_code == 0,
            t.memory_set == memory_set,
            t.heap_bottom == heap_bottom,
            t.program_brk == heap_bottom,
            forall|i: int| 0 <= i < MAX_SYSCALL_NUM ==> #[trigger] t.syscall_times@[i] == 0,
            t.sys_time == sys_time,
            t.syscall_result == 0,
    {
        TaskControlBlock {
            task_status: TaskStatus::Ready,
            parent: None,
            children: Vec::new(),
            exit_code: 0,
            memory_set,
            heap_bottom,
            program_brk: heap_bottom,
            syscall_times: [0u32; MAX_SYSCALL_NUM],
            sys_time,
            syscall_result: 0,
        }
    }
}

/// The kernel's task state: every task control block (indexed by pid), the
/// scheduler's queue of ready tasks, and the task the processor runs.
pub struct Kernel {
    pub tasks: Vec<TaskControlBlock>,
    pub ready_queue: VecDeque<usize>,
    pub current: Option<usize>,
    pub frame_allocator: FrameAllocator,
}

/// Appending an element that a sequence lacks keeps it free of duplicates.
pub proof fn lemma_push_no_duplicates(s: Seq<usize>, x: usize)
    requires
        s.no_duplicates(),
        !s.contains(x),
    ensures
        s.push(x).no_duplicates(),
{
    assert forall|i: int, j: int|
        0 <= i < s.push(x).len() && 0 <= j < s.push(x).len() && i != j implies s.push(x)[i]
        != s.push(x)[j] by {
        if i < s.len() && j < s.len() {
        } else if i < s.len() {
            assert(s.contains(s[i]));
        } else {
            assert(s.contains(s[j]));
        }
    }
}

/// Dropping the first element keeps a sequence free of duplicates, and the
/// dropped element does not occur in the rest.
pub proof fn lemma_drop_first_no_duplicates(s: Seq<usize>)
    requires
        s.no_duplicates(),
        s.len() > 0,
    ensures
        s.drop_first().no_duplicates(),
        !s.drop_first().contains(s[0]),
{
    assert forall|i: int, j: int|
        0 <= i < s.drop_first().len() && 0 <= j < s.drop_first().len() && i != j implies s.drop_first()[i]
        != s.drop_first()[j] by {
        assert(s.drop_first()[i] == s[i + 1]);
        assert(s.drop_first()[j] == s[j + 1]);
    }
    if s.drop_first().contains(s[0]) {
        let k = choose|k: int| 0 <= k < s.drop_first().len() && s.drop_first()[k] == s[0];
        assert(s[k + 1] == s[0]);
    }
}

/// Every task is well formed.
pub open spec fn tasks_wf(tasks: Seq<TaskControlBlock>) -> bool {
    forall|p: int| 0 <= p < tasks.len() ==> #[trigger] tasks[p].wf()
}

/// The ready queue holds distinct tasks, each in the `Ready` state.
pub open spec fn queue_wf(queue: Seq<usize>, tasks: Seq<TaskControlBlock>) -> bool {
    &&& queue.no_duplicates()
    &&& forall|i: int|
        0 <= i < queue.len() ==> {
            &&& #[trigger] queue[i] < tasks.len()
            &&& tasks[queue[i] as int].task_status == TaskStatus::Ready
        }
}

/// Whether page `v` of task `p` is mapped.
pub open spec fn page_mapped(tasks: Seq<TaskControlBlock>, p: int, v: usize) -> bool {
    0 <= p < tasks.len() && tasks[p].memory_set@.contains_key(v)
}

/// The frame that backs page `v` of task `p`.
pub open spec fn page_frame(tasks: Seq<TaskControlBlock>, p: int, v: usize) -> usize {
    tasks[p].memory_set.frames()[v]
}

/// Whether some mapped page of some task is backed by frame `ppn`.
pub open spec fn frame_in_use(tasks: Seq<TaskControlBlock>, ppn: usize) -> bool {
    exists|p: int, v: usize| page_mapped(tasks, p, v) && page_frame(tasks, p, v) == ppn
}

/// Frame bookkeeping: the frame of every mapped page is in use in the
/// allocator, and no frame backs two pages.
pub open spec fn frames_wf(tasks: Seq<TaskControlBlock>, fa: FrameAllocator) -> bool {
    &&& fa.wf()
    &&& forall|p: int, v: usize| #[trigger] page_mapped(tasks, p, v) ==> fa.allocated(page_frame(tasks, p, v))
    &&& forall|p1: int, v1: usize, p2: int, v2: usize|
        #![trigger page_frame(tasks, p1, v1), page_frame(tasks, p2, v2)]
        page_mapped(tasks, p1, v1) && page_mapped(tasks, p2, v2) && page_frame(tasks, p1, v1)
            == page_frame(tasks, p2, v2) ==> p1 == p2 && v1 == v2
}

/// A frame that the allocator holds free backs no page.
pub proof fn lemma_free_frame_not_in_use(tasks: Seq<TaskControlBlock>, fa: FrameAllocator, ppn: usize)
    requires
        frames_wf(tasks, fa),
        !fa.allocated(ppn),
    ensures
        !frame_in_use(tasks, ppn),
{
    if frame_in_use(tasks, ppn) {
        let (p, v) = choose|p: int, v: usize| page_mapped(tasks, p, v) && page_frame(tasks, p, v) == ppn;
        assert(page_mapped(tasks, p, v));
    }
}

/// Frame bookkeeping holds as long as no address space changes.
pub(crate) proof fn lemma_frames_kept(old: Seq<TaskControlBlock>, new: Seq<TaskControlBlock>, fa: FrameAllocator)
    requires
        frames_wf(old, fa),
        new.len() == old.len(),
        forall|p: int| 0 <= p < old.len() ==> #[trigger] new[p].memory_set == old[p].memory_set,
    ensures
        frames_wf(new, fa),
{
    assert forall|p: int, v: usize| #[trigger] page_mapped(new, p, v) implies fa.allocated(page_frame(new, p, v)) by {
        assert(new[p].memory_set == old[p].memory_set);
        assert(page_mapped(old, p, v));
    }
    assert forall|p1: int, v1: usize, p2: int, v2: usize|
        page_mapped(new, p1, v1) && page_mapped(new, p2, v2) && #[trigger] page_frame(new, p1, v1)
            == #[trigger] page_frame(new, p2, v2) implies p1 == p2 && v1 == v2 by {
        assert(new[p1].memory_set == old[p1].memory_set);
        assert(new[p2].memory_set == old[p2].memory_set);
        assert(page_mapped(old, p1, v1) && page_mapped(old, p2, v2));
        assert(page_frame(old, p1, v1) == page_frame(old, p2, v2));
    }
}

/// Parents and children agree: `c` is among the children of `p` exactly
/// when `p` is the parent of `c`; no task is its own parent, and the initial
/// process has none.
pub open spec fn tree_wf(tasks: Seq<TaskControlBlock>) -> bool {
    &&& tasks[INITPROC_PID as int].parent is None
    &&& forall|p: int|
        #![trigger tasks[p].parent]
        0 <= p < tasks.len() ==> match tasks[p].parent {
            Some(q) => q < tasks.len() && q != p,
            None => true,
        }
    &&& forall|p: int, i: int|
        #![trigger tasks[p].children@[i]]
        0 <= p < tasks.len() && 0 <= i < tasks[p].children@.len() ==> tasks[p].children@[i]
            < tasks.len()
    &&& forall|p: int, c: int|
        #![trigger tasks[p].children@.contains(c as usize), tasks[c].parent]
        0 <= p < tasks.len() && 0 <= c < tasks.len() ==> (tasks[p].children@.contains(c as usize)
            <==> tasks[c].parent == Some(p as usize))
}

/// The state of task `p` after task `cur`, with children `kids`, ended with
/// `code`: the exiting task is a zombie holding its exit code, with no
/// children and an empty address space; its children now belong to the
/// initial process, which lists them after its own; every other field of
/// every task is unchanged. The status of the task scheduled next is left
/// to the caller.
pub open spec fn task_after_exit(
    old: TaskControlBlock,
    new: TaskControlBlock,
    p: int,
    cur: int,
    kids: Seq<usize>,
    code: i32,
) -> bool {
    &&& new.exit_code == (if p == cur { code } else { old.exit_code })
    &&& new.parent == (if kids.contains(p as usize) { Some(INITPROC_PID) } else { old.parent })
    &&& new.children@ == (if p == cur {
        Seq::<usize>::empty()
    } else if p == INITPROC_PID {
        old.children@ + kids
    } else {
        old.children@
    })
    &&& new.memory_set@ == (if p == cur { Map::<usize, u8>::empty() } else { old.memory_set@ })
    &&& new.program_brk == old.program_brk
    &&& same_accounting(old, new)
}

/// `new` is the kernel after the running task of `old` ended with `code` and
/// the scheduler took the next ready task, if any.
pub open spec fn exited(old: Kernel, new: Kernel, code: i32) -> bool {
    let cur = old.cur();
    let kids = old.tasks@[cur].children@;
    let q = old.ready_queue@;
    &&& new.tasks@.len() == old.tasks@.len()
    &&& forall|v: usize|
        #[trigger] old.current_memory().contains_key(v) ==> !new.frame_allocator.allocated(
            old.current_frames()[v],
        )
    &&& forall|q: usize|
        #[trigger] new.frame_allocator.allocated(q) ==> old.frame_allocator.allocated(q)
    &&& new.frame_allocator.free_count() == old.frame_allocator.free_count()
        + old.current_memory().dom().len()
    &&& q.len() == 0 ==> new.current == old.current && new.ready_queue@ == q
    &&& q.len() > 0 ==> new.current == Some(q[0]) && new.ready_queue@ == q.drop_first()
    &&& forall|p: int|
        0 <= p < old.tasks@.len() ==> #[trigger] new.tasks@[p].task_status == (if p == cur {
            TaskStatus::Zombie
        } else if q.len() > 0 && p == q[0] {
            TaskStatus::Running
        } else {
            old.tasks@[p].task_status
        })
    &&& forall|p: int|
        0 <= p < old.tasks@.len() ==> task_after_exit(
            old.tasks@[p],
            #[trigger] new.tasks@[p],
            p,
            cur,
            kids,
            code,
        )
}

/// Zombies stay zombies: a task that ended is never queued again and never
/// again becomes the running task.
pub open spec fn zombies_stay(old: Kernel, new: Kernel) -> bool {
    forall|p: int|
        0 <= p < old.tasks@.len() && #[trigger] old.tasks@[p].task_status == TaskStatus::Zombie ==> {
            &&& new.tasks@[p].task_status == TaskStatus::Zombie
            &&& !new.ready_queue@.contains(p as usize)
            &&& new.current == Some(p as usize) ==> old.current == Some(p as usize)
        }
}

/// A task that is not ready is not queued.
pub proof fn lemma_not_ready_not_queued(queue: Seq<usize>, tasks: Seq<TaskControlBlock>, pid: usize)
    requires
        queue_wf(queue, tasks),
        pid < tasks.len(),
        tasks[pid as int].task_status != TaskStatus::Ready,
    ensures
        !queue.contains(pid),
{
    if queue.contains(pid) {
        let i = choose|i: int| 0 <= i < queue.len() && queue[i] == pid;
        assert(tasks[queue[i] as int].task_status == TaskStatus::Ready);
    }
}

/// The queue stays well formed when every queued task keeps its status.
proof fn lemma_queue_kept(queue: Seq<usize>, old: Seq<TaskControlBlock>, new: Seq<TaskControlBlock>)
    requires
        queue_wf(queue, old),
        new.len() == old.len(),
        forall|i: int|
            0 <= i < queue.len() ==> #[trigger] new[queue[i] as int].task_status
                == old[queue[i] as int].task_status,
    ensures
        queue_wf(queue, new),
{
    assert forall|i: int| 0 <= i < queue.len() implies {
        &&& #[trigger] queue[i] < new.len()
        &&& new[queue[i] as int].task_status == TaskStatus::Ready
    } by {
        assert(new[queue[i] as int].task_status == old[queue[i] as int].task_status);
    }
}

/// Taking the front of a well-formed queue leaves a well-formed queue
/// without it.
proof fn lemma_queue_pop(queue: Seq<usize>, tasks: Seq<TaskControlBlock>)
    requires
        queue_wf(queue, tasks),
        queue.len() > 0,
    ensures
        queue_wf(queue.drop_first(), tasks),
        !queue.drop_first().contains(queue[0]),
{
    lemma_drop_first_no_duplicates(queue);
    assert forall|i: int| 0 <= i < queue.drop_first().len() implies {
        &&& #[trigger] queue.drop_first()[i] < tasks.len()
        &&& tasks[queue.drop_first()[i] as int].task_status == TaskStatus::Ready
    } by {
        assert(queue.drop_first()[i] == queue[i + 1]);
    }
}

/// Appending a ready task that is not queued yet keeps the queue well formed.
proof fn lemma_queue_push(queue: Seq<usize>, tasks: Seq<TaskControlBlock>, pid: usize)
    requires
        queue_wf(queue, tasks),
        pid < tasks.len(),
        tasks[pid as int].task_status == TaskStatus::Ready,
        !queue.contains(pid),
    ensures
        queue_wf(queue.push(pid), tasks),
{
    lemma_push_no_duplicates(queue, pid);
    assert forall|i: int| 0 <= i < queue.push(pid).len() implies {
        &&& #[trigger] queue.push(pid)[i] < tasks.len()
        &&& tasks[queue.push(pid)[i] as int].task_status == TaskStatus::Ready
    } by {
        if i < queue.len() {
            assert(queue.push(pid)[i] == queue[i]);
        }
    }
}

/// Between well-formed states where zombies keep their status and no zombie
/// newly becomes the running task, zombies stay out of the queue.
proof fn lemma_zombies_stay(old: Kernel, new: Kernel)
    requires
        old.wf(),
        new.wf(),
        new.tasks@.len() == old.tasks@.len(),
        forall|p: int|
            0 <= p < old.tasks@.len() && old.tasks@[p].task_status == TaskStatus::Zombie ==> {
                &&& #[trigger] new.tasks@[p].task_status == TaskStatus::Zombie
                &&& new.current == Some(p as usize) ==> old.current == Some(p as usize)
            },
    ensures
        zombies_stay(old, new),
{
    assert forall|p: int|
        0 <= p < old.tasks@.len() && #[trigger] old.tasks@[p].task_status == TaskStatus::Zombie implies
        !new.ready_queue@.contains(p as usize) by {
        assert(new.tasks@[p].task_status == TaskStatus::Zombie);
        assert(p < new.tasks.len());
        lemma_not_ready_not_queued(new.ready_queue@, new.tasks@, p as usize);
    }
}

/// In a consistent tree, `c` is a child of `p` exactly when `p` is the parent of `c`.
proof fn lemma_tree_iff(tasks: Seq<TaskControlBlock>, p: int, c: int)
    requires
        tree_wf(tasks),
        0 <= p < tasks.len(),
        0 <= c < tasks.len(),
    ensures
        tasks[p].children@.contains(c as usize) <==> tasks[c].parent == Some(p as usize),
{
}

/// `new` differs from `old` at most in the address space and the program
/// break of the running task.
pub open spec fn only_current_memory_changed(old: Kernel, new: Kernel) -> bool {
    &&& new.tasks@.len() == old.tasks@.len()
    &&& new.ready_queue@ == old.ready_queue@
    &&& new.current == old.current
    &&& forall|p: int|
        0 <= p < old.tasks@.len() && p != old.cur() ==> #[trigger] new.tasks@[p] == old.tasks@[p]
    &&& same_but_memory(old.tasks@[old.cur()], new.tasks@[old.cur()])
}

/// Changing only the running task's address space and heap end, within its
/// heap bounds, keeps the kernel well formed.
pub(crate) proof fn lemma_memory_change_keeps_wf(old: Kernel, new: Kernel)
    requires
        old.wf(),
        old.current_running(),
        only_current_memory_changed(old, new),
        new.tasks@[old.cur()].wf(),
        frames_wf(new.tasks@, new.frame_allocator),
    ensures
        new.wf(),
        new.current_running(),
{
    let cur = old.cur();
    assert forall|p: int| 0 <= p < new.tasks@.len() implies #[trigger] new.tasks@[p].wf() by {
        if p != cur {
            assert(new.tasks@[p] == old.tasks@[p]);
        }
    }
    assert forall|p: int| 0 <= p < new.tasks@.len() implies new.tasks@[p].parent
        == old.tasks@[p].parent && #[trigger] new.tasks@[p].children@ == old.tasks@[p].children@
        && new.tasks@[p].task_status == old.tasks@[p].task_status by {
        if p != cur {
            assert(new.tasks@[p] == old.tasks@[p]);
        }
    }
    assert(tree_wf(new.tasks@));
    assert forall|i: int| 0 <= i < new.ready_queue@.len() implies #[trigger] new.tasks@[new.ready_queue@[i] as int].task_status
        == old.tasks@[new.ready_queue@[i] as int].task_status by {
        if new.ready_queue@[i] as int != cur {
            assert(new.tasks@[new.ready_queue@[i] as int] == old.tasks@[new.ready_queue@[i] as int]);
        }
    }
    lemma_queue_kept(new.ready_queue@, old.tasks@, new.tasks@);
}

impl Kernel {
    /// The address space of the running task.
    pub open spec fn current_memory(self) -> Map<usize, u8> {
        self.tasks@[self.cur()].memory_set@
    }

    /// The frames backing the running task's pages.
    pub open spec fn current_frames(self) -> Map<usize, usize> {
        self.tasks@[self.cur()].memory_set.frames()
    }

    /// Whether `pid` names a task.
    pub open spec fn valid_pid(self, pid: int) -> bool {
        0 <= pid < self.tasks@.len()
    }

    /// The pid of the task the processor runs.
    pub open spec fn cur(self) -> int {
        self.current.unwrap() as int
    }

    /// Whether the processor runs a task in the `Running` state: the state in
    /// which that task can make a system call.
    pub open spec fn current_running(self) -> bool {
        &&& self.current is Some
        &&& self.valid_pid(self.cur())
        &&& self.tasks@[self.cur()].task_status == TaskStatus::Running
    }

    /// Well-formedness of the kernel's task state.
    pub open spec fn wf(self) -> bool {
        &&& self.tasks@.len() > 0
        &&& self.current is Some ==> self.valid_pid(self.cur())
        &&& tasks_wf(self.tasks@)
        &&& queue_wf(self.ready_queue@, self.tasks@)
        &&& tree_wf(self.tasks@)
        &&& frames_wf(self.tasks@, self.frame_allocator)
    }

    /// The kernel right after boot: the initial process alone, not yet
    /// queued, and nothing running.
    pub fn new(initproc: TaskControlBlock, frame_allocator: FrameAllocator) -> (k: Kernel)
        requires
            initproc.wf(),
            initproc.parent is None,
            initproc.children@.len() == 0,
            frames_wf(seq![initproc], frame_allocator),
        ensures
            k.wf(),
            k.tasks@ == seq![initproc],
            k.ready_queue@ == Seq::<usize>::empty(),
            k.current is None,
            k.frame_allocator == frame_allocator,
    {
        let mut tasks = Vec::new();
        tasks.push(initproc);
        let k = Kernel { tasks, ready_queue: VecDeque::new(), current: None, frame_allocator };
        assert(k.tasks@ =~= seq![initproc]);
        k
    }

    /// Appends task `pid` to the back of the ready queue.
    pub fn add_task(&mut self, pid: usize)
        requires
            old(self).wf(),
            old(self).valid_pid(pid as int),
            old(self).tasks@[pid as int].task_status == TaskStatus::Ready,
            !old(self).ready_queue@.contains(pid),
        ensures
            final(self).wf(),
            final(self).ready_queue@ == old(self).ready_queue@.push(pid),
            final(self).tasks == old(self).tasks,
            final(self).frame_allocator == old(self).frame_allocator,
            final(self).current == old(self).current,
    {
        self.ready_queue.push_back(pid);
        proof {
            lemma_queue_push(old(self).ready_queue@, self.tasks@, pid);
        }
    }

    /// Adds the initial process to the ready queue.
    pub fn add_initproc(&mut self)
        requires
            old(self).wf(),
            old(self).tasks@[INITPROC_PID as int].task_status == TaskStatus::Ready,
            !old(self).ready_queue@.contains(INITPROC_PID),
        ensures
            final(self).wf(),
            final(self).ready_queue@ == old(self).ready_queue@.push(INITPROC_PID),
            final(self).tasks == old(self).tasks,
            final(self).frame_allocator == old(self).frame_allocator,
            final(self).current == old(self).current,
    {
        self.add_task(INITPROC_PID);
    }

    /// Removes and returns the task at the front of the ready queue.
    pub fn fetch_task(&mut self) -> (r: Option<usize>)
        requires
            old(self).wf(),
        ensures
            final(self).tasks == old(self).tasks,
            final(self).frame_allocator == old(self).frame_allocator,
            final(self).current == old(self).current,
            old(self).ready_queue@.len() == 0 ==> r is None && final(self).ready_queue@
                == old(self).ready_queue@,
            old(self).ready_queue@.len() > 0 ==> r == Some(old(self).ready_queue@[0])
                && final(self).ready_queue@ == old(self).ready_queue@.drop_first(),
    {
        self.ready_queue.pop_front()
    }

    /// The task the processor runs, if any.
    pub fn current_task(&self) -> (r: Option<usize>)
        ensures
            r == self.current,
    {
        self.current
    }

    /// Takes the task the processor runs away from it.
    pub fn take_current_task(&mut self) -> (r: Option<usize>)
        ensures
            r == old(self).current,
            final(self).current is None,
            final(self).tasks == old(self).tasks,
            final(self).frame_allocator == old(self).frame_allocator,
            final(self).ready_queue == old(self).ready_queue,
    {
        self.current.take()
    }


    /// One round of the scheduler: the task at the front of the ready queue,
    /// if there is one, becomes the running task.
    pub fn run_next_task(&mut self) -> (r: Option<usize>)
        requires
            old(self).wf(),
        ensures
            final(self).wf(),
            final(self).frame_allocator == old(self).frame_allocator,
            zombies_stay(*old(self), *final(self)),
            old(self).ready_queue@.len() == 0 ==> {
                &&& r is None
                &&& final(self).tasks == old(self).tasks
                &&& final(self).ready_queue@ == old(self).ready_queue@
                &&& final(self).current == old(self).current
            },
            old(self).ready_queue@.len() > 0 ==> {
                let next = old(self).ready_queue@[0];
                &&& r == Some(next)
                &&& final(self).current == Some(next)
                &&& final(self).ready_queue@ == old(self).ready_queue@.drop_first()
                &&& final(self).tasks@.len() == old(self).tasks@.len()
                &&& final(self).tasks@[next as int].task_status == TaskStatus::Running
                &&& same_but_status(old(self).tasks@[next as int], final(self).tasks@[next as int])
                &&& forall|p: int|
                    old(self).valid_pid(p) && p != next ==> #[trigger] final(self).tasks@[p]
                        == old(self).tasks@[p]
            },
    {
        let ghost old_k = *self;
        match self.fetch_task() {
            Some(next) => {
                proof {
                    lemma_queue_pop(old_k.ready_queue@, old_k.tasks@);
                }
                self.set_status(next, TaskStatus::Running);
                self.current = Some(next);
                proof {
                    lemma_queue_kept(self.ready_queue@, old_k.tasks@, self.tasks@);
                    assert forall|p: int|
                        0 <= p < old_k.tasks@.len() && old_k.tasks@[p].task_status
                            == TaskStatus::Zombie implies {
                        &&& #[trigger] self.tasks@[p].task_status == TaskStatus::Zombie
                        &&& self.current == Some(p as usize) ==> old_k.current == Some(p as usize)
                    } by {
                        assert(p < old_k.tasks.len());
                        assert(p != next);
                        assert(self.tasks@[p] == old_k.tasks@[p]);
                    }
                    lemma_zombies_stay(old_k, *self);
                }
                Some(next)
            },
            None => {
                proof {
                    lemma_zombies_stay(old_k, *self);
                }
                None
            },
        }
    }

    /// Sets the status of task `pid`; nothing else changes.
    fn set_status(&mut self, pid: usize, status: TaskStatus)
        requires
            old(self).valid_pid(pid as int),
            tasks_wf(old(self).tasks@),
            tree_wf(old(self).tasks@),
            frames_wf(old(self).tasks@, old(self).frame_allocator),
        ensures
            tasks_wf(final(self).tasks@),
            tree_wf(final(self).tasks@),
            frames_wf(final(self).tasks@, final(self).frame_allocator),
            final(self).tasks@.len() == old(self).tasks@.len(),
            final(self).tasks@[pid as int].task_status == status,
            forall|p: int|
                old(self).valid_pid(p) ==> same_but_status(
                    old(self).tasks@[p],
                    #[trigger] final(self).tasks@[p],
                ),
            forall|p: int|
                old(self).valid_pid(p) && p != pid ==> #[trigger] final(self).tasks@[p] == old(
                    self,
                ).tasks@[p],
            final(self).ready_queue == old(self).ready_queue,
            final(self).current == old(self).current,
            final(self).frame_allocator == old(self).frame_allocator,
    {
        let ghost t0 = self.tasks@;
        self.tasks[pid].task_status = status;
        proof {
            assert forall|p: int| 0 <= p < self.tasks@.len() implies self.tasks@[p].parent
                == t0[p].parent && #[trigger] self.tasks@[p].children@ == t0[p].children@ by {
                if p != pid {
                    assert(self.tasks@[p] == t0[p]);
                }
            }
            assert(tree_wf(self.tasks@));
            assert forall|p: int| 0 <= p < self.tasks@.len() implies #[trigger] self.tasks@[p].wf() by {
                assert(t0[p].wf());
            }
            assert forall|p: int| 0 <= p < t0.len() implies #[trigger] self.tasks@[p].memory_set
                == t0[p].memory_set by {
                if p != pid {
                    assert(self.tasks@[p] == t0[p]);
                }
            }
            lemma_frames_kept(t0, self.tasks@, self.frame_allocator);
        }
    }

    /// Suspends the running task: it goes back, ready, to the end of the
    /// ready queue, and the task at the front of the queue runs next. The
    /// suspended task goes on only when a later scheduling step makes it the
    /// running task again; it keeps everything but its status meanwhile.
    pub fn suspend_current_and_run_next(&mut self)
        requires
            old(self).wf(),
            old(self).current_running(),
        ensures
            final(self).wf(),
            final(self).current_running(),
            final(self).frame_allocator == old(self).frame_allocator,
            zombies_stay(*old(self), *final(self)),
            seq![final(self).current.unwrap()] + final(self).ready_queue@ == old(self).ready_queue@.push(
                old(self).current.unwrap(),
            ),
            final(self).tasks@.len() == old(self).tasks@.len(),
            forall|p: int|
                old(self).valid_pid(p) ==> #[trigger] final(self).tasks@[p].task_status == (if p
                    == final(self).cur() {
                    TaskStatus::Running
                } else if p == old(self).cur() {
                    TaskStatus::Ready
                } else {
                    old(self).tasks@[p].task_status
                }),
            forall|p: int|
                old(self).valid_pid(p) ==> same_but_status(
                    old(self).tasks@[p],
                    #[trigger] final(self).tasks@[p],
                ),
    {
        let ghost k0 = *self;
        let task = self.take_current_task().unwrap();
        proof {
            lemma_not_ready_not_queued(k0.ready_queue@, k0.tasks@, task);
        }
        self.set_status(task, TaskStatus::Ready);
        proof {
            lemma_queue_kept(self.ready_queue@, k0.tasks@, self.tasks@);
        }
        let ghost k1 = *self;
        self.add_task(task);
        let ghost k2 = *self;
        self.run_next_task();
        proof {
            let q2 = k2.ready_queue@;
            assert(q2.len() > 0);
            assert(seq![q2[0]] + q2.drop_first() =~= q2);
            assert forall|p: int| k0.valid_pid(p) implies same_but_status(
                k0.tasks@[p],
                #[trigger] self.tasks@[p],
            ) by {
                assert(same_but_status(k0.tasks@[p], k1.tasks@[p]));
                if p != q2[0] {
                    assert(self.tasks@[p] == k2.tasks@[p]);
                }
            }
            lemma_zombies_stay(k0, *self);
        }
    }

    /// Ends the running task, which must not be the idle process, with
    /// `exit_code`: its user pages and their frames are released, it becomes
    /// a zombie holding its exit code, its children are handed to the initial
    /// process, and the task at the front of the ready queue runs next.
    /// The exiting task never runs again (`zombies_stay`).
    pub fn exit_current_and_run_next(&mut self, exit_code: i32)
        requires
            old(self).wf(),
            old(self).current_running(),
            old(self).cur() != IDLE_PID,
        ensures
            final(self).wf(),
            exited(*old(self), *final(self), exit_code),
            zombies_stay(*old(self), *final(self)),
            final(self).tasks@[old(self).cur()].exit_code == exit_code,
            final(self).tasks@[old(self).cur()].task_status == TaskStatus::Zombie,
    {
        let ghost k_in = *self;
        self.release_current_pages();
        let ghost k0 = *self;
        let ghost t0 = self.tasks@;
        assert(t0.len() == self.tasks.len());
        let cur = self.current_task().unwrap();
        proof {
            lemma_not_ready_not_queued(k0.ready_queue@, t0, cur);
        }
        self.tasks[cur].task_status = TaskStatus::Zombie;
        self.tasks[cur].exit_code = exit_code;
        let mut kids: Vec<usize> = Vec::new();
        std::mem::swap(&mut kids, &mut self.tasks[cur].children);
        proof {
            assert(kids@ == t0[cur as int].children@);
            assert forall|j: int| 0 <= j < kids@.len() implies #[trigger] kids@[j] < t0.len()
                && kids@[j] != cur && kids@[j] != INITPROC_PID by {
                let c = kids@[j];
                assert(t0[cur as int].children@[j] < t0.len());
                assert(t0[cur as int].children@.contains(c));
                assert(t0[cur as int].children@.contains((c as int) as usize));
                assert(t0[c as int].parent == Some(cur));
            }
        }
        let mut i: usize = 0;
        while i < kids.len()
            invariant
                0 <= i <= kids@.len(),
                kids@ == t0[cur as int].children@,
                cur != INITPROC_PID,
                cur < t0.len(),
                t0 == k0.tasks@,
                t0.len() <= usize::MAX,
                k0.wf(),
                k0.current_running(),
                k0.cur() == cur,
                forall|j: int| 0 <= j < kids@.len() ==> #[trigger] kids@[j] < t0.len()
                    && kids@[j] != cur && kids@[j] != INITPROC_PID,
                self.tasks@.len() == t0.len(),
                self.ready_queue@ == k0.ready_queue@,
                self.current == k0.current,
                self.frame_allocator == k0.frame_allocator,
                forall|p: int|
                    0 <= p < t0.len() ==> #[trigger] self.tasks@[p].task_status == (if p == cur {
                        TaskStatus::Zombie
                    } else {
                        t0[p].task_status
                    }),
                forall|p: int|
                    0 <= p < t0.len() ==> #[trigger] self.tasks@[p].exit_code == (if p == cur {
                        exit_code
                    } else {
                        t0[p].exit_code
                    }),
                forall|p: int|
                    0 <= p < t0.len() ==> #[trigger] self.tasks@[p].parent == (if kids@.subrange(
                        0,
                        i as int,
                    ).contains(p as usize) {
                        Some(INITPROC_PID)
                    } else {
                        t0[p].parent
                    }),
                forall|p: int|
                    0 <= p < t0.len() ==> #[trigger] self.tasks@[p].children@ == (if p == cur {
                        Seq::<usize>::empty()
                    } else if p == INITPROC_PID {
                        t0[p].children@ + kids@.subrange(0, i as int)
                    } else {
                        t0[p].children@
                    }),
                forall|p: int|
                    0 <= p < t0.len() ==> {
                        &&& #[trigger] self.tasks@[p].memory_set == t0[p].memory_set
                        &&& self.tasks@[p].program_brk == t0[p].program_brk
                        &&& same_accounting(t0[p], self.tasks@[p])
                    },
            decreases kids@.len() - i,
        {
            let c = kids[i];
            let ghost before = self.tasks@;
            self.tasks[c].parent = Some(INITPROC_PID);
            self.tasks[INITPROC_PID].children.push(c);
            i = i + 1;
            proof {
                assert(kids@.subrange(0, i as int) =~= kids@.subrange(0, i - 1).push(c));
                assert forall|p: int| 0 <= p < t0.len() implies #[trigger] kids@.subrange(
                    0,
                    i as int,
                ).contains(p as usize) == (kids@.subrange(0, i - 1).contains(p as usize) || p
                    == c) by {
                    assert(kids@.subrange(0, i - 1).push(c).contains(p as usize) == (kids@.subrange(
                        0,
                        i - 1,
                    ).contains(p as usize) || p as usize == c));
                }
                assert(t0[INITPROC_PID as int].children@ + kids@.subrange(0, i as int) =~= (
                t0[INITPROC_PID as int].children@ + kids@.subrange(0, i - 1)).push(c));
                assert(self.tasks@[INITPROC_PID as int].children@ == before[INITPROC_PID as int].children@.push(c));
                assert(self.tasks@[INITPROC_PID as int].children@ == t0[INITPROC_PID as int].children@
                    + kids@.subrange(0, i as int));
                assert forall|p: int| 0 <= p < t0.len() && p != INITPROC_PID implies #[trigger] self.tasks@[p].children@
                    == before[p].children@ by {
                    if p != c {
                        assert(self.tasks@[p] == before[p]);
                    }
                }
                assert forall|p: int| 0 <= p < t0.len() implies #[trigger] self.tasks@[p].exit_code
                    == before[p].exit_code && self.tasks@[p].task_status == before[p].task_status
                    && self.tasks@[p].memory_set == before[p].memory_set
                    && self.tasks@[p].program_brk == before[p].program_brk
                    && same_accounting(before[p], self.tasks@[p])
                    && (p != c ==> self.tasks@[p].parent == before[p].parent)
                    && (p != INITPROC_PID ==> self.tasks@[p].children@ == before[p].children@) by {
                    if p != c && p != INITPROC_PID {
                        assert(self.tasks@[p] == before[p]);
                    }
                }
            }
        }
        proof {
            assert(kids@.subrange(0, kids@.len() as int) =~= kids@);
            let t1 = self.tasks@;
            assert forall|p: int| 0 <= p < t0.len() implies task_after_exit(
                t0[p],
                #[trigger] t1[p],
                p,
                cur as int,
                kids@,
                exit_code,
            ) by {
                assert(t1[p].exit_code == (if p == cur { exit_code } else { t0[p].exit_code }));
                assert(t1[p].memory_set == t0[p].memory_set);
                assert(t1[p].program_brk == t0[p].program_brk);
                assert(same_accounting(t0[p], t1[p]));
            }
            // the tree stays consistent
            assert forall|p: int, c: int|
                0 <= p < t1.len() && 0 <= c < t1.len() implies (#[trigger] t1[p].children@.contains(c as usize)
                <==> #[trigger] t1[c].parent == Some(p as usize)) by {
                lemma_tree_iff(t0, p, c);
                lemma_tree_iff(t0, cur as int, c);
            }
            assert forall|p: int, j: int|
                0 <= p < t1.len() && 0 <= j < t1[p].children@.len() implies #[trigger] t1[p].children@[j]
                < t1.len() by {
                if p == INITPROC_PID && j >= t0[p].children@.len() {
                    assert(t1[p].children@[j] == kids@[j - t0[p].children@.len()]);
                } else if p != cur {
                    assert(t1[p].children@[j] == t0[p].children@[j]);
                }
            }
            assert forall|p: int| 0 <= p < t1.len() implies match #[trigger] t1[p].parent {
                Some(q) => q < t1.len() && q != p,
                None => true,
            } by {
                if kids@.contains(p as usize) {
                    let j = choose|j: int| 0 <= j < kids@.len() && kids@[j] == p as usize;
                    assert(kids@[j] != INITPROC_PID);
                }
            }
            assert(!kids@.contains(INITPROC_PID)) by {
                if kids@.contains(INITPROC_PID) {
                    let j = choose|j: int| 0 <= j < kids@.len() && kids@[j] == INITPROC_PID;
                    assert(kids@[j] != INITPROC_PID);
                }
            }
            assert(tree_wf(t1));
            assert forall|p: int| 0 <= p < t1.len() implies #[trigger] t1[p].wf() by {
                assert(t0[p].wf());
                assert(t1[p].program_brk == t0[p].program_brk);
                assert(same_accounting(t0[p], t1[p]));
            }
            assert forall|p: int| 0 <= p < t0.len() implies #[trigger] t1[p].memory_set
                == t0[p].memory_set by {}
            lemma_frames_kept(t0, t1, self.frame_allocator);
            assert forall|i: int| 0 <= i < self.ready_queue@.len() implies #[trigger] t1[self.ready_queue@[i] as int].task_status
                == t0[self.ready_queue@[i] as int].task_status by {
                assert(self.ready_queue@[i] != cur) by {
                    assert(self.ready_queue@.contains(self.ready_queue@[i]));
                }
            }
            lemma_queue_kept(self.ready_queue@, t0, t1);
        }
        let ghost k1 = *self;
        self.run_next_task();
        proof {
            assert forall|p: int| 0 <= p < t0.len() implies task_after_exit(
                k_in.tasks@[p],
                #[trigger] self.tasks@[p],
                p,
                cur as int,
                k_in.tasks@[cur as int].children@,
                exit_code,
            ) by {
                assert(task_after_exit(t0[p], k1.tasks@[p], p, cur as int, kids@, exit_code));
                if p != cur {
                    assert(t0[p] == k_in.tasks@[p]);
                }
                if k1.ready_queue@.len() == 0 || p != k1.ready_queue@[0] {
                    assert(self.tasks@[p] == k1.tasks@[p]);
                } else {
                    assert(same_but_status(k1.tasks@[p], self.tasks@[p]));
                }
            }
            assert forall|p: int| 0 <= p < t0.len() implies #[trigger] self.tasks@[p].task_status
                == (if p == cur {
                TaskStatus::Zombie
            } else if k_in.ready_queue@.len() > 0 && p == k_in.ready_queue@[0] {
                TaskStatus::Running
            } else {
                k_in.tasks@[p].task_status
            }) by {
                if p != cur {
                    assert(t0[p] == k_in.tasks@[p]);
                }
                if k1.ready_queue@.len() == 0 || p != k1.ready_queue@[0] {
                    assert(self.tasks@[p] == k1.tasks@[p]);
                }
            }
            lemma_zombies_stay(k_in, *self);
        }
    }

    /// The status of the task the processor holds: `Running` while it runs,
    /// `Zombie` when it ended and no other task was ready to take over.
    pub fn current_status(&self) -> (st: TaskStatus)
        requires
            self.current is Some,
            self.valid_pid(self.cur()),
        ensures
            st == self.tasks@[self.cur()].task_status,
    {
        let cur = self.current.unwrap();
        self.tasks[cur].task_status
    }

    /// How many times the running task made each system call.
    pub fn current_syscall_times(&self) -> (times: [u32; MAX_SYSCALL_NUM])
        requires
            self.current_running(),
        ensures
            times == self.tasks@[self.cur()].syscall_times,
    {
        let cur = self.current.unwrap();
        self.tasks[cur].syscall_times
    }

    /// The time, in milliseconds, at which the running task was created.
    pub fn current_sys_time(&self) -> (t: usize)
        requires
            self.current_running(),
        ensures
            t == self.tasks@[self.cur()].sys_time,
    {
        let cur = self.current.unwrap();
        self.tasks[cur].sys_time
    }

    /// What the running task's pending system call returns to it: read when
    /// the processor goes back to the task in user mode, after the scheduler
    /// picked it again.
    pub fn current_return_value(&self) -> (r: isize)
        requires
            self.current_running(),
        ensures
            r == self.tasks@[self.cur()].syscall_result,
    {
        let cur = self.current.unwrap();
        self.tasks[cur].syscall_result
    }

    /// Whether page `vpn` is mapped in the running task's address space.
    pub fn vaddr_mapped(&self, vpn: VirtPageNum) -> (b: bool)
        requires
            self.current_running(),
        ensures
            b == self.current_memory().contains_key(vpn.0),
    {
        let cur = self.current.unwrap();
        self.tasks[cur].memory_set.vaddr_mapped(vpn)
    }


    /// Sets what task `pid`'s pending system call returns to it when it
    /// runs again.
    pub fn set_return_value(&mut self, pid: usize, value: isize)
        requires
            old(self).wf(),
            old(self).valid_pid(pid as int),
        ensures
            final(self).wf(),
            final(self).tasks@.len() == old(self).tasks@.len(),
            final(self).tasks@[pid as int].syscall_result == value,
            final(self).tasks@[pid as int].task_status == old(self).tasks@[pid as int].task_status,
            same_but_schedule(old(self).tasks@[pid as int], final(self).tasks@[pid as int]),
            forall|p: int|
                old(self).valid_pid(p) && p != pid ==> #[trigger] final(self).tasks@[p] == old(
                    self,
                ).tasks@[p],
            final(self).ready_queue@ == old(self).ready_queue@,
            final(self).current == old(self).current,
            final(self).frame_allocator == old(self).frame_allocator,
    {
        let ghost t0 = self.tasks@;
        self.tasks[pid].syscall_result = value;
        proof {
            assert forall|p: int| 0 <= p < t0.len() implies self.tasks@[p].parent == t0[p].parent
                && #[trigger] self.tasks@[p].children@ == t0[p].children@ && self.tasks@[p].memory_set
                == t0[p].memory_set && self.tasks@[p].task_status == t0[p].task_status
                && self.tasks@[p].program_brk == t0[p].program_brk
                && self.tasks@[p].heap_bottom == t0[p].heap_bottom by {
                if p != pid as int {
                    assert(self.tasks@[p] == t0[p]);
                }
            }
            assert(tree_wf(self.tasks@));
            assert forall|p: int| 0 <= p < self.tasks@.len() implies #[trigger] self.tasks@[p].wf() by {
                assert(t0[p].wf());
                assert(self.tasks@[p].children@ == t0[p].children@);
            }
            assert forall|p: int| 0 <= p < t0.len() implies #[trigger] self.tasks@[p].memory_set
                == t0[p].memory_set by {
                assert(self.tasks@[p].children@ == t0[p].children@);
            }
            lemma_frames_kept(t0, self.tasks@, self.frame_allocator);
            assert forall|i: int| 0 <= i < self.ready_queue@.len() implies #[trigger] self.tasks@[self.ready_queue@[i] as int].task_status
                == t0[self.ready_queue@[i] as int].task_status by {
                assert(self.tasks@[self.ready_queue@[i] as int].children@ == t0[self.ready_queue@[i] as int].children@);
            }
            lemma_queue_kept(self.ready_queue@, t0, self.tasks@);
        }
    }

    /// Counts one more call of system call `syscall_id` by the running task.
    pub fn record_syscall(&mut self, syscall_id: usize)
        requires
            old(self).wf(),
            old(self).current_running(),
            syscall_id < MAX_SYSCALL_NUM,
            old(self).tasks@[old(self).cur()].syscall_times@[syscall_id as int] < u32::MAX,
        ensures
            final(self).wf(),
            final(self).current_running(),
            final(self).tasks@.len() == old(self).tasks@.len(),
            final(self).tasks@[old(self).cur()].syscall_times@ == old(self).tasks@[old(
                self,
            ).cur()].syscall_times@.update(
                syscall_id as int,
                (old(self).tasks@[old(self).cur()].syscall_times@[syscall_id as int] + 1) as u32,
            ),
            same_but_counts(old(self).tasks@[old(self).cur()], final(self).tasks@[old(self).cur()]),
            forall|p: int|
                old(self).valid_pid(p) && p != old(self).cur() ==> #[trigger] final(self).tasks@[p]
                    == old(self).tasks@[p],
            final(self).ready_queue@ == old(self).ready_queue@,
            final(self).current == old(self).current,
            final(self).frame_allocator == old(self).frame_allocator,
    {
        let pid = self.current.unwrap();
        let ghost t0 = self.tasks@;
        let n = self.tasks[pid].syscall_times[syscall_id];
        self.tasks[pid].syscall_times[syscall_id] = n + 1;
        proof {
            assert forall|p: int| 0 <= p < t0.len() implies self.tasks@[p].parent == t0[p].parent
                && #[trigger] self.tasks@[p].children@ == t0[p].children@ && self.tasks@[p].memory_set
                == t0[p].memory_set && self.tasks@[p].task_status == t0[p].task_status
                && self.tasks@[p].program_brk == t0[p].program_brk
                && self.tasks@[p].heap_bottom == t0[p].heap_bottom by {
                if p != pid as int {
                    assert(self.tasks@[p] == t0[p]);
                }
            }
            assert(tree_wf(self.tasks@));
            assert forall|p: int| 0 <= p < self.tasks@.len() implies #[trigger] self.tasks@[p].wf() by {
                assert(t0[p].wf());
                assert(self.tasks@[p].children@ == t0[p].children@);
            }
            assert forall|p: int| 0 <= p < t0.len() implies #[trigger] self.tasks@[p].memory_set
                == t0[p].memory_set by {
                assert(self.tasks@[p].children@ == t0[p].children@);
            }
            lemma_frames_kept(t0, self.tasks@, self.frame_allocator);
            assert forall|i: int| 0 <= i < self.ready_queue@.len() implies #[trigger] self.tasks@[self.ready_queue@[i] as int].task_status
                == t0[self.ready_queue@[i] as int].task_status by {
                assert(self.tasks@[self.ready_queue@[i] as int].children@ == t0[self.ready_queue@[i] as int].children@);
            }
            lemma_queue_kept(self.ready_queue@, t0, self.tasks@);
        }
    }
}

} // verus!
