//! Per-task state: the task control block and its parts.

use vstd::prelude::*;
use crate::config::DEFAULT_PRIORITY;
use crate::config::MAX_SYSCALL_NUM;
use crate::region::AddressSpace;

verus! {

/// Life-cycle status of one task.  `Zombie` is terminal: the task keeps
/// only its exit code until the parent reaps it.
#[derive(Clone, Copy, PartialEq, Eq, Structural, Debug)]
pub enum TaskStatus {
    Ready,
    Running,
    Zombie,
}

/// Saved execution context of a suspended task.  Opaque: it is only ever
/// handed whole to the context-switch primitive, never inspected.
#[derive(Clone, Copy, PartialEq, Eq, Structural, Debug)]
pub struct TaskContext {
    pub raw: usize,
}

impl TaskContext {
    /// The all-zero context the very first dispatch switches away from.
    pub fn zero_init() -> (r: TaskContext)
        ensures
            r.raw == 0,
    {
        TaskContext { raw: 0 }
    }
}

/// A task's saved user registers: the program location it resumes at
/// and the register that carries a syscall's return value.
#[derive(Clone, Copy, PartialEq, Eq, Structural, Debug)]
pub struct TrapContext {
    pub pc: usize,
    pub ret: usize,
}

/// What the external binary loader hands over for one application image,
/// reduced to the plain values this core reads: the entry point and the
/// lowest heap address of the fresh address space.
#[derive(Clone, Copy, PartialEq, Eq, Structural, Debug)]
pub struct AppImage {
    pub entry: usize,
    pub heap_base: usize,
}

impl AppImage {
    /// A loadable image puts the heap at a representable address.
    pub open spec fn wf(self) -> bool {
        self.heap_base <= isize::MAX as usize
    }
}

/// The per-task record: identity, status, saved contexts, owned address
/// space, family links, and scheduling and accounting metadata.
pub struct TaskControlBlock {
    /// Unique identity, never reused while any reference to the task
    /// survives.
    pub pid: usize,
    pub task_status: TaskStatus,
    pub task_cx: TaskContext,
    /// Saved user registers, written through this block alone.
    pub trap_cx: TrapContext,
    /// Exclusively owned address space; destroyed with the task.
    pub memory_set: AddressSpace,
    /// Non-owning back-reference: the pid of the creating task.
    pub parent: Option<usize>,
    /// Pids of the tasks this one created, in creation order; a child
    /// stays listed after becoming `Zombie` until reaped.
    pub children: Vec<usize>,
    /// Set exactly once, at the `Zombie` transition.
    pub exit_code: i32,
    /// Scheduling weight, always at least 2.
    pub priority: usize,
    /// Quanta left in the current scheduling round.
    pub quota: usize,
    /// One counter per syscall identifier, bumped at each syscall entry.
    pub tcb_syscall_times: Vec<u32>,
    /// Clock reading at creation, in milliseconds.
    pub start_time: usize,
    /// Elapsed running time, frozen at the `Zombie` transition.
    pub time: usize,
}

/// A syscall counter moves up by one per entry and stays put at its
/// ceiling.
pub open spec fn bump(c: u32) -> u32 {
    if c == u32::MAX {
        c
    } else {
        (c + 1) as u32
    }
}

/// A counter vector of the fixed size, all zero.
pub fn zero_counters() -> (r: Vec<u32>)
    ensures
        r@.len() == MAX_SYSCALL_NUM,
        forall|i: int| 0 <= i < r@.len() ==> r@[i] == 0,
{
    let mut v: Vec<u32> = Vec::new();
    let mut k: usize = 0;
    while k < MAX_SYSCALL_NUM
        invariant
            k <= MAX_SYSCALL_NUM,
            v@.len() == k,
            forall|i: int| 0 <= i < v@.len() ==> v@[i] == 0,
        decreases MAX_SYSCALL_NUM - k,
    {
        v.push(0);
        k += 1;
    }
    v
}

impl TaskControlBlock {
    /// The task invariant: a well-formed address space, the priority
    /// floor, and the fixed counter-array size.
    pub open spec fn wf(self) -> bool {
        &&& self.memory_set.wf()
        &&& self.priority >= 2
        &&& self.tcb_syscall_times@.len() == MAX_SYSCALL_NUM
    }

    /// Every syscall counter is zero.
    pub open spec fn counts_all_zero(self) -> bool {
        forall|i: int| 0 <= i < self.tcb_syscall_times@.len() ==> self.tcb_syscall_times@[i] == 0
    }

    /// Builds a fresh task from a loaded image: an address space with no
    /// user mappings and the heap at the image's base, the default
    /// priority, every counter zero, status `Ready`.
    pub fn new(img: AppImage, pid: usize, now_ms: usize) -> (r: TaskControlBlock)
        requires
            img.wf(),
        ensures
            r.wf(),
            r.pid == pid,
            r.task_status == TaskStatus::Ready,
            r.trap_cx == (TrapContext { pc: img.entry, ret: 0 }),
            r.memory_set.regions@.len() == 0,
            r.memory_set.heap_bottom == img.heap_base,
            r.memory_set.program_brk == img.heap_base,
            r.parent is None,
            r.children@.len() == 0,
            r.priority == DEFAULT_PRIORITY,
            r.quota == DEFAULT_PRIORITY,
            r.counts_all_zero(),
            r.start_time == now_ms,
            r.time == 0,
    {
        TaskControlBlock {
            pid,
            task_status: TaskStatus::Ready,
            task_cx: TaskContext::zero_init(),
            trap_cx: TrapContext { pc: img.entry, ret: 0 },
            memory_set: AddressSpace::new_empty(img.heap_base),
            parent: None,
            children: Vec::new(),
            exit_code: 0,
            priority: DEFAULT_PRIORITY,
            quota: DEFAULT_PRIORITY,
            tcb_syscall_times: zero_counters(),
            start_time: now_ms,
            time: 0,
        }
    }

    /// Builds the child of a fork: the address space and the saved
    /// registers carried over whole, except that the child's saved
    /// syscall return value is 0 — the fork-child convention.  The new
    /// task starts `Ready`, with fresh accounting and its creator's
    /// scheduling weight.
    pub fn duplicate_for_fork(&self, new_pid: usize, parent_pid: usize) -> (r: TaskControlBlock)
        requires
            self.wf(),
        ensures
            r.wf(),
            r.pid == new_pid,
            r.task_status == TaskStatus::Ready,
            r.trap_cx == (TrapContext { pc: self.trap_cx.pc, ret: 0 }),
            r.memory_set.regions@ == self.memory_set.regions@,
            r.memory_set.page_table.areas@ == self.memory_set.page_table.areas@,
            r.memory_set.heap_bottom == self.memory_set.heap_bottom,
            r.memory_set.program_brk == self.memory_set.program_brk,
            r.parent == Some(parent_pid),
            r.children@.len() == 0,
            r.priority == self.priority,
            r.counts_all_zero(),
            r.start_time == self.start_time,
    {
        TaskControlBlock {
            pid: new_pid,
            task_status: TaskStatus::Ready,
            task_cx: TaskContext::zero_init(),
            trap_cx: TrapContext { pc: self.trap_cx.pc, ret: 0 },
            memory_set: self.memory_set.duplicate(),
            parent: Some(parent_pid),
            children: Vec::new(),
            exit_code: 0,
            priority: self.priority,
            quota: self.priority,
            tcb_syscall_times: zero_counters(),
            start_time: self.start_time,
            time: 0,
        }
    }

    /// Switches the task over to another program: a fresh address space
    /// and fresh saved registers take the previous ones' place, while
    /// identity, family links, weight and counters persist.
    pub fn replace_image(&mut self, img: AppImage)
        requires
            old(self).wf(),
            img.wf(),
        ensures
            final(self).wf(),
            final(self).memory_set.regions@.len() == 0,
            final(self).memory_set.heap_bottom == img.heap_base,
            final(self).memory_set.program_brk == img.heap_base,
            *final(self) == (TaskControlBlock {
                memory_set: final(self).memory_set,
                trap_cx: (TrapContext { pc: img.entry, ret: 0 }),
                ..*old(self)
            }),
    {
        self.memory_set = AddressSpace::new_empty(img.heap_base);
        self.trap_cx = TrapContext { pc: img.entry, ret: 0 };
    }

    /// Bumps the counter of one syscall identifier.
    pub fn count_syscall(&mut self, syscall_id: usize)
        requires
            old(self).wf(),
            syscall_id < MAX_SYSCALL_NUM,
        ensures
            final(self).wf(),
            final(self).tcb_syscall_times@ == old(self).tcb_syscall_times@.update(
                syscall_id as int,
                bump(old(self).tcb_syscall_times@[syscall_id as int]),
            ),
            *final(self) == (TaskControlBlock {
                tcb_syscall_times: final(self).tcb_syscall_times,
                ..*old(self)
            }),
    {
        let c = self.tcb_syscall_times[syscall_id];
        let bumped = if c == u32::MAX {
            c
        } else {
            c + 1
        };
        self.tcb_syscall_times.set(syscall_id, bumped);
    }
}

} // verus!
