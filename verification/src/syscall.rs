//! Process-control syscalls.
//!
//! Raw syscall arguments — addresses, lengths, permission bits,
//! selectors — are validated here and turned into task-manager
//! operations.  Values that belong to external collaborators (the
//! monotonic clock, the binary loader's resolution of a path) enter as
//! plain arguments; a result destined for user memory is returned
//! together with the outcome of resolving its destination through the
//! calling task's own address space, and is only to be stored where
//! that resolution succeeded.

use vstd::prelude::*;
use crate::config::PAGE_SIZE;
use crate::config::SYSCALL_EXIT;
use crate::config::SYSCALL_EXEC;
use crate::config::SYSCALL_FORK;
use crate::config::SYSCALL_GETPID;
use crate::config::SYSCALL_GET_TIME;
use crate::config::SYSCALL_MMAP;
use crate::config::SYSCALL_MUNMAP;
use crate::config::SYSCALL_SBRK;
use crate::config::SYSCALL_SET_PRIORITY;
use crate::config::SYSCALL_SPAWN;
use crate::config::SYSCALL_TASK_INFO;
use crate::config::SYSCALL_WAITPID;
use crate::config::SYSCALL_YIELD;
use crate::manager::TaskManager;
use crate::region::MapPermission;
use crate::task::AppImage;
use crate::task::TaskControlBlock;
use crate::task::TaskStatus;
use crate::task::bump;

verus! {

/// Bytes a stored `TimeVal` occupies in user memory.
pub const TIME_VAL_BYTES: usize = 16;

/// Bytes a stored `TaskInfo` occupies in user memory.
pub const TASK_INFO_BYTES: usize = 2016;

/// Bytes a stored exit code occupies in user memory.
pub const EXIT_CODE_BYTES: usize = 4;

/// Seconds and microseconds derived from the monotonic clock.
#[derive(Clone, Copy, PartialEq, Eq, Structural, Debug)]
pub struct TimeVal {
    pub sec: usize,
    pub usec: usize,
}

/// Task information
pub struct TaskInfo {
    /// Task status in its life cycle
    pub status: TaskStatus,
    /// The number of times each syscall was entered by the task
    pub syscall_times: Vec<u32>,
    /// Total running time of the task, in milliseconds
    pub time: usize,
}

/// The current task as seen by a syscall, after its entry was counted.
pub open spec fn cur_of(m: TaskManager) -> TaskControlBlock {
    m.tcb(m.current_task as int)
}

/// Exactly the named syscall's entry counter moved, by one.
pub open spec fn counts_bumped(a: TaskControlBlock, b: TaskControlBlock, id: int) -> bool {
    b.tcb_syscall_times@ == a.tcb_syscall_times@.update(id, bump(a.tcb_syscall_times@[id]))
}

/// The two task records differ at most in the syscall counters.
pub open spec fn same_but_counts(a: TaskControlBlock, b: TaskControlBlock) -> bool {
    b == (TaskControlBlock { tcb_syscall_times: b.tcb_syscall_times, ..a })
}

/// ... at most in the counters and the address space.
pub open spec fn same_but_counts_and_memory(a: TaskControlBlock, b: TaskControlBlock) -> bool {
    b == (TaskControlBlock {
        tcb_syscall_times: b.tcb_syscall_times,
        memory_set: b.memory_set,
        ..a
    })
}

/// ... at most in the counters and the children list.
pub open spec fn same_but_counts_and_children(a: TaskControlBlock, b: TaskControlBlock) -> bool {
    b == (TaskControlBlock { tcb_syscall_times: b.tcb_syscall_times, children: b.children, ..a })
}

/// ... at most in the counters and the scheduling weight.
pub open spec fn same_but_counts_and_priority(a: TaskControlBlock, b: TaskControlBlock) -> bool {
    b == (TaskControlBlock { tcb_syscall_times: b.tcb_syscall_times, priority: b.priority, ..a })
}

/// ... at most in the counters, the address space and the saved
/// registers.
pub open spec fn same_but_counts_memory_and_trap(
    a: TaskControlBlock,
    b: TaskControlBlock,
) -> bool {
    b == (TaskControlBlock {
        tcb_syscall_times: b.tcb_syscall_times,
        memory_set: b.memory_set,
        trap_cx: b.trap_cx,
        ..a
    })
}

/// The length of a mapping request, rounded up to whole pages.
pub open spec fn spec_round_up(len: int) -> int {
    ((len + PAGE_SIZE - 1) / (PAGE_SIZE as int)) * PAGE_SIZE
}

/// A mapping request succeeds exactly when it is non-empty, its start
/// is page-aligned, its permission bits are acceptable, its rounded
/// extent stays within the address range, and it overlaps no tracked
/// region.  A zero-length request maps nothing and is rejected.
pub open spec fn spec_mmap_ok(m: TaskManager, start: usize, len: usize, port: usize) -> bool {
    &&& len > 0
    &&& start % PAGE_SIZE == 0
    &&& MapPermission::spec_bits_ok(port)
    &&& len <= usize::MAX - (PAGE_SIZE - 1)
    &&& start + spec_round_up(len as int) <= usize::MAX
    &&& forall|i: int|
        0 <= i < cur_of(m).memory_set.regions@.len()
            ==> (#[trigger] cur_of(m).memory_set.regions@[i]).disjoint_range(
            start as int,
            start + spec_round_up(len as int),
        )
}

/// An unmapping request succeeds exactly when it is non-empty, its
/// start is page-aligned, its rounded extent stays within the address
/// range, and the range exactly tiles one or more whole tracked
/// regions.  A zero-length request names no mapping and is rejected.
pub open spec fn spec_munmap_ok(m: TaskManager, start: usize, len: usize) -> bool {
    &&& len > 0
    &&& start % PAGE_SIZE == 0
    &&& len <= usize::MAX - (PAGE_SIZE - 1)
    &&& start + spec_round_up(len as int) <= usize::MAX
    &&& crate::region::tiles(
        cur_of(m).memory_set.regions@,
        start as int,
        start + spec_round_up(len as int),
    )
}

/// Rounds a byte length up to whole pages, reporting an out-of-range
/// length as `None`.
fn round_up_len(len: usize) -> (r: Option<usize>)
    ensures
        r is Some <==> len <= usize::MAX - (PAGE_SIZE - 1),
        r is Some ==> r == Some((spec_round_up(len as int) as usize)) && r.unwrap() as int
            == spec_round_up(len as int),
        len == 0 && r is Some ==> r.unwrap() == 0,
        r is Some ==> r.unwrap() % PAGE_SIZE == 0,
        r is Some && len > 0 ==> r.unwrap() > 0,
{
    if len > usize::MAX - (PAGE_SIZE - 1) {
        None
    } else {
        let pages = (len + (PAGE_SIZE - 1)) / PAGE_SIZE;
        let r = pages * PAGE_SIZE;
        proof {
            assert(pages * PAGE_SIZE <= len + (PAGE_SIZE - 1)) by (nonlinear_arith)
                requires
                    pages == (len + (PAGE_SIZE - 1)) / (PAGE_SIZE as int),
                    len <= usize::MAX - (PAGE_SIZE - 1),
            ;
            assert(r % PAGE_SIZE == 0) by (nonlinear_arith)
                requires
                    r == pages * (PAGE_SIZE as int),
            ;
            assert(len > 0 ==> pages > 0) by (nonlinear_arith)
                requires
                    pages == (len + (PAGE_SIZE - 1)) / (PAGE_SIZE as int),
            ;
            assert(pages > 0 ==> r > 0) by (nonlinear_arith)
                requires
                    r == pages * (PAGE_SIZE as int),
            ;
            assert(len == 0 ==> pages == 0);
        }
        Some(r)
    }
}

/// Task exits with the given code: it becomes a zombie holding the code,
/// its elapsed time is frozen, and another ready task is dispatched.
/// Returns whether any task was left to run; in the kernel proper this
/// call never returns into the exiting task.
pub fn sys_exit(m: &mut TaskManager, exit_code: i32, now_ms: usize) -> (r: bool)
    requires
        old(m).wf(),
        old(m).running,
    ensures
        final(m).wf(),
        r <==> final(m).running,
        // Control passes to a ready task exactly when one exists;
        // otherwise the system shuts down gracefully.
        r <==> (exists|i: int|
            #![trigger old(m).tcb(i)]
            old(m).live(i) && old(m).tcb(i).task_status == TaskStatus::Ready),
        final(m).live(old(m).current_task as int),
        final(m).tcb(old(m).current_task as int).task_status == TaskStatus::Zombie,
        final(m).tcb(old(m).current_task as int).exit_code == exit_code,
        // The running time is frozen at the zombie transition.
        final(m).tcb(old(m).current_task as int).time == (if now_ms >= old(m).tcb(
            old(m).current_task as int,
        ).start_time {
            (now_ms - old(m).tcb(old(m).current_task as int).start_time) as usize
        } else {
            0usize
        }),
        // Beyond status, code, frozen time and the exit counter, the
        // exiting task keeps every field.
        final(m).tcb(old(m).current_task as int) == (TaskControlBlock {
            task_status: TaskStatus::Zombie,
            exit_code: exit_code,
            time: final(m).tcb(old(m).current_task as int).time,
            tcb_syscall_times: final(m).tcb(old(m).current_task as int).tcb_syscall_times,
            ..old(m).tcb(old(m).current_task as int)
        }),
        counts_bumped(old(m).tcb(old(m).current_task as int), final(m).tcb(
            old(m).current_task as int,
        ), SYSCALL_EXIT as int),
        final(m).tasks@.len() == old(m).tasks@.len(),
        final(m).next_pid == old(m).next_pid,
        // Every other task is untouched but for the statuses and quotas
        // the dispatch itself moves, and other zombies stay zombies.
        forall|i: int|
            0 <= i < old(m).tasks@.len() && i != old(m).current_task
                ==> (old(m).live(i) <==> final(m).live(i)) && (old(m).live(i)
                ==> TaskManager::same_mod_sched(old(m).tcb(i), #[trigger] final(m).tcb(i))),
        forall|i: int|
            old(m).live(i) && i != old(m).current_task && (#[trigger] old(m).tcb(
                i,
            )).task_status == TaskStatus::Zombie ==> final(m).tcb(i).task_status
                == TaskStatus::Zombie,
        // The pick is deterministic, read off the incoming state.
        old(m).first_candidate_from(1) is Some ==> final(m).current_task == old(m).first_candidate_from(1).unwrap(),
        // Every undispatched task keeps its status; the exiting one is
        // the zombie.
        forall|i: int|
            final(m).live(i) && i != final(m).current_task
                ==> (#[trigger] final(m).tcb(i)).task_status == (if i == old(m).current_task {
                TaskStatus::Zombie
            } else {
                old(m).tcb(i).task_status
            }),
    {
    m.set_tcb_syscall_times(SYSCALL_EXIT);
    let ghost mid = *m;
    let r = m.exit_current_and_run_next(exit_code, now_ms);
    proof {
        let cur = old(m).current_task as int;
        assert forall|i: int|
            0 <= i < old(m).tasks@.len() && i != cur
            implies (old(m).live(i) <==> mid.live(i)) && (old(m).live(i) ==> #[trigger] mid.tcb(
                i,
            ) == old(m).tcb(i)) by {
            assert(mid.live(i) == old(m).live(i));
        }
        assert(r <==> (exists|i: int|
            #![trigger mid.tcb(i)]
            mid.live(i) && mid.tcb(i).task_status == TaskStatus::Ready));
        assert forall|i: int|
            #![trigger old(m).tcb(i)]
            old(m).live(i) && old(m).tcb(i).task_status == TaskStatus::Ready
            implies mid.live(i) && mid.tcb(i).task_status == TaskStatus::Ready by {
            if i != cur {
                assert(mid.tcb(i) == old(m).tcb(i));
            }
        }
        assert forall|i: int|
            #![trigger mid.tcb(i)]
            mid.live(i) && mid.tcb(i).task_status == TaskStatus::Ready
            implies old(m).live(i) && old(m).tcb(i).task_status == TaskStatus::Ready by {
            if i != cur {
                assert(mid.tcb(i) == old(m).tcb(i));
            } else {
                assert(mid.tcb(cur).task_status == old(m).tcb(cur).task_status);
            }
        }
        assert(mid.tcb(cur).start_time == old(m).tcb(cur).start_time);
        assert forall|i: int|
            0 <= i < old(m).tasks@.len() && i != cur
            implies (old(m).live(i) <==> m.live(i)) && (old(m).live(i)
            ==> TaskManager::same_mod_sched(old(m).tcb(i), #[trigger] m.tcb(i))) by {
            if old(m).live(i) {
                assert(TaskManager::same_mod_sched(mid.tcb(i), m.tcb(i)));
                assert(mid.tcb(i) == old(m).tcb(i));
            } else {
                assert(mid.tcb(i) == mid.tcb(i));
                assert(mid.live(i) <==> m.live(i));
            }
        }
        assert forall|i: int|
            old(m).live(i) && i != cur && (#[trigger] old(m).tcb(i)).task_status
                == TaskStatus::Zombie
            implies m.tcb(i).task_status == TaskStatus::Zombie by {
            assert(mid.tcb(i) == old(m).tcb(i));
        }
        // Counting the exit does not change who is dispatchable.
        assert forall|i: int| #[trigger] old(m).candidate(i) == mid.candidate(i) by {
            if old(m).live(i) && i != cur {
                assert(mid.tcb(i) == old(m).tcb(i));
            } else if old(m).live(i) {
                assert(mid.tcb(cur).task_status == old(m).tcb(cur).task_status);
                assert(mid.tcb(cur).quota == old(m).tcb(cur).quota);
            } else {
                assert(!old(m).live(i) && !mid.live(i));
            }
        }
        TaskManager::lemma_scan_congruent(*old(m), mid, 1);
        assert forall|i: int|
            m.live(i) && i != m.current_task
            implies (#[trigger] m.tcb(i)).task_status == (if i == cur {
                TaskStatus::Zombie
            } else {
                old(m).tcb(i).task_status
            }) by {
            if i != cur {
                assert(mid.tcb(i) == old(m).tcb(i));
                assert(m.tcb(i).task_status == mid.tcb(i).task_status);
            } else {
                assert(m.tcb(i).task_status == TaskStatus::Zombie);
            }
        }
    }
    r
}

/// The current task gives up the core: its yield is counted, it is
/// marked `Ready`, and the scheduler dispatches the first task of its
/// cyclic, priority-weighted scan — possibly the yielding task itself.
/// Returns 0 to the resumed caller; nothing of any task changes beyond
/// the caller's yield counter and the statuses and quotas the dispatch
/// itself moves.
pub fn sys_yield(m: &mut TaskManager) -> (r: isize)
    requires
        old(m).wf(),
        old(m).running,
    ensures
        final(m).wf(),
        final(m).running,
        r == 0,
        final(m).tasks@.len() == old(m).tasks@.len(),
        final(m).next_pid == old(m).next_pid,
        forall|i: int| 0 <= i < old(m).tasks@.len() ==> (old(m).live(i) <==> final(m).live(i)),
        forall|i: int|
            old(m).live(i) && i != old(m).current_task ==> TaskManager::same_mod_sched(
                old(m).tcb(i),
                #[trigger] final(m).tcb(i),
            ),
        final(m).tcb(old(m).current_task as int) == (TaskControlBlock {
            task_status: final(m).tcb(old(m).current_task as int).task_status,
            quota: final(m).tcb(old(m).current_task as int).quota,
            tcb_syscall_times: final(m).tcb(old(m).current_task as int).tcb_syscall_times,
            ..old(m).tcb(old(m).current_task as int)
        }),
        counts_bumped(old(m).tcb(old(m).current_task as int), final(m).tcb(
            old(m).current_task as int,
        ), SYSCALL_YIELD as int),
        // The pick is deterministic, read off the incoming state.
        old(m).first_yield_candidate_from(1) is Some ==> final(m).current_task == old(m).first_yield_candidate_from(1).unwrap(),
        // The caller ends `Ready` unless dispatched again; every other
        // undispatched task keeps its status.
        forall|i: int|
            final(m).live(i) && i != final(m).current_task
                ==> (#[trigger] final(m).tcb(i)).task_status == (if i == old(m).current_task {
                TaskStatus::Ready
            } else {
                old(m).tcb(i).task_status
            }),
        // A zombie is terminal: a yield never touches an exited task.
        forall|i: int|
            old(m).live(i) && (#[trigger] old(m).tcb(i)).task_status == TaskStatus::Zombie
                ==> final(m).tcb(i) == old(m).tcb(i),
        // One quantum is charged to the dispatched task, out of its
        // leftover quota or out of a fresh round's full weight.
        final(m).tcb(final(m).current_task as int).quota + 1 == old(m).tcb(
            final(m).current_task as int,
        ).quota || final(m).tcb(final(m).current_task as int).quota + 1 == old(m).tcb(
            final(m).current_task as int,
        ).priority,
{
    m.set_tcb_syscall_times(SYSCALL_YIELD);
    let ghost mid = *m;
    m.suspend_current_and_run_next();
    proof {
        let cur = old(m).current_task as int;
        assert forall|i: int| 0 <= i < old(m).tasks@.len()
            implies (old(m).live(i) <==> mid.live(i)) && (old(m).live(i) ==> (
            #[trigger] mid.tcb(i)).quota == old(m).tcb(i).quota && mid.tcb(i).task_status
                == old(m).tcb(i).task_status) by {
            if i != cur && old(m).live(i) {
                assert(mid.tcb(i) == old(m).tcb(i));
            }
        }
        TaskManager::lemma_yield_scan_congruent(*old(m), mid, 1);
        assert forall|i: int| 0 <= i < old(m).tasks@.len()
            implies (old(m).live(i) <==> m.live(i)) by {
            assert(m.tcb(i) == m.tcb(i));
            assert(mid.tcb(i) == mid.tcb(i));
            assert(mid.live(i) <==> m.live(i));
        }
        assert forall|i: int|
            old(m).live(i) && i != old(m).current_task
            implies TaskManager::same_mod_sched(old(m).tcb(i), #[trigger] m.tcb(i)) by {
            assert(TaskManager::same_mod_sched(mid.tcb(i), m.tcb(i)));
            assert(mid.tcb(i) == old(m).tcb(i));
        }
        assert forall|i: int|
            m.live(i) && i != m.current_task
            implies (#[trigger] m.tcb(i)).task_status == (if i == old(m).current_task {
                TaskStatus::Ready
            } else {
                old(m).tcb(i).task_status
            }) by {
            if i != cur {
                assert(mid.tcb(i) == old(m).tcb(i));
            }
        }
        assert forall|i: int|
            old(m).live(i) && (#[trigger] old(m).tcb(i)).task_status == TaskStatus::Zombie
            implies m.tcb(i) == old(m).tcb(i) by {
            assert(i != cur);
            assert(mid.tcb(i) == old(m).tcb(i));
            assert(mid.tcb(i).task_status == TaskStatus::Zombie);
        }
        let fc = m.current_task as int;
        if old(m).live(fc) {
            if fc != cur {
                assert(mid.tcb(fc) == old(m).tcb(fc));
            }
            assert(mid.tcb(fc).quota == old(m).tcb(fc).quota);
            assert(mid.tcb(fc).priority == old(m).tcb(fc).priority);
        }
    }
    0
}

/// Pid of the calling task.
pub fn sys_getpid(m: &mut TaskManager) -> (r: isize)
    requires
        old(m).wf(),
        old(m).running,
    ensures
        final(m).wf(),
        final(m).running,
        r == old(m).tcb(old(m).current_task as int).pid as int,
        TaskManager::only_current_changed(*old(m), *final(m)),
        same_but_counts(old(m).tcb(old(m).current_task as int), final(m).tcb(
            old(m).current_task as int,
        )),
        counts_bumped(old(m).tcb(old(m).current_task as int), final(m).tcb(
            old(m).current_task as int,
        ), SYSCALL_GETPID as int),
{
    m.set_tcb_syscall_times(SYSCALL_GETPID);
    let pid = m.getpid_current();
    proof {
        assert(pid <= isize::MAX as usize);
    }
    pid as isize
}

/// Seconds and microseconds of the monotonic clock, stored at the
/// caller-supplied address.  The pair to store is returned beside the
/// result; it is `Some` exactly when the address resolves writable
/// through the caller's own address space, and the store must only
/// happen then.
pub fn sys_get_time(m: &mut TaskManager, ts_ptr: usize, tz: usize, now_us: usize) -> (r: (
    isize,
    Option<TimeVal>,
))
    requires
        old(m).wf(),
        old(m).running,
    ensures
        final(m).wf(),
        final(m).running,
        r.0 == 0,
        r.1 is Some <==> old(m).tcb(old(m).current_task as int).memory_set.spec_resolves_writable(
            ts_ptr as int,
            TIME_VAL_BYTES as int,
        ),
        r.1 is Some ==> r.1 == Some((TimeVal {
            sec: (now_us / 1_000_000) as usize,
            usec: (now_us % 1_000_000) as usize,
        })),
        TaskManager::only_current_changed(*old(m), *final(m)),
        same_but_counts(old(m).tcb(old(m).current_task as int), final(m).tcb(
            old(m).current_task as int,
        )),
        counts_bumped(old(m).tcb(old(m).current_task as int), final(m).tcb(
            old(m).current_task as int,
        ), SYSCALL_GET_TIME as int),
{
    m.set_tcb_syscall_times(SYSCALL_GET_TIME);
    let _ = tz;
    let tv = TimeVal { sec: now_us / 1_000_000, usec: now_us % 1_000_000 };
    let cur = m.current_task;
    let resolves = match &m.tasks[cur] {
        Some(t) => t.memory_set.resolves_writable(ts_ptr, TIME_VAL_BYTES),
        None => vstd::pervasive::unreached(),
    };
    if resolves {
        (0, Some(tv))
    } else {
        (0, None)
    }
}

/// Status, per-syscall entry counts and elapsed running time of the
/// calling task, stored at the caller-supplied address.  The record to
/// store is returned beside the result; it is `Some` exactly when the
/// address resolves writable, and it already counts this very call.
pub fn sys_task_info(m: &mut TaskManager, ti_ptr: usize, now_ms: usize) -> (r: (
    isize,
    Option<TaskInfo>,
))
    requires
        old(m).wf(),
        old(m).running,
        now_ms >= old(m).tcb(old(m).current_task as int).start_time,
    ensures
        final(m).wf(),
        final(m).running,
        r.0 == 0,
        r.1 is Some <==> old(m).tcb(old(m).current_task as int).memory_set.spec_resolves_writable(
            ti_ptr as int,
            TASK_INFO_BYTES as int,
        ),
        r.1 is Some ==> r.1.unwrap().status == TaskStatus::Running
            && r.1.unwrap().syscall_times@ == old(m).tcb(
            old(m).current_task as int,
        ).tcb_syscall_times@.update(
            SYSCALL_TASK_INFO as int,
            bump(
                old(m).tcb(old(m).current_task as int).tcb_syscall_times@[
                    SYSCALL_TASK_INFO as int],
            ),
        ) && r.1.unwrap().time == now_ms - old(m).tcb(old(m).current_task as int).start_time,
        TaskManager::only_current_changed(*old(m), *final(m)),
        same_but_counts(old(m).tcb(old(m).current_task as int), final(m).tcb(
            old(m).current_task as int,
        )),
        counts_bumped(old(m).tcb(old(m).current_task as int), final(m).tcb(
            old(m).current_task as int,
        ), SYSCALL_TASK_INFO as int),
{
    m.set_tcb_syscall_times(SYSCALL_TASK_INFO);
    let status = m.get_current_task_state();
    let start = m.get_init_time();
    let times = m.get_tcb_syscall_times();
    let time = now_ms - start;
    let cur = m.current_task;
    let resolves = match &m.tasks[cur] {
        Some(t) => t.memory_set.resolves_writable(ti_ptr, TASK_INFO_BYTES),
        None => vstd::pervasive::unreached(),
    };
    if resolves {
        (0, Some(TaskInfo { status, syscall_times: times, time }))
    } else {
        (0, None)
    }
}

/// Maps `[start, start + len)` — `len` rounded up to whole pages — with
/// the requested permission bits into the caller's address space.
/// Returns 0 on success and −1 on any validation or tracker failure —
/// a zero length included, which asks for no page — in which case no
/// mapping changes.
pub fn sys_mmap(m: &mut TaskManager, start: usize, len: usize, port: usize) -> (r: isize)
    requires
        old(m).wf(),
        old(m).running,
    ensures
        final(m).wf(),
        final(m).running,
        r == 0 || r == -1,
        r == 0 <==> spec_mmap_ok(*old(m), start, len, port),
        r == 0 ==> final(m).tcb(old(m).current_task as int).memory_set.regions@ == old(m).tcb(old(m).current_task as int).memory_set.regions@.push(
            (crate::region::Region {
                start,
                end: (start + spec_round_up(len as int)) as usize,
                perm: (MapPermission {
                    read: port & 1 != 0,
                    write: port & 2 != 0,
                    execute: port & 4 != 0,
                }),
            }),
        ),
        r == 0 ==> final(m).tcb(
            old(m).current_task as int,
        ).memory_set.page_table.areas@ == old(m).tcb(
            old(m).current_task as int,
        ).memory_set.page_table.areas@.push(
            (
                start,
                (start + spec_round_up(len as int)) as usize,
                MapPermission { read: port & 1 != 0, write: port & 2 != 0, execute: port & 4 != 0 },
            ),
        ),
        r == -1 ==> final(m).tcb(old(m).current_task as int).memory_set == old(m).tcb(old(m).current_task as int).memory_set,
        final(m).tcb(old(m).current_task as int).memory_set.program_brk == old(m).tcb(
            old(m).current_task as int,
        ).memory_set.program_brk,
        final(m).tcb(old(m).current_task as int).memory_set.heap_bottom == old(m).tcb(
            old(m).current_task as int,
        ).memory_set.heap_bottom,
        TaskManager::only_current_changed(*old(m), *final(m)),
        same_but_counts_and_memory(old(m).tcb(old(m).current_task as int), final(m).tcb(
            old(m).current_task as int,
        )),
        counts_bumped(old(m).tcb(old(m).current_task as int), final(m).tcb(
            old(m).current_task as int,
        ), SYSCALL_MMAP as int),
{
    m.set_tcb_syscall_times(SYSCALL_MMAP);
    let ghost mid = *m;
    if len == 0 {
        return -1;
    }
    if start % PAGE_SIZE != 0 {
        return -1;
    }
    let perm = match MapPermission::from_bits(port) {
        Some(p) => p,
        None => {
            return -1;
        },
    };
    let rounded = match round_up_len(len) {
        Some(x) => x,
        None => {
            return -1;
        },
    };
    if start > usize::MAX - rounded {
        return -1;
    }
    let end = start + rounded;
    let ok = m.push(start, end, perm);
    proof {
        TaskManager::lemma_only_current_changed_trans(*old(m), mid, *m);
    }
    if ok {
        0
    } else {
        -1
    }
}

/// Unmaps `[start, start + len)` — `len` rounded up to whole pages —
/// from the caller's address space.  Succeeds only when the non-empty
/// range exactly matches one or more whole previously mapped regions —
/// a zero length names none and fails; any failure leaves every
/// existing mapping untouched.
pub fn sys_munmap(m: &mut TaskManager, start: usize, len: usize) -> (r: isize)
    requires
        old(m).wf(),
        old(m).running,
    ensures
        final(m).wf(),
        final(m).running,
        r == 0 || r == -1,
        r == 0 <==> spec_munmap_ok(*old(m), start, len),
        r == 0 ==> final(m).tcb(old(m).current_task as int).memory_set.regions@ == old(m).tcb(
            old(m).current_task as int,
        ).memory_set.regions@.filter(
            |reg: crate::region::Region|
                reg.disjoint_range(start as int, start + spec_round_up(len as int)),
        ),
        r == 0 ==> final(m).tcb(
            old(m).current_task as int,
        ).memory_set.page_table.areas@ == old(m).tcb(
            old(m).current_task as int,
        ).memory_set.page_table.areas@.filter(
            |a: (usize, usize, MapPermission)|
                a.1 <= start || start + spec_round_up(len as int) <= a.0,
        ),
        r == -1 ==> final(m).tcb(old(m).current_task as int).memory_set == old(m).tcb(
            old(m).current_task as int,
        ).memory_set,
        final(m).tcb(old(m).current_task as int).memory_set.program_brk == old(m).tcb(
            old(m).current_task as int,
        ).memory_set.program_brk,
        final(m).tcb(old(m).current_task as int).memory_set.heap_bottom == old(m).tcb(
            old(m).current_task as int,
        ).memory_set.heap_bottom,
        TaskManager::only_current_changed(*old(m), *final(m)),
        same_but_counts_and_memory(old(m).tcb(old(m).current_task as int), final(m).tcb(
            old(m).current_task as int,
        )),
        counts_bumped(old(m).tcb(old(m).current_task as int), final(m).tcb(
            old(m).current_task as int,
        ), SYSCALL_MUNMAP as int),
{
    m.set_tcb_syscall_times(SYSCALL_MUNMAP);
    let ghost mid = *m;
    if len == 0 {
        return -1;
    }
    if start % PAGE_SIZE != 0 {
        return -1;
    }
    let rounded = match round_up_len(len) {
        Some(x) => x,
        None => {
            return -1;
        },
    };
    if start > usize::MAX - rounded {
        return -1;
    }
    let end = start + rounded;
    let ok = m.pay_back(start, end);
    proof {
        TaskManager::lemma_only_current_changed_trans(*old(m), mid, *m);
    }
    if ok {
        0
    } else {
        -1
    }
}

/// Moves the caller's program break by `size` bytes and returns the
/// previous break, or −1 when the new break would be invalid, in which
/// case nothing changes.
pub fn sys_sbrk(m: &mut TaskManager, size: i32) -> (r: isize)
    requires
        old(m).wf(),
        old(m).running,
    ensures
        final(m).wf(),
        final(m).running,
        r == -1 <==> !(old(m).tcb(old(m).current_task as int).memory_set.heap_bottom <= old(m).tcb(old(m).current_task as int).memory_set.program_brk + size && old(m).tcb(
            old(m).current_task as int,
        ).memory_set.program_brk + size <= isize::MAX as usize),
        r != -1 ==> r == old(m).tcb(old(m).current_task as int).memory_set.program_brk as isize
            && final(m).tcb(old(m).current_task as int).memory_set.program_brk == old(m).tcb(
            old(m).current_task as int,
        ).memory_set.program_brk + size,
        r == -1 ==> final(m).tcb(old(m).current_task as int).memory_set.program_brk == old(m).tcb(old(m).current_task as int).memory_set.program_brk,
        final(m).tcb(old(m).current_task as int).memory_set.regions@ == old(m).tcb(
            old(m).current_task as int,
        ).memory_set.regions@,
        final(m).tcb(old(m).current_task as int).memory_set.heap_bottom == old(m).tcb(
            old(m).current_task as int,
        ).memory_set.heap_bottom,
        final(m).tcb(old(m).current_task as int).memory_set.page_table.areas@ == old(m).tcb(
            old(m).current_task as int,
        ).memory_set.page_table.areas@,
        TaskManager::only_current_changed(*old(m), *final(m)),
        same_but_counts_and_memory(old(m).tcb(old(m).current_task as int), final(m).tcb(
            old(m).current_task as int,
        )),
        counts_bumped(old(m).tcb(old(m).current_task as int), final(m).tcb(
            old(m).current_task as int,
        ), SYSCALL_SBRK as int),
{
    m.set_tcb_syscall_times(SYSCALL_SBRK);
    let ghost mid = *m;
    let r = if let Some(old_brk) = m.change_current_program_brk(size) {
        proof {
            assert(old_brk <= isize::MAX as usize);
        }
        old_brk as isize
    } else {
        -1
    };
    proof {
        TaskManager::lemma_only_current_changed_trans(*old(m), mid, *m);
    }
    r
}

/// Duplicates the calling task.  The caller receives the child's pid;
/// the child's own resumed trap frame carries 0.
pub fn sys_fork(m: &mut TaskManager) -> (r: isize)
    requires
        old(m).wf(),
        old(m).running,
        old(m).next_pid < isize::MAX as usize,
    ensures
        final(m).wf(),
        final(m).running,
        r == old(m).next_pid as int,
        final(m).tasks@.len() == old(m).tasks@.len() + 1,
        final(m).live(old(m).tasks@.len() as int),
        final(m).tcb(old(m).tasks@.len() as int).pid == r,
        final(m).tcb(old(m).tasks@.len() as int).task_status == TaskStatus::Ready,
        final(m).tcb(old(m).tasks@.len() as int).parent == Some(
            old(m).tcb(old(m).current_task as int).pid,
        ),
        final(m).tcb(old(m).tasks@.len() as int).trap_cx.ret == 0,
        final(m).tcb(old(m).tasks@.len() as int).memory_set.regions@ == old(m).tcb(
            old(m).current_task as int,
        ).memory_set.regions@,
        final(m).tcb(old(m).current_task as int).children@ == old(m).tcb(
            old(m).current_task as int,
        ).children@.push((r as usize)),
        forall|k: int|
            0 <= k < old(m).tcb(old(m).current_task as int).children@.len()
                ==> #[trigger] old(m).tcb(old(m).current_task as int).children@[k] != r,
        final(m).tcb(old(m).current_task as int).pid == old(m).tcb(
            old(m).current_task as int,
        ).pid,
        final(m).tcb(old(m).current_task as int).pid != r,
        final(m).current_task == old(m).current_task,
        final(m).next_pid == old(m).next_pid + 1,
        // The caller keeps everything but its children list and its
        // fork counter; every other slot is untouched.
        same_but_counts_and_children(old(m).tcb(old(m).current_task as int), final(m).tcb(
            old(m).current_task as int,
        )),
        counts_bumped(old(m).tcb(old(m).current_task as int), final(m).tcb(
            old(m).current_task as int,
        ), SYSCALL_FORK as int),
        forall|i: int|
            0 <= i < old(m).tasks@.len() && i != old(m).current_task
                ==> (old(m).live(i) <==> final(m).live(i)) && (old(m).live(i)
                ==> #[trigger] final(m).tcb(i) == old(m).tcb(i)),
        final(m).tcb(old(m).tasks@.len() as int).counts_all_zero(),
{
    m.set_tcb_syscall_times(SYSCALL_FORK);
    let ghost mid = *m;
    let pid = m.fork_current();
    proof {
        assert(pid <= isize::MAX as usize);
        assert forall|i: int|
            0 <= i < old(m).tasks@.len() && i != old(m).current_task
            implies (old(m).live(i) <==> m.live(i)) && (old(m).live(i)
            ==> #[trigger] m.tcb(i) == old(m).tcb(i)) by {
            assert(mid.live(i) == old(m).live(i) && (old(m).live(i) ==> mid.tcb(i) == old(m).tcb(i)));
        }
    }
    pid as isize
}

/// Replaces the calling task's program with the image the external
/// loader resolved for the requested path: `None` (an unresolved path)
/// returns −1 with no side effect beyond the entry count; otherwise the
/// address space and trap frame are replaced in place and 0 is
/// returned into the fresh program.
pub fn sys_exec(m: &mut TaskManager, resolved: Option<AppImage>) -> (r: isize)
    requires
        old(m).wf(),
        old(m).running,
        resolved is Some ==> resolved.unwrap().wf(),
    ensures
        final(m).wf(),
        final(m).running,
        resolved is None ==> r == -1 && final(m).tcb(old(m).current_task as int).memory_set.regions@
            == old(m).tcb(old(m).current_task as int).memory_set.regions@,
        resolved is Some ==> r == 0 && final(m).tcb(
            old(m).current_task as int,
        ).memory_set.regions@.len() == 0 && final(m).tcb(
            old(m).current_task as int,
        ).memory_set.program_brk == resolved.unwrap().heap_base && final(m).tcb(
            old(m).current_task as int,
        ).trap_cx == (crate::task::TrapContext { pc: resolved.unwrap().entry, ret: 0 }),
        final(m).tcb(old(m).current_task as int).pid == old(m).tcb(
            old(m).current_task as int,
        ).pid,
        TaskManager::only_current_changed(*old(m), *final(m)),
        resolved is None ==> same_but_counts(old(m).tcb(old(m).current_task as int), final(m).tcb(old(m).current_task as int)),
        same_but_counts_memory_and_trap(old(m).tcb(old(m).current_task as int), final(m).tcb(
            old(m).current_task as int,
        )),
        counts_bumped(old(m).tcb(old(m).current_task as int), final(m).tcb(
            old(m).current_task as int,
        ), SYSCALL_EXEC as int),
{
    m.set_tcb_syscall_times(SYSCALL_EXEC);
    let ghost mid = *m;
    match resolved {
        Some(img) => {
            m.exec_current(img);
            proof {
                TaskManager::lemma_only_current_changed_trans(*old(m), mid, *m);
            }
            0
        },
        None => -1,
    }
}

/// Creates a new child task from the image the external loader resolved
/// for the requested path, inheriting nothing of the caller's address
/// space.  Returns the new pid, or −1 when the path did not resolve.
pub fn sys_spawn(m: &mut TaskManager, resolved: Option<AppImage>, now_ms: usize) -> (r: isize)
    requires
        old(m).wf(),
        old(m).running,
        old(m).next_pid < isize::MAX as usize,
        resolved is Some ==> resolved.unwrap().wf(),
    ensures
        final(m).wf(),
        final(m).running,
        resolved is None ==> r == -1 && final(m).tasks@.len() == old(m).tasks@.len(),
        resolved is Some ==> r == old(m).next_pid as int && final(m).tasks@.len() == old(m).tasks@.len() + 1 && final(m).live(old(m).tasks@.len() as int) && final(m).tcb(
            old(m).tasks@.len() as int,
        ).pid == r && final(m).tcb(old(m).tasks@.len() as int).task_status == TaskStatus::Ready
            && final(m).tcb(old(m).tasks@.len() as int).parent == Some(
            old(m).tcb(old(m).current_task as int).pid,
        ) && final(m).tcb(old(m).tasks@.len() as int).memory_set.regions@.len() == 0 && final(m).tcb(old(m).current_task as int).children@ == old(m).tcb(
            old(m).current_task as int,
        ).children@.push((r as usize)),
        final(m).current_task == old(m).current_task,
        resolved is None ==> TaskManager::only_current_changed(*old(m), *final(m))
            && same_but_counts(old(m).tcb(old(m).current_task as int), final(m).tcb(
            old(m).current_task as int,
        )),
        // The caller keeps everything but its children list and its
        // spawn counter; every other old slot is untouched.
        same_but_counts_and_children(old(m).tcb(old(m).current_task as int), final(m).tcb(
            old(m).current_task as int,
        )),
        counts_bumped(old(m).tcb(old(m).current_task as int), final(m).tcb(
            old(m).current_task as int,
        ), SYSCALL_SPAWN as int),
        forall|i: int|
            0 <= i < old(m).tasks@.len() && i != old(m).current_task
                ==> (old(m).live(i) <==> final(m).live(i)) && (old(m).live(i)
                ==> #[trigger] final(m).tcb(i) == old(m).tcb(i)),
        resolved is Some ==> final(m).tcb(old(m).tasks@.len() as int).counts_all_zero()
            && final(m).tcb(old(m).tasks@.len() as int).start_time == now_ms,
{
    m.set_tcb_syscall_times(SYSCALL_SPAWN);
    let ghost mid = *m;
    match resolved {
        Some(img) => {
            let pid = m.spawn_current(img, now_ms);
            proof {
                assert(pid <= isize::MAX as usize);
                assert forall|i: int|
                    0 <= i < old(m).tasks@.len() && i != old(m).current_task
                    implies (old(m).live(i) <==> m.live(i)) && (old(m).live(i)
                    ==> #[trigger] m.tcb(i) == old(m).tcb(i)) by {
                    assert(mid.live(i) == old(m).live(i) && (old(m).live(i) ==> mid.tcb(i)
                        == old(m).tcb(i)));
                }
            }
            pid as isize
        },
        None => -1,
    }
}

/// The non-blocking poll for an exited child: −1 when the selector
/// names no child, −2 when a selected child exists but none has exited,
/// and otherwise the first selected zombie's pid, after reaping it.
/// The reaped child's exit code is returned beside the result; it is
/// `Some` exactly when a child was reaped and the caller-supplied
/// address resolves writable, and must only be stored then.
pub fn sys_waitpid(m: &mut TaskManager, pid: isize, exit_code_ptr: usize) -> (r: (
    isize,
    Option<i32>,
))
    requires
        old(m).wf(),
        old(m).running,
    ensures
        final(m).wf(),
        final(m).running,
        !old(m).has_selected_child(pid as int) ==> r.0 == -1,
        old(m).has_selected_child(pid as int) && !old(m).has_selected_zombie(pid as int)
            ==> r.0 == -2,
        old(m).has_selected_zombie(pid as int) ==> r.0 >= 0 && (exists|k: int|
            #![trigger old(m).cur_children()[k]]
            0 <= k < old(m).cur_children().len() && TaskManager::pid_selected(
                pid as int,
                old(m).cur_children()[k],
            ) && old(m).zombie_pid(old(m).cur_children()[k]) && r.0 == old(m).cur_children()[
                k] as int && (forall|k2: int|
                0 <= k2 < k ==> !(TaskManager::pid_selected(
                    pid as int,
                    #[trigger] old(m).cur_children()[k2],
                ) && old(m).zombie_pid(old(m).cur_children()[k2]))) && final(m).cur_children()
                == old(m).cur_children().remove(k) && (forall|j: int|
                final(m).live(j) ==> (#[trigger] final(m).tcb(j)).pid != old(m).cur_children()[
                    k]) && (old(m).tcb(old(m).current_task as int).memory_set.spec_resolves_writable(
                exit_code_ptr as int,
                EXIT_CODE_BYTES as int,
            ) ==> r.1 == Some(old(m).exit_code_of(old(m).cur_children()[k]))) && (!old(m).tcb(old(m).current_task as int).memory_set.spec_resolves_writable(
                exit_code_ptr as int,
                EXIT_CODE_BYTES as int,
            ) ==> r.1 is None) && (forall|
                i: int,
            |
                0 <= i < old(m).tasks@.len() && i != old(m).current_task && old(m).live(i)
                    && old(m).tcb(i).pid != old(m).cur_children()[k] ==> final(m).live(i)
                    && #[trigger] final(m).tcb(i) == old(m).tcb(i))),
        r.0 < 0 ==> r.1 is None && final(m).cur_children() == old(m).cur_children(),
        r.0 < 0 ==> TaskManager::only_current_changed(*old(m), *final(m)) && same_but_counts(
            old(m).tcb(old(m).current_task as int),
            final(m).tcb(old(m).current_task as int),
        ),
        final(m).current_task == old(m).current_task,
        final(m).tasks@.len() == old(m).tasks@.len(),
        final(m).next_pid == old(m).next_pid,
        same_but_counts_and_children(old(m).tcb(old(m).current_task as int), final(m).tcb(
            old(m).current_task as int,
        )),
        counts_bumped(old(m).tcb(old(m).current_task as int), final(m).tcb(
            old(m).current_task as int,
        ), SYSCALL_WAITPID as int),
{
    m.set_tcb_syscall_times(SYSCALL_WAITPID);
    let ghost mid = *m;
    let (res, code) = m.wait_current(pid);
    proof {
        let curi = old(m).current_task as int;
        assert(mid.cur_children() == old(m).cur_children());
        assert forall|c2: usize| #[trigger] mid.zombie_pid(c2)
            implies old(m).zombie_pid(c2) by {
            let j = choose|j: int|
                #![trigger mid.tcb(j)]
                mid.live(j) && mid.tcb(j).pid == c2 && mid.tcb(j).task_status
                    == TaskStatus::Zombie;
            if j != curi {
                assert(mid.tcb(j) == old(m).tcb(j));
            }
            assert(old(m).live(j) && old(m).tcb(j).pid == c2 && old(m).tcb(j).task_status
                == TaskStatus::Zombie);
        }
        assert forall|c2: usize| #[trigger] old(m).zombie_pid(c2)
            implies mid.zombie_pid(c2) by {
            let j = choose|j: int|
                #![trigger old(m).tcb(j)]
                old(m).live(j) && old(m).tcb(j).pid == c2 && old(m).tcb(j).task_status
                    == TaskStatus::Zombie;
            if j != curi {
                assert(mid.tcb(j) == old(m).tcb(j));
            }
            assert(mid.live(j) && mid.tcb(j).pid == c2 && mid.tcb(j).task_status
                == TaskStatus::Zombie);
        }
        assert(old(m).has_selected_child(pid as int) <==> mid.has_selected_child(pid as int))
            by {
            if old(m).has_selected_child(pid as int) {
                let k = choose|k: int|
                    0 <= k < old(m).cur_children().len() && TaskManager::pid_selected(
                        pid as int,
                        #[trigger] old(m).cur_children()[k],
                    );
                assert(TaskManager::pid_selected(pid as int, mid.cur_children()[k]));
            }
            if mid.has_selected_child(pid as int) {
                let k = choose|k: int|
                    0 <= k < mid.cur_children().len() && TaskManager::pid_selected(
                        pid as int,
                        #[trigger] mid.cur_children()[k],
                    );
                assert(TaskManager::pid_selected(pid as int, old(m).cur_children()[k]));
            }
        }
        assert(old(m).has_selected_zombie(pid as int) <==> mid.has_selected_zombie(pid as int))
            by {
            if old(m).has_selected_zombie(pid as int) {
                let k = choose|k: int|
                    0 <= k < old(m).cur_children().len() && TaskManager::pid_selected(
                        pid as int,
                        #[trigger] old(m).cur_children()[k],
                    ) && old(m).zombie_pid(old(m).cur_children()[k]);
                assert(TaskManager::pid_selected(pid as int, mid.cur_children()[k]));
                assert(mid.zombie_pid(mid.cur_children()[k]));
            }
            if mid.has_selected_zombie(pid as int) {
                let k = choose|k: int|
                    0 <= k < mid.cur_children().len() && TaskManager::pid_selected(
                        pid as int,
                        #[trigger] mid.cur_children()[k],
                    ) && mid.zombie_pid(mid.cur_children()[k]);
                assert(TaskManager::pid_selected(pid as int, old(m).cur_children()[k]));
                assert(old(m).zombie_pid(old(m).cur_children()[k]));
            }
        }
        if mid.has_selected_zombie(pid as int) {
            let k = choose|k: int|
                #![trigger mid.cur_children()[k]]
                0 <= k < mid.cur_children().len() && TaskManager::pid_selected(
                    pid as int,
                    mid.cur_children()[k],
                ) && mid.zombie_pid(mid.cur_children()[k]) && (forall|k2: int|
                    0 <= k2 < k ==> !(TaskManager::pid_selected(
                        pid as int,
                        #[trigger] mid.cur_children()[k2],
                    ) && mid.zombie_pid(mid.cur_children()[k2]))) && res == mid.cur_children()[
                    k] as isize && code == mid.exit_code_of(mid.cur_children()[k])
                    && m.cur_children() == mid.cur_children().remove(k) && (forall|j: int|
                    m.live(j) ==> (#[trigger] m.tcb(j)).pid != mid.cur_children()[k]) && (
                forall|i: int|
                    0 <= i < mid.tasks@.len() && i != mid.current_task && mid.live(i)
                        && mid.tcb(i).pid != mid.cur_children()[k] ==> m.live(i)
                        && #[trigger] m.tcb(i) == mid.tcb(i));
            let c = mid.cur_children()[k];
            assert forall|i: int|
                0 <= i < old(m).tasks@.len() && i != old(m).current_task && old(m).live(i)
                    && old(m).tcb(i).pid != c
                implies m.live(i) && #[trigger] m.tcb(i) == old(m).tcb(i) by {
                assert(mid.tcb(i) == old(m).tcb(i));
                assert(mid.live(i));
            }
            assert forall|k2: int| 0 <= k2 < k implies !(TaskManager::pid_selected(
                pid as int,
                #[trigger] old(m).cur_children()[k2],
            ) && old(m).zombie_pid(old(m).cur_children()[k2])) by {
                assert(old(m).cur_children()[k2] == mid.cur_children()[k2]);
            }
            let j1 = choose|j: int|
                #![trigger old(m).tcb(j)]
                old(m).live(j) && old(m).tcb(j).pid == c && old(m).tcb(j).task_status
                    == TaskStatus::Zombie;
            let j2 = choose|j: int|
                #![trigger mid.tcb(j)]
                mid.live(j) && mid.tcb(j).pid == c && mid.tcb(j).task_status
                    == TaskStatus::Zombie;
            assert(old(m).zombie_pid(c) && mid.zombie_pid(c));
            assert(mid.live(j1) && mid.tcb(j1).pid == old(m).tcb(j1).pid);
            assert(j1 == j2);
            assert(j1 != curi);
            assert(old(m).exit_code_of(c) == mid.exit_code_of(c));
        }
    }
    if res >= 0 {
        let cur = m.current_task;
        let resolves = match &m.tasks[cur] {
            Some(t) => t.memory_set.resolves_writable(exit_code_ptr, EXIT_CODE_BYTES),
            None => vstd::pervasive::unreached(),
        };
        if resolves {
            (res, Some(code))
        } else {
            (res, None)
        }
    } else {
        (res, None)
    }
}

/// Sets the calling task's scheduling weight.  A value below 2 is
/// rejected with −1 and changes nothing; otherwise the weight is set
/// and returned.
pub fn sys_set_priority(m: &mut TaskManager, prio: isize) -> (r: isize)
    requires
        old(m).wf(),
        old(m).running,
    ensures
        final(m).wf(),
        final(m).running,
        prio < 2 ==> r == -1 && same_but_counts(old(m).tcb(old(m).current_task as int), final(m).tcb(old(m).current_task as int)),
        prio >= 2 ==> r == prio && final(m).tcb(old(m).current_task as int).priority == prio,
        TaskManager::only_current_changed(*old(m), *final(m)),
        same_but_counts_and_priority(old(m).tcb(old(m).current_task as int), final(m).tcb(
            old(m).current_task as int,
        )),
        counts_bumped(old(m).tcb(old(m).current_task as int), final(m).tcb(
            old(m).current_task as int,
        ), SYSCALL_SET_PRIORITY as int),
{
    m.set_tcb_syscall_times(SYSCALL_SET_PRIORITY);
    let ghost mid = *m;
    if prio < 2 {
        return -1;
    }
    let p = prio as usize;
    m.set_priority_current(p);
    proof {
        TaskManager::lemma_only_current_changed_trans(*old(m), mid, *m);
    }
    prio
}

} // verus!
