//! Stated laws of the kernel core.
//!
//! Each proof function here records, as a checked statement, a property
//! that the component contracts promise together.

use vstd::prelude::*;
use crate::config::MAX_SYSCALL_NUM;
use crate::config::SYSCALL_TASK_INFO;
use crate::manager::TaskManager;
use crate::region::AddressSpace;
use crate::region::MapPermission;
use crate::syscall::cur_of;
use crate::syscall::spec_mmap_ok;
use crate::task::TaskControlBlock;
use crate::task::bump;

verus! {

/// Law: in every well-formed address space the tracked ranges are
/// pairwise non-overlapping, and they agree entry for entry with the
/// mappings installed in the page table — no dangling tracker entry, no
/// unaccounted mapping.  Every mapping and unmapping operation keeps an
/// address space well formed, so this holds across any sequence of
/// them.
pub proof fn lemma_tracker_matches_installed(s: AddressSpace)
    requires
        s.wf(),
    ensures
        forall|i: int, j: int|
            0 <= i < s.regions@.len() && 0 <= j < s.regions@.len() && i != j
                ==> (#[trigger] s.regions@[i]).disjoint(#[trigger] s.regions@[j]),
        s.page_table.areas@.len() == s.regions@.len(),
        forall|i: int|
            0 <= i < s.regions@.len() ==> #[trigger] s.page_table.areas@[i] == (
            s.regions@[i].start,
            s.regions@[i].end,
            s.regions@[i].perm,
            ),
{
}

/// Law: a mapping request with permission bits zero, or with any bit
/// above the third set, can never succeed, whatever the address space
/// looks like.
pub proof fn lemma_mmap_rejects_bad_permission(
    m: TaskManager,
    start: usize,
    len: usize,
    port: usize,
)
    requires
        port == 0 || port >= 8,
    ensures
        !spec_mmap_ok(m, start, len, port),
{
    if port == 0 {
        assert(port & 0x7usize == 0) by (bit_vector)
            requires
                port == 0,
        ;
    } else {
        assert(port & !0x7usize != 0) by (bit_vector)
            requires
                port >= 8,
        ;
    }
}

/// Law: a successful break move of `n` bytes followed by one of `-n`
/// bytes restores the original break exactly — and the second move
/// cannot fail.  The states are those before the first move and after
/// it; what the break syscall's contract then promises of the second
/// move follows from the arithmetic here.
pub proof fn lemma_sbrk_round_trip(pre: TaskManager, mid: TaskManager, n: i32)
    requires
        pre.wf(),
        pre.running,
        mid.wf(),
        mid.running,
        mid.current_task == pre.current_task,
        cur_of(mid).memory_set.program_brk == cur_of(pre).memory_set.program_brk + n,
        cur_of(mid).memory_set.heap_bottom == cur_of(pre).memory_set.heap_bottom,
    ensures
        cur_of(mid).memory_set.heap_bottom <= cur_of(mid).memory_set.program_brk - n,
        cur_of(mid).memory_set.program_brk - n <= isize::MAX as usize,
        cur_of(mid).memory_set.program_brk - n == cur_of(pre).memory_set.program_brk,
{
    assert(pre.live(pre.current_task as int));
    assert(cur_of(pre).wf());
    assert(mid.live(mid.current_task as int));
    assert(cur_of(mid).wf());
}

/// Law: a task that never entered a syscall reports, right after its
/// first task-information call, a count of exactly one — for that call
/// itself — and zero for every other syscall.
pub proof fn lemma_fresh_task_info(t: TaskControlBlock, reported: Seq<u32>)
    requires
        t.wf(),
        t.counts_all_zero(),
        reported == t.tcb_syscall_times@.update(
            SYSCALL_TASK_INFO as int,
            bump(t.tcb_syscall_times@[SYSCALL_TASK_INFO as int]),
        ),
    ensures
        reported.len() == MAX_SYSCALL_NUM,
        reported[SYSCALL_TASK_INFO as int] == 1,
        forall|i: int|
            0 <= i < reported.len() && i != SYSCALL_TASK_INFO ==> #[trigger] reported[i] == 0,
{
    assert(t.tcb_syscall_times@[SYSCALL_TASK_INFO as int] == 0);
}

/// No occurrence, no survivors: a pid absent from a list is absent from
/// its filtered image.
proof fn lemma_filter_absent(s: Seq<usize>, child: usize)
    requires
        forall|k: int| 0 <= k < s.len() ==> s[k] != child,
    ensures
        s.filter(|c: usize| c == child).len() == 0,
    decreases s.len(),
{
    reveal(Seq::filter);
    if s.len() > 0 {
        lemma_filter_absent(s.drop_last(), child);
    }
}

/// Law: right after a fork, the child's pid stands exactly once in the
/// parent's children list.  The fork contract gives the hypotheses: the
/// list grew by the fresh pid, which no earlier entry equals.
pub proof fn lemma_fork_child_listed_once(before: Seq<usize>, after: Seq<usize>, child: usize)
    requires
        after == before.push(child),
        forall|k: int| 0 <= k < before.len() ==> before[k] != child,
    ensures
        after.filter(|c: usize| c == child).len() == 1,
{
    reveal(Seq::filter);
    lemma_filter_absent(before, child);
    assert(after.drop_last() =~= before);
    assert(after.last() == child);
}

/// Law: validated permission bits always carry at least one right, and
/// validation accepts exactly the bit patterns the mapping syscall
/// documents: some low bit set, no high bit set.
pub proof fn lemma_permission_validation(port: usize)
    ensures
        MapPermission::spec_bits_ok(port) <==> (port & 0x7usize != 0 && port & !0x7usize == 0),
        MapPermission::spec_bits_ok(port) ==> (MapPermission {
            read: port & 1 != 0,
            write: port & 2 != 0,
            execute: port & 4 != 0,
        }).spec_valid(),
{
    assert(port & 0x7usize != 0 ==> (port & 1 != 0 || port & 2 != 0 || port & 4 != 0))
        by (bit_vector);
}

} // verus!
