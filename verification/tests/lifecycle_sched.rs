use task_core::config::SYSCALL_SBRK;
use task_core::config::SYSCALL_TASK_INFO;
use task_core::manager::TaskManager;
use task_core::syscall::sys_exit;
use task_core::syscall::sys_fork;
use task_core::syscall::sys_getpid;
use task_core::syscall::sys_exec;
use task_core::syscall::sys_mmap;
use task_core::syscall::sys_sbrk;
use task_core::syscall::sys_set_priority;
use task_core::syscall::sys_spawn;
use task_core::syscall::sys_task_info;
use task_core::syscall::sys_waitpid;
use task_core::syscall::sys_yield;
use task_core::task::AppImage;
use task_core::task::TaskStatus;

fn booted(n: usize) -> TaskManager {
    let mut images = Vec::new();
    for i in 0..n {
        images.push(AppImage { entry: 0x1000 + i, heap_base: 0x8000_0000 });
    }
    let mut m = TaskManager::new(&images, 100);
    m.run_first_task();
    m
}

fn current_pid(m: &TaskManager) -> usize {
    m.tasks[m.current_task].as_ref().unwrap().pid
}

#[test]
fn yield_returns_zero_and_keeps_running() {
    let mut m = booted(2);
    assert_eq!(sys_yield(&mut m), 0);
    assert!(m.running);
}

#[test]
fn getpid_names_the_caller() {
    let mut m = booted(2);
    assert_eq!(sys_getpid(&mut m), 0);
    assert_eq!(sys_yield(&mut m), 0);
    assert_eq!(sys_getpid(&mut m), 1);
}

#[test]
fn fork_gives_distinct_pids_and_registers_child_once() {
    let mut m = booted(1);
    let parent = current_pid(&m);
    let child = sys_fork(&mut m);
    assert!(child >= 0);
    let child = child as usize;
    assert_ne!(child, parent);
    let p = m.tasks[m.current_task].as_ref().unwrap();
    let listed = p.children.iter().filter(|c| **c == child).count();
    assert_eq!(listed, 1);
    // The child's resumed trap frame carries the fork-child return of 0.
    let c = m
        .tasks
        .iter()
        .flatten()
        .find(|t| t.pid == child)
        .expect("child is live");
    assert_eq!(c.trap_cx.ret, 0);
    assert_eq!(c.task_status, TaskStatus::Ready);
    assert_eq!(c.parent, Some(parent));
}

#[test]
fn waitpid_polls_through_a_child_lifetime() {
    let mut m = booted(1);
    // Give the parent heap to receive the exit code.
    let heap = sys_sbrk(&mut m, 0) as usize;
    assert_eq!(sys_sbrk(&mut m, 64), heap as isize);
    // No child yet: -1.
    assert_eq!(sys_waitpid(&mut m, -1, heap).0, -1);
    let child = sys_fork(&mut m);
    assert!(child >= 0);
    // The child has not exited: -2.
    assert_eq!(sys_waitpid(&mut m, -1, heap).0, -2);
    // Run the child and let it exit with code 7.
    sys_yield(&mut m);
    assert_eq!(current_pid(&m), child as usize);
    assert!(sys_exit(&mut m, 7, 200));
    // Back in the parent: the zombie is reaped, its code delivered.
    assert_eq!(current_pid(&m), 0);
    let (r, code) = sys_waitpid(&mut m, -1, heap);
    assert_eq!(r, child);
    assert_eq!(code, Some(7));
    // The child is gone: a further poll names no child.
    assert_eq!(sys_waitpid(&mut m, -1, heap).0, -1);
}

#[test]
fn waitpid_selects_a_specific_pid() {
    let mut m = booted(1);
    let heap = sys_sbrk(&mut m, 0) as usize;
    assert_eq!(sys_sbrk(&mut m, 64), heap as isize);
    let c1 = sys_fork(&mut m);
    let c2 = sys_fork(&mut m);
    assert!(c1 >= 0 && c2 >= 0);
    // Wrong pid: no such child.
    assert_eq!(sys_waitpid(&mut m, 999, heap).0, -1);
    // c2 exits first; polling for c1 still says "not yet".
    sys_yield(&mut m);
    // Scheduling order after the parent: first forked child runs first.
    assert_eq!(current_pid(&m), c1 as usize);
    sys_yield(&mut m);
    assert_eq!(current_pid(&m), c2 as usize);
    assert!(sys_exit(&mut m, 3, 300));
    assert_eq!(sys_waitpid(&mut m, c1, heap).0, -2);
    let (r, code) = sys_waitpid(&mut m, c2, heap);
    assert_eq!(r, c2);
    assert_eq!(code, Some(3));
}

#[test]
fn exit_of_last_task_is_graceful_shutdown() {
    let mut m = booted(1);
    assert!(!sys_exit(&mut m, 0, 150));
    assert!(!m.running);
}

#[test]
fn set_priority_enforces_the_floor() {
    let mut m = booted(1);
    assert_eq!(sys_set_priority(&mut m, 1), -1);
    assert_eq!(sys_set_priority(&mut m, 0), -1);
    assert_eq!(sys_set_priority(&mut m, -3), -1);
    assert_eq!(sys_set_priority(&mut m, 2), 2);
    assert_eq!(sys_set_priority(&mut m, 10), 10);
}

#[test]
fn scheduling_shares_follow_priorities_without_starvation() {
    let mut m = booted(2);
    // Task 0 keeps weight 2; task 1 gets weight 10.
    assert_eq!(sys_set_priority(&mut m, 2), 2);
    sys_yield(&mut m);
    assert_eq!(current_pid(&m), 1);
    assert_eq!(sys_set_priority(&mut m, 10), 10);
    let mut turns = [0usize; 2];
    for _ in 0..600 {
        sys_yield(&mut m);
        turns[current_pid(&m)] += 1;
    }
    // Both run — no starvation — and the heavier task gets the far
    // larger share, in proportion to the 2:10 weights once the first
    // round's default quotas drain.
    assert!(turns[0] >= 20, "light task starved: {:?}", turns);
    assert!(turns[1] >= 3 * turns[0], "shares out of proportion: {:?}", turns);
}

#[test]
fn task_info_counts_its_own_entry_on_a_fresh_task() {
    let mut m = booted(1);
    // A never-yet-scheduled task has all counters at zero.
    let fresh = m.get_tcb_syscall_times();
    assert!(fresh.iter().all(|c| *c == 0));
    // Give the task heap to receive the record, then ask.
    let heap = sys_sbrk(&mut m, 0) as usize;
    assert_eq!(sys_sbrk(&mut m, 4096), heap as isize);
    let (r, stored) = sys_task_info(&mut m, heap, 160);
    assert_eq!(r, 0);
    let info = stored.expect("heap destination resolves");
    assert_eq!(info.status, TaskStatus::Running);
    assert_eq!(info.time, 60);
    for (i, c) in info.syscall_times.iter().enumerate() {
        let expected = if i == SYSCALL_TASK_INFO {
            1
        } else if i == SYSCALL_SBRK {
            2
        } else {
            0
        };
        assert_eq!(*c as usize, expected, "counter {} off", i);
    }
}

#[test]
fn exec_replaces_the_program_in_place() {
    let mut m = booted(1);
    assert_eq!(sys_mmap(&mut m, 0x1_0000, 4096, 3), 0);
    // An unresolved path changes nothing.
    assert_eq!(sys_exec(&mut m, None), -1);
    assert_eq!(sys_mmap(&mut m, 0x1_0000, 4096, 3), -1);
    let pid_before = sys_getpid(&mut m);
    assert_eq!(
        sys_exec(&mut m, Some(AppImage { entry: 0x7777, heap_base: 0x9000_0000 })),
        0
    );
    // Same task, fresh address space: the old mapping is gone.
    assert_eq!(sys_getpid(&mut m), pid_before);
    assert_eq!(sys_mmap(&mut m, 0x1_0000, 4096, 3), 0);
    let t = m.tasks[m.current_task].as_ref().unwrap();
    assert_eq!(t.trap_cx.pc, 0x7777);
}

#[test]
fn spawn_creates_a_fresh_child() {
    let mut m = booted(1);
    assert_eq!(sys_spawn(&mut m, None, 110), -1);
    let r = sys_spawn(
        &mut m,
        Some(AppImage { entry: 0x4000, heap_base: 0x9000_0000 }),
        110,
    );
    assert!(r >= 0);
    let child = r as usize;
    let p = m.tasks[m.current_task].as_ref().unwrap();
    assert_eq!(p.children.iter().filter(|c| **c == child).count(), 1);
    let c = m
        .tasks
        .iter()
        .flatten()
        .find(|t| t.pid == child)
        .expect("spawned child is live");
    assert_eq!(c.task_status, TaskStatus::Ready);
    assert_eq!(c.parent, Some(p.pid));
    assert_eq!(c.trap_cx.pc, 0x4000);
    // Nothing of the parent's address space is inherited.
    assert_eq!(c.memory_set.regions.len(), 0);
}

#[test]
fn exit_code_flows_from_exit_to_waitpid() {
    let mut m = booted(1);
    let heap = sys_sbrk(&mut m, 0) as usize;
    assert_eq!(sys_sbrk(&mut m, 64), heap as isize);
    let child = sys_fork(&mut m);
    sys_yield(&mut m);
    assert!(sys_exit(&mut m, -42, 500));
    let (r, code) = sys_waitpid(&mut m, -1, heap);
    assert_eq!(r, child);
    assert_eq!(code, Some(-42));
}
