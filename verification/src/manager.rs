//! The task manager: owner of every task control block, the sole mutator
//! of cross-task scheduling state, and the dispatcher of context
//! switches.
//!
//! The manager is one explicitly-owned object, created at startup and
//! handed to every caller that needs it.  Dispatching follows the rule
//! that all bookkeeping is finished before the context-switch primitive
//! would run: every method returns with the manager in a consistent
//! state, and the opaque saved contexts of the outgoing and incoming
//! task are only ever handed on whole.

use vstd::prelude::*;
use vstd::pervasive::arbitrary;
use crate::task::AppImage;
use crate::task::TaskControlBlock;
use crate::task::TaskStatus;

verus! {

/// Owner of all task control blocks.  A slot holds one task from its
/// creation until the reap that destroys it; emptying the slot drops the
/// last reference.
pub struct TaskManager {
    /// One slot per created task.
    pub tasks: Vec<Option<TaskControlBlock>>,
    /// Index of the `Running` task, meaningful while `running`.
    pub current_task: usize,
    /// Next unused pid; pids are never reused.
    pub next_pid: usize,
    /// False before the first dispatch and after graceful shutdown.
    pub running: bool,
}

impl TaskManager {
    /// Slot `i` holds a live (not yet destroyed) task.
    pub open spec fn live(self, i: int) -> bool {
        0 <= i < self.tasks@.len() && self.tasks@[i] is Some
    }

    /// The task in slot `i`.
    pub open spec fn tcb(self, i: int) -> TaskControlBlock {
        match self.tasks@[i] {
            Some(t) => t,
            None => arbitrary(),
        }
    }

    /// Every live task satisfies the task invariant.
    pub open spec fn tasks_wf(self) -> bool {
        forall|i: int| self.live(i) ==> (#[trigger] self.tcb(i)).wf()
    }

    /// Every live pid is below the allocation counter, so a fresh pid
    /// collides with nobody; slots are only ever added, one per pid.
    pub open spec fn pids_bounded(self) -> bool {
        &&& forall|i: int| self.live(i) ==> (#[trigger] self.tcb(i)).pid < self.next_pid
        &&& self.next_pid <= isize::MAX as usize
        &&& self.tasks@.len() <= self.next_pid
    }

    /// Live pids are pairwise distinct.
    pub open spec fn pids_distinct(self) -> bool {
        forall|i: int, j: int|
            self.live(i) && self.live(j) && i != j
                ==> (#[trigger] self.tcb(i)).pid != (#[trigger] self.tcb(j)).pid
    }

    /// Entry `k` of the children list of slot `i` names a live task whose
    /// parent back-reference is slot `i`'s task.
    pub open spec fn child_backed(self, i: int, k: int) -> bool {
        exists|j: int|
            #![trigger self.tcb(j)]
            self.live(j) && self.tcb(j).pid == self.tcb(i).children@[k]
                && self.tcb(j).parent == Some(self.tcb(i).pid)
    }

    /// Every listed child is live and points back at its lister.
    pub open spec fn children_linked(self) -> bool {
        forall|i: int, k: int|
            #![trigger self.tcb(i).children@[k]]
            self.live(i) && 0 <= k < self.tcb(i).children@.len() ==> self.child_backed(i, k)
    }

    /// No children list names the same pid twice.
    pub open spec fn children_nodup(self) -> bool {
        forall|i: int, k1: int, k2: int|
            #![trigger self.tcb(i).children@[k1], self.tcb(i).children@[k2]]
            self.live(i) && 0 <= k1 < self.tcb(i).children@.len()
                && 0 <= k2 < self.tcb(i).children@.len() && k1 != k2
                ==> self.tcb(i).children@[k1] != self.tcb(i).children@[k2]
    }

    /// The family invariants and per-task invariants, without the
    /// running-status part.
    pub open spec fn wf_core(self) -> bool {
        &&& self.tasks_wf()
        &&& self.pids_bounded()
        &&& self.pids_distinct()
        &&& self.children_linked()
        &&& self.children_nodup()
    }

    /// While the system runs, exactly one live task is `Running`, and it
    /// is the one the manager points at; after shutdown or before the
    /// first dispatch, none is.
    pub open spec fn running_ok(self) -> bool {
        if self.running {
            &&& self.current_task < self.tasks@.len()
            &&& self.live(self.current_task as int)
            &&& self.tcb(self.current_task as int).task_status == TaskStatus::Running
            &&& forall|i: int|
                self.live(i) && i != self.current_task
                    ==> (#[trigger] self.tcb(i)).task_status != TaskStatus::Running
        } else {
            forall|i: int|
                self.live(i) ==> (#[trigger] self.tcb(i)).task_status != TaskStatus::Running
        }
    }

    /// The manager invariant.
    pub open spec fn wf(self) -> bool {
        self.wf_core() && self.running_ok()
    }

    /// The task `a` differs from `b` at most in its status and its
    /// scheduling quota: dispatching touches nothing else.
    pub open spec fn same_mod_sched(a: TaskControlBlock, b: TaskControlBlock) -> bool {
        b == (TaskControlBlock { task_status: b.task_status, quota: b.quota, ..a })
    }

    /// Dispatching preserves the task set: same slots, same pids, and
    /// each task unchanged except for status and quota.
    pub open spec fn sched_frame(pre: TaskManager, post: TaskManager) -> bool {
        &&& post.tasks@.len() == pre.tasks@.len()
        &&& post.next_pid == pre.next_pid
        &&& forall|i: int|
            #![trigger post.tcb(i)]
            0 <= i < pre.tasks@.len()
                ==> (pre.live(i) <==> post.live(i)) && (pre.live(i)
                ==> Self::same_mod_sched(pre.tcb(i), post.tcb(i)))
    }

    /// Builds the manager at boot: one fresh `Ready` task per loaded
    /// application image, in order, with pids counted from zero.  No task
    /// runs until the first dispatch.
    pub fn new(images: &Vec<AppImage>, now_ms: usize) -> (r: TaskManager)
        requires
            images@.len() <= isize::MAX as usize,
            forall|i: int| 0 <= i < images@.len() ==> (#[trigger] images@[i]).wf(),
        ensures
            r.wf(),
            !r.running,
            r.tasks@.len() == images@.len(),
            r.next_pid == images@.len(),
            forall|i: int| 0 <= i < images@.len() ==> r.live(i),
            forall|i: int|
                0 <= i < images@.len() ==> (#[trigger] r.tcb(i)).pid == i
                    && r.tcb(i).task_status == TaskStatus::Ready
                    && r.tcb(i).counts_all_zero()
                    && r.tcb(i).start_time == now_ms
                    && r.tcb(i).parent is None
                    && r.tcb(i).children@.len() == 0
                    && r.tcb(i).memory_set.regions@.len() == 0
                    && r.tcb(i).memory_set.heap_bottom == images@[i].heap_base
                    && r.tcb(i).memory_set.program_brk == images@[i].heap_base,
    {
        let n = images.len();
        let mut tasks: Vec<Option<TaskControlBlock>> = Vec::new();
        let mut k: usize = 0;
        while k < n
            invariant
                n == images@.len(),
                forall|i: int| 0 <= i < images@.len() ==> (#[trigger] images@[i]).wf(),
                k <= n,
                tasks@.len() == k,
                forall|i: int| 0 <= i < k ==> tasks@[i] is Some,
                forall|i: int|
                    #![trigger tasks@[i]]
                    0 <= i < k ==> tasks@[i].unwrap().wf()
                        && tasks@[i].unwrap().pid == i
                        && tasks@[i].unwrap().task_status == TaskStatus::Ready
                        && tasks@[i].unwrap().counts_all_zero()
                        && tasks@[i].unwrap().start_time == now_ms
                        && tasks@[i].unwrap().parent is None
                        && tasks@[i].unwrap().children@.len() == 0
                        && tasks@[i].unwrap().memory_set.regions@.len() == 0
                        && tasks@[i].unwrap().memory_set.heap_bottom == images@[i].heap_base
                        && tasks@[i].unwrap().memory_set.program_brk == images@[i].heap_base,
            decreases n - k,
        {
            let t = TaskControlBlock::new(images[k], k, now_ms);
            tasks.push(Some(t));
            k += 1;
        }
        TaskManager { tasks, current_task: 0, next_pid: n, running: false }
    }

    /// Removes the task of slot `i` for editing, leaving the slot empty.
    fn take_tcb(&mut self, i: usize) -> (r: TaskControlBlock)
        requires
            i < old(self).tasks@.len(),
            old(self).tasks@[i as int] is Some,
        ensures
            final(self).tasks@ == old(self).tasks@.update(
                i as int,
                None::<TaskControlBlock>,
            ),
            r == old(self).tcb(i as int),
            final(self).current_task == old(self).current_task,
            final(self).next_pid == old(self).next_pid,
            final(self).running == old(self).running,
    {
        let slot = self.tasks.remove(i);
        self.tasks.insert(i, None);
        proof {
            assert(self.tasks@ =~= old(self).tasks@.update(i as int, None::<TaskControlBlock>));
        }
        slot.unwrap()
    }

    /// The slot the scheduler examines `off` steps after the current
    /// task, cyclically.
    pub open spec fn slot_at(self, off: int) -> int {
        (self.current_task + off) % (self.tasks@.len() as int)
    }

    /// The slot holds a task dispatchable right now: live, `Ready`, and
    /// with quota left in this round.
    pub open spec fn candidate(self, id: int) -> bool {
        self.live(id) && self.tcb(id).task_status == TaskStatus::Ready && self.tcb(id).quota > 0
    }

    /// The first dispatchable slot of the cyclic scan beginning `off`
    /// steps past the current task.  The scan covers every slot once,
    /// the current task's own slot last.
    pub open spec fn first_candidate_from(self, off: int) -> Option<usize>
        decreases self.tasks@.len() + 1 - off,
    {
        let n = self.tasks@.len() as int;
        if off < 1 || off > n {
            None
        } else if self.candidate(self.slot_at(off)) {
            Some(self.slot_at(off) as usize)
        } else {
            self.first_candidate_from(off + 1)
        }
    }

    /// A scan that found nothing passed over every later offset too.
    proof fn lemma_scan_exhausted(self, off: int)
        requires
            1 <= off <= self.tasks@.len(),
            self.first_candidate_from(off) is None,
        ensures
            forall|o: int| off <= o <= self.tasks@.len() ==> !self.candidate(self.slot_at(o)),
        decreases self.tasks@.len() - off,
    {
        if off < self.tasks@.len() {
            self.lemma_scan_exhausted(off + 1);
        }
    }

    /// Every slot is reached by the cyclic scan within one turn.
    proof fn lemma_scan_covers(self, id: int)
        requires
            self.tasks@.len() > 0,
            0 <= id < self.tasks@.len(),
            self.current_task < self.tasks@.len(),
        ensures
            exists|off: int| 1 <= off <= self.tasks@.len() && self.slot_at(off) == id,
    {
        let n = self.tasks@.len() as int;
        let cur = self.current_task as int;
        let off = if id > cur {
            id - cur
        } else {
            id - cur + n
        };
        assert(self.slot_at(off) == (cur + off) % n);
        if id > cur {
            vstd::arithmetic::div_mod::lemma_small_mod(id as nat, n as nat);
        } else {
            vstd::arithmetic::div_mod::lemma_mod_add_multiples_vanish(id, n);
            vstd::arithmetic::div_mod::lemma_small_mod(id as nat, n as nat);
        }
        assert(1 <= off <= n && self.slot_at(off) == id);
    }

    /// Walks the cyclic scan order and returns its first dispatchable
    /// slot.
    fn scan_from_current(&self) -> (r: Option<usize>)
        requires
            0 < self.tasks@.len(),
            self.tasks@.len() <= isize::MAX as usize,
            self.current_task < self.tasks@.len(),
        ensures
            r == self.first_candidate_from(1),
            r is Some ==> r.unwrap() < self.tasks@.len() && self.candidate(r.unwrap() as int),
    {
        let n = self.tasks.len();
        let mut off: usize = 1;
        while off <= n
            invariant
                n == self.tasks@.len(),
                0 < n <= isize::MAX as usize,
                self.current_task < n,
                1 <= off <= n + 1,
                self.first_candidate_from(1) == self.first_candidate_from(off as int),
            decreases n + 1 - off,
        {
            let id = (self.current_task + off) % n;
            proof {
                assert(self.slot_at(off as int) == id);
            }
            let cand = match &self.tasks[id] {
                Some(t) => t.task_status == TaskStatus::Ready && t.quota > 0,
                None => false,
            };
            if cand {
                proof {
                    assert(self.candidate(id as int));
                    assert(self.first_candidate_from(off as int) == Some(id));
                }
                return Some(id);
            }
            proof {
                assert(!self.candidate(id as int));
                assert(self.first_candidate_from(off as int)
                    == self.first_candidate_from(off as int + 1));
            }
            off += 1;
        }
        None
    }

    /// A task's quota after a refill: its full scheduling weight when it
    /// is waiting to run, untouched otherwise.
    pub open spec fn refilled(t: TaskControlBlock) -> TaskControlBlock {
        TaskControlBlock {
            quota: if t.task_status == TaskStatus::Ready {
                t.priority
            } else {
                t.quota
            },
            ..t
        }
    }

    /// Begins a new scheduling round: every waiting task's quota is set
    /// back to its priority, so each gets turns in proportion to its
    /// weight and none starves.
    fn refill_quotas(&mut self)
        ensures
            final(self).tasks@.len() == old(self).tasks@.len(),
            final(self).current_task == old(self).current_task,
            final(self).next_pid == old(self).next_pid,
            final(self).running == old(self).running,
            forall|j: int|
                #![trigger final(self).tcb(j)]
                0 <= j < old(self).tasks@.len()
                    ==> (old(self).live(j) <==> final(self).live(j)) && (old(self).live(j)
                    ==> final(self).tcb(j) == Self::refilled(old(self).tcb(j))),
    {
        let n = self.tasks.len();
        let mut i: usize = 0;
        while i < n
            invariant
                n == self.tasks@.len(),
                i <= n,
                self.tasks@.len() == old(self).tasks@.len(),
                self.current_task == old(self).current_task,
                self.next_pid == old(self).next_pid,
                self.running == old(self).running,
                forall|j: int| i <= j < n ==> self.tasks@[j] == old(self).tasks@[j],
                forall|j: int|
                    #![trigger self.tcb(j)]
                    0 <= j < i
                        ==> (old(self).live(j) <==> self.live(j)) && (old(self).live(j)
                        ==> self.tcb(j) == Self::refilled(old(self).tcb(j))),
            decreases n - i,
        {
            let ghost pre = *self;
            let is_live = self.tasks[i].is_some();
            if is_live {
                let mut t = self.take_tcb(i);
                if t.task_status == TaskStatus::Ready {
                    t.quota = t.priority;
                }
                self.put_tcb(i, t);
                proof {
                    assert(self.tasks@ =~= pre.tasks@.update(i as int, self.tasks@[i as int]));
                    assert(self.tcb(i as int) == Self::refilled(old(self).tcb(i as int)));
                    assert forall|j: int| 0 <= j < i + 1 implies (old(self).live(j)
                        <==> self.live(j)) && (old(self).live(j)
                        ==> #[trigger] self.tcb(j) == Self::refilled(old(self).tcb(j))) by {
                        if j < i {
                            assert(self.tasks@[j] == pre.tasks@[j]);
                            assert(pre.live(j) ==> pre.tcb(j) == Self::refilled(old(self).tcb(j)));
                        }
                    }
                }
            }
            i += 1;
        }
    }

    /// Editing tasks without touching pids, parents, children lists or
    /// slot occupancy preserves the family invariants.
    proof fn lemma_family_preserved(pre: TaskManager, post: TaskManager)
        requires
            pre.wf_core(),
            post.tasks@.len() == pre.tasks@.len(),
            post.next_pid == pre.next_pid,
            forall|i: int| 0 <= i < pre.tasks@.len() ==> (pre.live(i) <==> post.live(i)),
            forall|i: int|
                pre.live(i) ==> (#[trigger] post.tcb(i)).pid == pre.tcb(i).pid
                    && post.tcb(i).parent == pre.tcb(i).parent
                    && post.tcb(i).children@ == pre.tcb(i).children@
                    && post.tcb(i).wf(),
        ensures
            post.wf_core(),
    {
        assert forall|i: int, k: int|
            #![trigger post.tcb(i).children@[k]]
            post.live(i) && 0 <= k < post.tcb(i).children@.len()
            implies post.child_backed(i, k) by {
            assert(pre.live(i));
            assert(pre.tcb(i).children@[k] == post.tcb(i).children@[k]);
            assert(pre.child_backed(i, k));
            let j = choose|j: int|
                #![trigger pre.tcb(j)]
                pre.live(j) && pre.tcb(j).pid == pre.tcb(i).children@[k]
                    && pre.tcb(j).parent == Some(pre.tcb(i).pid);
            assert(post.live(j) && post.tcb(j).pid == post.tcb(i).children@[k]
                && post.tcb(j).parent == Some(post.tcb(i).pid));
        }
        assert forall|i: int, k1: int, k2: int|
            #![trigger post.tcb(i).children@[k1], post.tcb(i).children@[k2]]
            post.live(i) && 0 <= k1 < post.tcb(i).children@.len()
                && 0 <= k2 < post.tcb(i).children@.len() && k1 != k2
            implies post.tcb(i).children@[k1] != post.tcb(i).children@[k2] by {
            assert(pre.live(i));
            assert(pre.tcb(i).children@[k1] != pre.tcb(i).children@[k2]);
        }
    }

    /// Dispatches the next task of the cyclic, priority-weighted scan:
    /// marks it `Running`, charges one scheduling quantum, and makes it
    /// current.  When no live task is `Ready` the system has finished
    /// all its work and shuts down gracefully.  All manager bookkeeping
    /// is settled before this returns, as the context-switch discipline
    /// demands.
    #[verifier::rlimit(80)]
    pub fn run_next_task(&mut self) -> (r: bool)
        requires
            old(self).wf_core(),
            old(self).running,
            0 < old(self).tasks@.len(),
            old(self).current_task < old(self).tasks@.len(),
            forall|i: int|
                old(self).live(i)
                    ==> (#[trigger] old(self).tcb(i)).task_status != TaskStatus::Running,
        ensures
            final(self).wf(),
            Self::sched_frame(*old(self), *final(self)),
            r <==> (exists|i: int|
                #![trigger old(self).tcb(i)]
                old(self).live(i) && old(self).tcb(i).task_status == TaskStatus::Ready),
            r <==> final(self).running,
            r ==> final(self).current_task < final(self).tasks@.len()
                && final(self).live(final(self).current_task as int)
                && old(self).tcb(final(self).current_task as int).task_status
                    == TaskStatus::Ready
                && final(self).tcb(final(self).current_task as int).task_status
                    == TaskStatus::Running,
            forall|i: int|
                final(self).live(i) && i != final(self).current_task
                    ==> (#[trigger] final(self).tcb(i)).task_status
                        == old(self).tcb(i).task_status,
            !r ==> forall|i: int|
                final(self).live(i)
                    ==> (#[trigger] final(self).tcb(i)).task_status
                        == old(self).tcb(i).task_status,
            forall|i: int|
                old(self).live(i)
                    && (#[trigger] old(self).tcb(i)).task_status == TaskStatus::Zombie
                    ==> final(self).tcb(i) == old(self).tcb(i),
            // The policy is deterministic: when the scan finds a
            // candidate without a refill, exactly that slot runs.
            r && old(self).first_candidate_from(1) is Some ==> final(self).current_task == old(
                self,
            ).first_candidate_from(1).unwrap(),
            // Each dispatch charges the picked task one quantum of its
            // round — of its leftover quota, or of a fresh round's full
            // priority weight.
            r ==> final(self).tcb(final(self).current_task as int).quota + 1 == old(self).tcb(
                final(self).current_task as int,
            ).quota || final(self).tcb(final(self).current_task as int).quota + 1 == old(
                self,
            ).tcb(final(self).current_task as int).priority,
    {
        let first = self.scan_from_current();
        let pick = match first {
            Some(id) => Some(id),
            None => {
                self.refill_quotas();
                self.scan_from_current()
            },
        };
        proof {
            // Whether or not a refill happened, only quotas of `Ready`
            // tasks moved; everything else stands as it was.
            assert forall|i: int|
                #![trigger self.tcb(i)]
                #![trigger self.live(i)]
                0 <= i < old(self).tasks@.len()
                implies (old(self).live(i) <==> self.live(i)) && (old(self).live(i)
                ==> self.tcb(i).pid == old(self).tcb(i).pid
                    && self.tcb(i).parent == old(self).tcb(i).parent
                    && self.tcb(i).children@ == old(self).tcb(i).children@
                    && self.tcb(i).wf()
                    && self.tcb(i).task_status == old(self).tcb(i).task_status
                    && Self::same_mod_sched(old(self).tcb(i), self.tcb(i))
                    && (old(self).tcb(i).task_status != TaskStatus::Ready
                        ==> self.tcb(i) == old(self).tcb(i))) by {
                // Mentioning the slot's task brings the refill frame
                // for slot i into scope on either path.
                assert(self.tcb(i) == self.tcb(i));
                if old(self).live(i) {
                    assert(self.tcb(i) == old(self).tcb(i)
                        || self.tcb(i) == Self::refilled(old(self).tcb(i)));
                }
            }
            Self::lemma_family_preserved(*old(self), *self);
        }
        match pick {
            Some(id) => {
                let ghost mid = *self;
                let mut t = self.take_tcb(id);
                t.task_status = TaskStatus::Running;
                t.quota = t.quota - 1;
                self.put_tcb(id, t);
                self.current_task = id;
                proof {
                    assert(self.tasks@ =~= mid.tasks@.update(id as int, self.tasks@[id as int]));
                    Self::lemma_family_preserved(mid, *self);
                    assert(old(self).tcb(id as int).task_status == TaskStatus::Ready);
                    assert forall|i: int|
                        #![trigger self.tcb(i)]
                        #![trigger self.live(i)]
                        0 <= i < old(self).tasks@.len()
                        implies (old(self).live(i) <==> self.live(i)) && (old(self).live(i)
                        ==> Self::same_mod_sched(old(self).tcb(i), self.tcb(i))) by {
                        if i != id && old(self).live(i) {
                            assert(self.tcb(i) == mid.tcb(i));
                            assert(Self::same_mod_sched(old(self).tcb(i), mid.tcb(i)));
                        }
                        if i == id && old(self).live(i) {
                            assert(Self::same_mod_sched(old(self).tcb(i), mid.tcb(i)));
                            assert(Self::same_mod_sched(mid.tcb(i), self.tcb(i)));
                        }
                    }
                    assert forall|i: int| self.live(i) && i != id
                        implies (#[trigger] self.tcb(i)).task_status != TaskStatus::Running by {
                        assert(self.tcb(i) == mid.tcb(i));
                        assert(mid.tcb(i).task_status == old(self).tcb(i).task_status);
                    }
                    assert forall|i: int|
                        old(self).live(i)
                            && (#[trigger] old(self).tcb(i)).task_status == TaskStatus::Zombie
                        implies self.tcb(i) == old(self).tcb(i) by {
                        assert(i != id);
                        assert(mid.tcb(i) == old(self).tcb(i));
                        assert(self.tcb(i) == mid.tcb(i));
                    }
                    assert forall|i: int| self.live(i) && i != id
                        implies (#[trigger] self.tcb(i)).task_status
                            == old(self).tcb(i).task_status by {
                        assert(self.tcb(i) == mid.tcb(i));
                        assert(mid.tcb(i).task_status == old(self).tcb(i).task_status);
                    }
                }
                true
            },
            None => {
                let ghost pre = *self;
                proof {
                    pre.lemma_scan_exhausted(1);
                    assert forall|i: int|
                        #![trigger old(self).tcb(i)]
                        old(self).live(i)
                        implies old(self).tcb(i).task_status != TaskStatus::Ready by {
                        if old(self).tcb(i).task_status == TaskStatus::Ready {
                            // Both scans failed, so a refill happened;
                            // a refilled ready task has quota and would
                            // have been found by the covering scan.
                            assert(self.tcb(i) == Self::refilled(old(self).tcb(i)));
                            assert(old(self).tcb(i).wf());
                            assert(self.tcb(i).quota >= 2);
                            pre.lemma_scan_covers(i);
                            let off = choose|off: int|
                                1 <= off <= pre.tasks@.len() && pre.slot_at(off) == i;
                            assert(!pre.candidate(i));
                            assert(false);
                        }
                    }
                }
                self.running = false;
                proof {
                    assert(self.tasks@ == pre.tasks@);
                    assert forall|i: int|
                        #![trigger self.tcb(i)]
                        #![trigger self.live(i)]
                        0 <= i < pre.tasks@.len()
                        implies (pre.live(i) <==> self.live(i)) && (pre.live(i)
                        ==> self.tcb(i) == pre.tcb(i)) by {
                        assert(self.tasks@[i] == pre.tasks@[i]);
                    }
                    Self::lemma_family_preserved(pre, *self);
                    assert forall|i: int| self.live(i)
                        implies (#[trigger] self.tcb(i)).task_status
                            == old(self).tcb(i).task_status
                            && self.tcb(i) == old(self).tcb(i)
                            && self.tcb(i).task_status != TaskStatus::Running by {
                        assert(self.tcb(i) == pre.tcb(i));
                        assert(pre.tcb(i).task_status == old(self).tcb(i).task_status);
                        assert(old(self).tcb(i).task_status != TaskStatus::Ready);
                        assert(pre.tcb(i) == old(self).tcb(i));
                        assert(old(self).tcb(i).task_status != TaskStatus::Running);
                    }
                    assert(self.wf());
                    assert(Self::sched_frame(*old(self), *self));
                }
                false
            },
        }
    }

    /// Runs the first task at boot: the task of slot 0 becomes the one
    /// `Running` task.
    pub fn run_first_task(&mut self)
        requires
            old(self).wf(),
            !old(self).running,
            0 < old(self).tasks@.len(),
            old(self).live(0),
            old(self).tcb(0).task_status == TaskStatus::Ready,
        ensures
            final(self).wf(),
            final(self).running,
            final(self).current_task == 0,
            final(self).tcb(0).task_status == TaskStatus::Running,
            Self::sched_frame(*old(self), *final(self)),
    {
        let mut t = self.take_tcb(0);
        t.task_status = TaskStatus::Running;
        self.put_tcb(0, t);
        self.current_task = 0;
        self.running = true;
        proof {
            assert(self.tasks@ =~= old(self).tasks@.update(0, self.tasks@[0]));
            Self::lemma_family_preserved(*old(self), *self);
            assert forall|i: int| self.live(i) && i != 0
                implies (#[trigger] self.tcb(i)).task_status != TaskStatus::Running by {
                assert(self.tcb(i) == old(self).tcb(i));
                assert(old(self).tcb(i).task_status != TaskStatus::Running);
            }
        }
    }

    /// Suspends the current task — a voluntary yield, or the trap
    /// layer's reaction to a timer tick — and dispatches.  Some task is
    /// always left `Running`: at worst the suspended one is picked
    /// again.
    /// A slot the yield scan may dispatch: live, with quota, and either
    /// waiting already or the very task about to be suspended — which the
    /// scan treats as waiting, since the yield marks it `Ready` first.
    pub open spec fn yield_candidate(self, id: int) -> bool {
        self.live(id) && (self.tcb(id).task_status == TaskStatus::Ready || id
            == self.current_task) && self.tcb(id).quota > 0
    }

    /// The first slot a yield dispatches, read off the state before the
    /// suspension: the cyclic scan beginning one past the current task,
    /// with the current task itself counted as waiting.
    pub open spec fn first_yield_candidate_from(self, off: int) -> Option<usize>
        decreases self.tasks@.len() + 1 - off,
    {
        let n = self.tasks@.len() as int;
        if off < 1 || off > n {
            None
        } else if self.yield_candidate(self.slot_at(off)) {
            Some(self.slot_at(off) as usize)
        } else {
            self.first_yield_candidate_from(off + 1)
        }
    }

    /// The plain scan of the marked state agrees with the yield-aware
    /// scan of the unmarked one.
    proof fn lemma_yield_scan_agrees(pre: TaskManager, mid: TaskManager, off: int)
        requires
            mid.tasks@.len() == pre.tasks@.len(),
            mid.current_task == pre.current_task,
            forall|i: int| 0 <= i < pre.tasks@.len() ==> (pre.live(i) <==> mid.live(i)),
            forall|i: int| pre.live(i) ==> (#[trigger] mid.tcb(i)).quota == pre.tcb(i).quota,
            forall|i: int|
                pre.live(i) && i != pre.current_task ==> (#[trigger] mid.tcb(i)).task_status
                    == pre.tcb(i).task_status,
            pre.live(pre.current_task as int) ==> mid.tcb(pre.current_task as int).task_status
                == TaskStatus::Ready,
        ensures
            mid.first_candidate_from(off) == pre.first_yield_candidate_from(off),
        decreases pre.tasks@.len() + 1 - off,
    {
        let n = pre.tasks@.len() as int;
        if 1 <= off <= n {
            let id = pre.slot_at(off);
            assert(mid.slot_at(off) == id);
            assert(mid.candidate(id) == pre.yield_candidate(id));
            Self::lemma_yield_scan_agrees(pre, mid, off + 1);
        }
    }

    /// Two states with the same slots, statuses and quotas scan alike.
    pub proof fn lemma_yield_scan_congruent(a: TaskManager, b: TaskManager, off: int)
        requires
            b.tasks@.len() == a.tasks@.len(),
            b.current_task == a.current_task,
            forall|i: int| 0 <= i < a.tasks@.len() ==> (a.live(i) <==> b.live(i)),
            forall|i: int|
                a.live(i) ==> (#[trigger] b.tcb(i)).quota == a.tcb(i).quota && b.tcb(
                    i,
                ).task_status == a.tcb(i).task_status,
        ensures
            b.first_yield_candidate_from(off) == a.first_yield_candidate_from(off),
        decreases a.tasks@.len() + 1 - off,
    {
        let n = a.tasks@.len() as int;
        if 1 <= off <= n {
            let id = a.slot_at(off);
            assert(b.slot_at(off) == id);
            assert(b.yield_candidate(id) == a.yield_candidate(id));
            Self::lemma_yield_scan_congruent(a, b, off + 1);
        }
    }

    /// Two states whose slots are dispatchable alike scan alike.
    pub proof fn lemma_scan_congruent(a: TaskManager, b: TaskManager, off: int)
        requires
            b.tasks@.len() == a.tasks@.len(),
            b.current_task == a.current_task,
            forall|i: int| #[trigger] a.candidate(i) == b.candidate(i),
        ensures
            b.first_candidate_from(off) == a.first_candidate_from(off),
        decreases a.tasks@.len() + 1 - off,
    {
        let n = a.tasks@.len() as int;
        if 1 <= off <= n {
            assert(b.slot_at(off) == a.slot_at(off));
            assert(a.candidate(a.slot_at(off)) == b.candidate(a.slot_at(off)));
            Self::lemma_scan_congruent(a, b, off + 1);
        }
    }

    /// What the scan returns, it vouches for: a dispatchable slot.
    proof fn lemma_first_candidate_is_candidate(m: TaskManager, off: int)
        requires
            m.first_candidate_from(off) is Some,
        ensures
            m.candidate(m.first_candidate_from(off).unwrap() as int),
        decreases m.tasks@.len() + 1 - off,
    {
        let n = m.tasks@.len() as int;
        if off < 1 || off > n {
            assert(m.first_candidate_from(off) is None);
        } else {
            vstd::arithmetic::div_mod::lemma_mod_bound(m.current_task + off, n);
            assert(0 <= m.slot_at(off) < n);
            assert(m.tasks.len() as int == n);
            if m.candidate(m.slot_at(off)) {
                assert(m.first_candidate_from(off) == Some((m.slot_at(off) as usize)));
                assert(m.slot_at(off) as usize as int == m.slot_at(off));
            } else {
                assert(m.first_candidate_from(off) == m.first_candidate_from(off + 1));
                Self::lemma_first_candidate_is_candidate(m, off + 1);
            }
        }
    }

    /// Two edits that each leave every slot but the current one alone
    /// compose into a third.
    pub proof fn lemma_only_current_changed_trans(a: TaskManager, b: TaskManager, c: TaskManager)
        requires
            Self::only_current_changed(a, b),
            Self::only_current_changed(b, c),
        ensures
            Self::only_current_changed(a, c),
    {
        assert forall|i: int|
            #![trigger c.tcb(i)]
            #![trigger c.live(i)]
            0 <= i < a.tasks@.len() && i != a.current_task
            implies (a.live(i) <==> c.live(i)) && (a.live(i) ==> c.tcb(i) == a.tcb(i)) by {
            assert(b.tcb(i) == b.tcb(i));
            assert(b.live(i) == b.live(i));
        }
    }

    pub fn suspend_current_and_run_next(&mut self)
        requires
            old(self).wf(),
            old(self).running,
        ensures
            final(self).wf(),
            final(self).running,
            Self::sched_frame(*old(self), *final(self)),
            // The pick is deterministic, read off the incoming state.
            old(self).first_yield_candidate_from(1) is Some ==> final(self).current_task == old(
                self,
            ).first_yield_candidate_from(1).unwrap(),
            // Statuses: the suspended task ends `Ready` unless dispatched
            // again; every other undispatched task keeps its status.
            forall|i: int|
                final(self).live(i) && i != final(self).current_task
                    ==> (#[trigger] final(self).tcb(i)).task_status == (if i == old(
                    self,
                ).current_task {
                    TaskStatus::Ready
                } else {
                    old(self).tcb(i).task_status
                }),
            // A zombie stays exactly as it was: suspension never revives
            // or touches an exited task.
            forall|i: int|
                old(self).live(i) && (#[trigger] old(self).tcb(i)).task_status
                    == TaskStatus::Zombie ==> final(self).tcb(i) == old(self).tcb(i),
            // One quantum is charged to the dispatched task, out of its
            // leftover quota or out of a fresh round's full weight.
            final(self).tcb(final(self).current_task as int).quota + 1 == old(self).tcb(
                final(self).current_task as int,
            ).quota || final(self).tcb(final(self).current_task as int).quota + 1 == old(
                self,
            ).tcb(final(self).current_task as int).priority,
    {
        let cur = self.current_task;
        let mut t = self.take_tcb(cur);
        t.task_status = TaskStatus::Ready;
        self.put_tcb(cur, t);
        let ghost mid = *self;
        proof {
            assert(self.tasks@ =~= old(self).tasks@.update(cur as int, self.tasks@[cur as int]));
            Self::lemma_family_preserved(*old(self), *self);
            assert forall|i: int| mid.live(i)
                implies (#[trigger] mid.tcb(i)).task_status != TaskStatus::Running by {
                if i != cur {
                    assert(old(self).tcb(i).task_status != TaskStatus::Running);
                    assert(mid.tcb(i) == old(self).tcb(i));
                }
            }
        }
        let switched = self.run_next_task();
        proof {
            assert(mid.live(cur as int) && mid.tcb(cur as int).task_status == TaskStatus::Ready);
            assert(switched);
            assert forall|i: int|
                0 <= i < old(self).tasks@.len()
                implies (old(self).live(i) <==> self.live(i)) && (old(self).live(i)
                ==> Self::same_mod_sched(old(self).tcb(i), #[trigger] self.tcb(i))) by {
                if old(self).live(i) {
                    assert(Self::same_mod_sched(mid.tcb(i), self.tcb(i)));
                    assert(Self::same_mod_sched(old(self).tcb(i), mid.tcb(i)));
                }
            }
            Self::lemma_yield_scan_agrees(*old(self), mid, 1);
            assert forall|i: int| self.live(i) && i != self.current_task
                implies (#[trigger] self.tcb(i)).task_status == (if i == old(
                self,
            ).current_task {
                TaskStatus::Ready
            } else {
                old(self).tcb(i).task_status
            }) by {
                assert(self.tcb(i).task_status == mid.tcb(i).task_status);
                if i != cur {
                    assert(mid.tcb(i) == old(self).tcb(i));
                }
            }
            assert forall|i: int|
                old(self).live(i) && (#[trigger] old(self).tcb(i)).task_status
                    == TaskStatus::Zombie
                implies self.tcb(i) == old(self).tcb(i) by {
                assert(i != cur);
                assert(mid.tcb(i) == old(self).tcb(i));
                assert(mid.tcb(i).task_status == TaskStatus::Zombie);
            }
            let fc = self.current_task as int;
            assert(mid.tcb(fc).quota == old(self).tcb(fc).quota);
            assert(mid.tcb(fc).priority == old(self).tcb(fc).priority);
        }
    }

    /// Ends the current task: records its exit code, freezes its
    /// elapsed running time, makes it a `Zombie` awaiting reap, and
    /// dispatches.  Returns false when no task was left to run — the
    /// graceful shutdown of a system whose work is done.
    pub fn exit_current_and_run_next(&mut self, exit_code: i32, now_ms: usize) -> (r: bool)
        requires
            old(self).wf(),
            old(self).running,
        ensures
            final(self).wf(),
            r <==> final(self).running,
            r <==> (exists|i: int|
                #![trigger old(self).tcb(i)]
                old(self).live(i) && old(self).tcb(i).task_status == TaskStatus::Ready),
            final(self).tasks@.len() == old(self).tasks@.len(),
            final(self).next_pid == old(self).next_pid,
            final(self).live(old(self).current_task as int),
            final(self).tcb(old(self).current_task as int) == (TaskControlBlock {
                task_status: TaskStatus::Zombie,
                exit_code: exit_code,
                time: final(self).tcb(old(self).current_task as int).time,
                ..old(self).tcb(old(self).current_task as int)
            }),
            final(self).tcb(old(self).current_task as int).time == (if now_ms
                >= old(self).tcb(old(self).current_task as int).start_time {
                (now_ms - old(self).tcb(old(self).current_task as int).start_time) as usize
            } else {
                0usize
            }),
            forall|i: int|
                0 <= i < old(self).tasks@.len() && i != old(self).current_task
                    ==> (old(self).live(i) <==> final(self).live(i)) && (old(self).live(i)
                    ==> Self::same_mod_sched(old(self).tcb(i), #[trigger] final(self).tcb(i))),
            forall|i: int|
                old(self).live(i) && i != old(self).current_task
                    && old(self).tcb(i).task_status == TaskStatus::Zombie
                    ==> (#[trigger] final(self).tcb(i)).task_status == TaskStatus::Zombie,
            // The pick is deterministic, read off the incoming state:
            // the exiting task was `Running`, so marking it a zombie
            // leaves the candidate scan unchanged.
            old(self).first_candidate_from(1) is Some ==> final(self).current_task == old(
                self,
            ).first_candidate_from(1).unwrap(),
            // Every undispatched task keeps its status.
            forall|i: int|
                final(self).live(i) && i != final(self).current_task
                    ==> (#[trigger] final(self).tcb(i)).task_status == (if i == old(
                    self,
                ).current_task {
                    TaskStatus::Zombie
                } else {
                    old(self).tcb(i).task_status
                }),
    {
        let cur = self.current_task;
        let mut t = self.take_tcb(cur);
        t.task_status = TaskStatus::Zombie;
        t.exit_code = exit_code;
        t.time = if now_ms >= t.start_time {
            now_ms - t.start_time
        } else {
            0
        };
        self.put_tcb(cur, t);
        let ghost mid = *self;
        proof {
            assert(self.tasks@ =~= old(self).tasks@.update(cur as int, self.tasks@[cur as int]));
            Self::lemma_family_preserved(*old(self), *self);
            assert forall|i: int| mid.live(i)
                implies (#[trigger] mid.tcb(i)).task_status != TaskStatus::Running by {
                if i != cur {
                    assert(old(self).tcb(i).task_status != TaskStatus::Running);
                    assert(mid.tcb(i) == old(self).tcb(i));
                }
            }
        }
        let switched = self.run_next_task();
        proof {
            assert forall|i: int|
                #![trigger old(self).tcb(i)]
                old(self).live(i) && old(self).tcb(i).task_status == TaskStatus::Ready
                implies mid.live(i) && mid.tcb(i).task_status == TaskStatus::Ready by {
                assert(i != cur);
                assert(mid.tcb(i) == old(self).tcb(i));
            }
            assert forall|i: int|
                #![trigger mid.tcb(i)]
                mid.live(i) && mid.tcb(i).task_status == TaskStatus::Ready
                implies old(self).live(i) && old(self).tcb(i).task_status == TaskStatus::Ready by {
                assert(i != cur);
                assert(mid.tcb(i) == old(self).tcb(i));
            }
            assert(mid.tcb(cur as int).task_status == TaskStatus::Zombie);
            assert(self.tcb(cur as int) == mid.tcb(cur as int));
            assert forall|i: int|
                0 <= i < old(self).tasks@.len() && i != cur && old(self).live(i)
                implies Self::same_mod_sched(old(self).tcb(i), #[trigger] self.tcb(i)) by {
                assert(Self::same_mod_sched(mid.tcb(i), self.tcb(i)));
                assert(mid.tcb(i) == old(self).tcb(i));
            }
            assert forall|i: int|
                old(self).live(i) && i != cur
                    && (#[trigger] old(self).tcb(i)).task_status == TaskStatus::Zombie
                implies self.tcb(i).task_status == TaskStatus::Zombie by {
                assert(mid.tcb(i) == old(self).tcb(i));
                assert(self.tcb(i) == mid.tcb(i));
            }
            assert forall|i: int| #[trigger] old(self).candidate(i) == mid.candidate(i) by {
                if old(self).live(i) && i != cur {
                    assert(mid.tcb(i) == old(self).tcb(i));
                } else if old(self).live(i) {
                    assert(old(self).tcb(cur as int).task_status == TaskStatus::Running);
                    assert(mid.tcb(cur as int).task_status == TaskStatus::Zombie);
                } else {
                    assert(!old(self).live(i) && !mid.live(i));
                }
            }
            Self::lemma_scan_congruent(*old(self), mid, 1);
            if old(self).first_candidate_from(1) is Some {
                Self::lemma_first_candidate_is_candidate(mid, 1);
                let id = mid.first_candidate_from(1).unwrap() as int;
                assert(mid.tcb(id).task_status == TaskStatus::Ready);
                assert(switched);
            }
            assert forall|i: int|
                self.live(i) && i != self.current_task
                implies (#[trigger] self.tcb(i)).task_status == (if i == cur {
                    TaskStatus::Zombie
                } else {
                    old(self).tcb(i).task_status
                }) by {
                assert(self.tcb(i).task_status == mid.tcb(i).task_status);
                if i != cur {
                    assert(mid.tcb(i) == old(self).tcb(i));
                }
            }
        }
        switched
    }

    /// Nothing changed but the current task's slot.
    pub open spec fn only_current_changed(pre: TaskManager, post: TaskManager) -> bool {
        &&& post.tasks@.len() == pre.tasks@.len()
        &&& post.current_task == pre.current_task
        &&& post.next_pid == pre.next_pid
        &&& post.running == pre.running
        &&& forall|i: int|
            #![trigger post.tcb(i)]
            #![trigger post.live(i)]
            0 <= i < pre.tasks@.len() && i != pre.current_task
                ==> (pre.live(i) <==> post.live(i)) && (pre.live(i)
                ==> post.tcb(i) == pre.tcb(i))
        &&& post.live(pre.current_task as int)
    }

    /// An edit of the current task that keeps its identity, family links
    /// and status preserves the manager invariant.
    proof fn lemma_edit_current(pre: TaskManager, post: TaskManager)
        requires
            pre.wf(),
            pre.running,
            Self::only_current_changed(pre, post),
            post.tcb(pre.current_task as int).pid == pre.tcb(pre.current_task as int).pid,
            post.tcb(pre.current_task as int).parent == pre.tcb(
                pre.current_task as int,
            ).parent,
            post.tcb(pre.current_task as int).children@ == pre.tcb(
                pre.current_task as int,
            ).children@,
            post.tcb(pre.current_task as int).task_status == pre.tcb(
                pre.current_task as int,
            ).task_status,
            post.tcb(pre.current_task as int).wf(),
        ensures
            post.wf(),
    {
        let cur = pre.current_task as int;
        assert forall|i: int| 0 <= i < pre.tasks@.len()
            implies (pre.live(i) <==> #[trigger] post.live(i)) by {
            if i != cur {
                assert(post.tcb(i) == post.tcb(i));
            }
        }
        assert forall|i: int| pre.live(i)
            implies (#[trigger] post.tcb(i)).pid == pre.tcb(i).pid
                && post.tcb(i).parent == pre.tcb(i).parent
                && post.tcb(i).children@ == pre.tcb(i).children@
                && post.tcb(i).wf() by {
            if i != cur {
                assert(post.tcb(i) == pre.tcb(i));
            }
        }
        Self::lemma_family_preserved(pre, post);
        assert forall|i: int| post.live(i) && i != post.current_task
            implies (#[trigger] post.tcb(i)).task_status != TaskStatus::Running by {
            assert(post.tcb(i) == pre.tcb(i));
        }
    }

    /// Pid of the current task.
    pub fn getpid_current(&self) -> (r: usize)
        requires
            self.wf(),
            self.running,
        ensures
            r == self.tcb(self.current_task as int).pid,
    {
        match &self.tasks[self.current_task] {
            Some(t) => t.pid,
            None => vstd::pervasive::unreached(),
        }
    }

    /// Status of the current task.
    pub fn get_current_task_state(&self) -> (r: TaskStatus)
        requires
            self.wf(),
            self.running,
        ensures
            r == self.tcb(self.current_task as int).task_status,
    {
        match &self.tasks[self.current_task] {
            Some(t) => t.task_status,
            None => vstd::pervasive::unreached(),
        }
    }

    /// Clock reading at the current task's creation.
    pub fn get_init_time(&self) -> (r: usize)
        requires
            self.wf(),
            self.running,
        ensures
            r == self.tcb(self.current_task as int).start_time,
    {
        match &self.tasks[self.current_task] {
            Some(t) => t.start_time,
            None => vstd::pervasive::unreached(),
        }
    }

    /// The current task's saved user registers.
    pub fn get_current_trap_cx(&self) -> (r: crate::task::TrapContext)
        requires
            self.wf(),
            self.running,
        ensures
            r == self.tcb(self.current_task as int).trap_cx,
    {
        match &self.tasks[self.current_task] {
            Some(t) => t.trap_cx,
            None => vstd::pervasive::unreached(),
        }
    }

    /// A copy of the current task's syscall counters.
    pub fn get_tcb_syscall_times(&self) -> (r: Vec<u32>)
        requires
            self.wf(),
            self.running,
        ensures
            r@ == self.tcb(self.current_task as int).tcb_syscall_times@,
    {
        match &self.tasks[self.current_task] {
            Some(t) => {
                let n = t.tcb_syscall_times.len();
                let mut v: Vec<u32> = Vec::new();
                let mut k: usize = 0;
                while k < n
                    invariant
                        n == t.tcb_syscall_times@.len(),
                        k <= n,
                        v@ == t.tcb_syscall_times@.subrange(0, k as int),
                    decreases n - k,
                {
                    v.push(t.tcb_syscall_times[k]);
                    proof {
                        assert(v@ =~= t.tcb_syscall_times@.subrange(0, k + 1int));
                    }
                    k += 1;
                }
                proof {
                    assert(v@ =~= t.tcb_syscall_times@);
                }
                v
            },
            None => vstd::pervasive::unreached(),
        }
    }

    /// Bumps the current task's counter of one syscall identifier.
    pub fn set_tcb_syscall_times(&mut self, syscall_id: usize)
        requires
            old(self).wf(),
            old(self).running,
            syscall_id < crate::config::MAX_SYSCALL_NUM,
        ensures
            final(self).wf(),
            final(self).running,
            Self::only_current_changed(*old(self), *final(self)),
            final(self).tcb(old(self).current_task as int) == (TaskControlBlock {
                tcb_syscall_times: final(self).tcb(old(self).current_task as int)
                    .tcb_syscall_times,
                ..old(self).tcb(old(self).current_task as int)
            }),
            final(self).tcb(old(self).current_task as int).tcb_syscall_times@
                == old(self).tcb(old(self).current_task as int).tcb_syscall_times@.update(
                syscall_id as int,
                crate::task::bump(
                    old(self).tcb(old(self).current_task as int).tcb_syscall_times@[
                        syscall_id as int],
                ),
            ),
    {
        let cur = self.current_task;
        let mut t = self.take_tcb(cur);
        t.count_syscall(syscall_id);
        self.put_tcb(cur, t);
        proof {
            assert(self.tasks@ =~= old(self).tasks@.update(cur as int, self.tasks@[cur as int]));
            Self::lemma_edit_current(*old(self), *self);
        }
    }

    /// Sets the current task's scheduling weight.  The floor on the
    /// value is enforced at the syscall boundary; an out-of-range value
    /// never reaches a task.
    pub fn set_priority_current(&mut self, prio: usize)
        requires
            old(self).wf(),
            old(self).running,
            prio >= 2,
        ensures
            final(self).wf(),
            final(self).running,
            Self::only_current_changed(*old(self), *final(self)),
            final(self).tcb(old(self).current_task as int) == (TaskControlBlock {
                priority: prio,
                ..old(self).tcb(old(self).current_task as int)
            }),
    {
        let cur = self.current_task;
        let mut t = self.take_tcb(cur);
        t.priority = prio;
        self.put_tcb(cur, t);
        proof {
            assert(self.tasks@ =~= old(self).tasks@.update(cur as int, self.tasks@[cur as int]));
            Self::lemma_edit_current(*old(self), *self);
        }
    }

    /// Moves the current task's program break, returning the previous
    /// break, or nothing if the request was out of range.
    pub fn change_current_program_brk(&mut self, size: i32) -> (r: Option<usize>)
        requires
            old(self).wf(),
            old(self).running,
        ensures
            final(self).wf(),
            final(self).running,
            Self::only_current_changed(*old(self), *final(self)),
            r is Some <==> old(self).tcb(old(self).current_task as int).memory_set.heap_bottom
                <= old(self).tcb(old(self).current_task as int).memory_set.program_brk + size
                && old(self).tcb(old(self).current_task as int).memory_set.program_brk + size
                <= isize::MAX as usize,
            r is Some ==> r == Some(
                old(self).tcb(old(self).current_task as int).memory_set.program_brk,
            ) && final(self).tcb(old(self).current_task as int).memory_set.program_brk
                == old(self).tcb(old(self).current_task as int).memory_set.program_brk + size,
            r is Some ==> final(self).tcb(old(self).current_task as int) == (TaskControlBlock {
                memory_set: final(self).tcb(old(self).current_task as int).memory_set,
                ..old(self).tcb(old(self).current_task as int)
            }) && final(self).tcb(old(self).current_task as int).memory_set.regions@
                == old(self).tcb(old(self).current_task as int).memory_set.regions@
                && final(self).tcb(old(self).current_task as int).memory_set.heap_bottom
                == old(self).tcb(old(self).current_task as int).memory_set.heap_bottom,
            r is None ==> final(self).tcb(old(self).current_task as int)
                == old(self).tcb(old(self).current_task as int),
    {
        let cur = self.current_task;
        let mut t = self.take_tcb(cur);
        let r = t.memory_set.change_brk(size);
        self.put_tcb(cur, t);
        proof {
            assert(self.tasks@ =~= old(self).tasks@.update(cur as int, self.tasks@[cur as int]));
            Self::lemma_edit_current(*old(self), *self);
        }
        r
    }

    /// Maps `[start, end)` with `perm` in the current task's address
    /// space: recorded by the tracker and installed in the page table,
    /// or rejected whole.
    pub fn push(&mut self, start: usize, end: usize, perm: crate::region::MapPermission) -> (r:
        bool)
        requires
            old(self).wf(),
            old(self).running,
            start % crate::config::PAGE_SIZE == 0,
            end % crate::config::PAGE_SIZE == 0,
            start <= end,
            perm.spec_valid(),
        ensures
            final(self).wf(),
            final(self).running,
            Self::only_current_changed(*old(self), *final(self)),
            final(self).tcb(old(self).current_task as int) == (TaskControlBlock {
                memory_set: final(self).tcb(old(self).current_task as int).memory_set,
                ..old(self).tcb(old(self).current_task as int)
            }),
            r <==> (start < end && forall|i: int|
                0 <= i < old(self).tcb(old(self).current_task as int).memory_set.regions@.len()
                    ==> (#[trigger] old(self).tcb(
                    old(self).current_task as int,
                ).memory_set.regions@[i]).disjoint_range(start as int, end as int)),
            r ==> final(self).tcb(old(self).current_task as int).memory_set.regions@
                == old(self).tcb(old(self).current_task as int).memory_set.regions@.push(
                (crate::region::Region { start, end, perm }),
            ),
            r ==> final(self).tcb(
                old(self).current_task as int,
            ).memory_set.page_table.areas@ == old(self).tcb(
                old(self).current_task as int,
            ).memory_set.page_table.areas@.push((start, end, perm)),
            !r ==> final(self).tcb(old(self).current_task as int)
                == old(self).tcb(old(self).current_task as int),
            final(self).tcb(old(self).current_task as int).memory_set.program_brk == old(
                self,
            ).tcb(old(self).current_task as int).memory_set.program_brk,
            final(self).tcb(old(self).current_task as int).memory_set.heap_bottom == old(
                self,
            ).tcb(old(self).current_task as int).memory_set.heap_bottom,
    {
        let cur = self.current_task;
        let mut t = self.take_tcb(cur);
        let r = t.memory_set.insert_area(start, end, perm);
        self.put_tcb(cur, t);
        proof {
            assert(self.tasks@ =~= old(self).tasks@.update(cur as int, self.tasks@[cur as int]));
            Self::lemma_edit_current(*old(self), *self);
        }
        r
    }

    /// Unmaps `[start, end)` from the current task's address space:
    /// succeeds only when the non-empty range exactly tiles tracked
    /// regions, and a rejected request changes nothing.
    pub fn pay_back(&mut self, start: usize, end: usize) -> (r: bool)
        requires
            old(self).wf(),
            old(self).running,
            start % crate::config::PAGE_SIZE == 0,
            end % crate::config::PAGE_SIZE == 0,
            start <= end,
        ensures
            final(self).wf(),
            final(self).running,
            Self::only_current_changed(*old(self), *final(self)),
            final(self).tcb(old(self).current_task as int) == (TaskControlBlock {
                memory_set: final(self).tcb(old(self).current_task as int).memory_set,
                ..old(self).tcb(old(self).current_task as int)
            }),
            r <==> start < end && crate::region::tiles(
                old(self).tcb(old(self).current_task as int).memory_set.regions@,
                start as int,
                end as int,
            ),
            r ==> final(self).tcb(old(self).current_task as int).memory_set.regions@ == old(self).tcb(old(self).current_task as int).memory_set.regions@.filter(
                |reg: crate::region::Region| reg.disjoint_range(start as int, end as int),
            ),
            r ==> final(self).tcb(
                old(self).current_task as int,
            ).memory_set.page_table.areas@ == old(self).tcb(
                old(self).current_task as int,
            ).memory_set.page_table.areas@.filter(
                |a: (usize, usize, crate::region::MapPermission)| a.1 <= start || end <= a.0,
            ),
            !r ==> final(self).tcb(old(self).current_task as int) == old(self).tcb(
                old(self).current_task as int,
            ),
            final(self).tcb(old(self).current_task as int).memory_set.program_brk == old(
                self,
            ).tcb(old(self).current_task as int).memory_set.program_brk,
            final(self).tcb(old(self).current_task as int).memory_set.heap_bottom == old(
                self,
            ).tcb(old(self).current_task as int).memory_set.heap_bottom,
    {
        let cur = self.current_task;
        let mut t = self.take_tcb(cur);
        let r = t.memory_set.remove_area(start, end);
        self.put_tcb(cur, t);
        proof {
            assert(self.tasks@ =~= old(self).tasks@.update(cur as int, self.tasks@[cur as int]));
            Self::lemma_edit_current(*old(self), *self);
        }
        r
    }

    /// Registering a fresh `Ready` task as the current task's youngest
    /// child — a new last slot carrying the old allocation counter as
    /// its pid — preserves the manager invariant; and no earlier
    /// children entry anywhere names the fresh pid.
    proof fn lemma_child_registered(pre: TaskManager, post: TaskManager)
        requires
            pre.wf(),
            pre.running,
            pre.next_pid < isize::MAX as usize,
            post.tasks@.len() == pre.tasks@.len() + 1,
            post.current_task == pre.current_task,
            post.next_pid == pre.next_pid + 1,
            post.running,
            forall|i: int|
                0 <= i < pre.tasks@.len() ==> (pre.live(i) <==> #[trigger] post.live(i)),
            forall|i: int|
                pre.live(i) && i != pre.current_task ==> #[trigger] post.tcb(i) == pre.tcb(i),
            post.live(pre.current_task as int),
            post.tcb(pre.current_task as int) == (TaskControlBlock {
                children: post.tcb(pre.current_task as int).children,
                ..pre.tcb(pre.current_task as int)
            }),
            post.tcb(pre.current_task as int).children@ == pre.tcb(
                pre.current_task as int,
            ).children@.push(pre.next_pid),
            post.live(pre.tasks@.len() as int),
            post.tcb(pre.tasks@.len() as int).wf(),
            post.tcb(pre.tasks@.len() as int).pid == pre.next_pid,
            post.tcb(pre.tasks@.len() as int).task_status == TaskStatus::Ready,
            post.tcb(pre.tasks@.len() as int).parent == Some(
                pre.tcb(pre.current_task as int).pid,
            ),
            post.tcb(pre.tasks@.len() as int).children@.len() == 0,
        ensures
            post.wf(),
            forall|k: int|
                0 <= k < pre.tcb(pre.current_task as int).children@.len()
                    ==> #[trigger] pre.tcb(pre.current_task as int).children@[k]
                    != pre.next_pid,
    {
        let n = pre.tasks@.len() as int;
        let curi = pre.current_task as int;
        let new_pid = pre.next_pid;
        {
            assert forall|i: int, k: int|
                #![trigger pre.tcb(i).children@[k]]
                pre.live(i) && 0 <= k < pre.tcb(i).children@.len()
                implies pre.tcb(i).children@[k] < new_pid by {
                assert(pre.child_backed(i, k));
                let j = choose|j: int|
                    #![trigger pre.tcb(j)]
                    pre.live(j) && pre.tcb(j).pid == pre.tcb(i).children@[k]
                        && pre.tcb(j).parent == Some(pre.tcb(i).pid);
            }
            assert forall|i: int, k: int|
                #![trigger post.tcb(i).children@[k]]
                post.live(i) && 0 <= k < post.tcb(i).children@.len()
                implies post.child_backed(i, k) by {
                if i == n {
                    assert(post.tcb(n).children@.len() == 0);
                } else if i == curi && k == pre.tcb(curi).children@.len() {
                    assert(post.tcb(n).pid == post.tcb(i).children@[k]);
                    assert(post.tcb(n).parent == Some(post.tcb(i).pid));
                    assert(post.live(n));
                } else {
                    assert(pre.live(i) && 0 <= k < pre.tcb(i).children@.len());
                    assert(post.tcb(i).children@[k] == pre.tcb(i).children@[k]);
                    assert(pre.child_backed(i, k));
                    let j = choose|j: int|
                        #![trigger pre.tcb(j)]
                        pre.live(j) && pre.tcb(j).pid == pre.tcb(i).children@[k]
                            && pre.tcb(j).parent == Some(pre.tcb(i).pid);
                    assert(post.live(j));
                    assert(post.tcb(j).pid == pre.tcb(j).pid);
                    assert(post.tcb(j).parent == pre.tcb(j).parent);
                    assert(post.tcb(j).pid == post.tcb(i).children@[k]);
                    assert(post.tcb(j).parent == Some(post.tcb(i).pid));
                }
            }
            assert forall|i: int, k1: int, k2: int|
                #![trigger post.tcb(i).children@[k1], post.tcb(i).children@[k2]]
                post.live(i) && 0 <= k1 < post.tcb(i).children@.len()
                    && 0 <= k2 < post.tcb(i).children@.len() && k1 != k2
                implies post.tcb(i).children@[k1] != post.tcb(i).children@[k2] by {
                if i == curi {
                    let oldlen = pre.tcb(curi).children@.len() as int;
                    if k1 < oldlen && k2 < oldlen {
                        assert(pre.tcb(i).children@[k1] != pre.tcb(i).children@[k2]);
                    } else if k1 == oldlen {
                        assert(pre.tcb(i).children@[k2] < new_pid);
                    } else if k2 == oldlen {
                        assert(pre.tcb(i).children@[k1] < new_pid);
                    }
                } else if i != n {
                    assert(pre.tcb(i).children@[k1] != pre.tcb(i).children@[k2]);
                }
            }
            assert forall|i: int| post.live(i) && i != post.current_task
                implies (#[trigger] post.tcb(i)).task_status != TaskStatus::Running by {
                if i < n {
                    assert(post.tcb(i).task_status == pre.tcb(i).task_status);
                }
            }
        }
        assert forall|i: int| post.live(i)
            implies (#[trigger] post.tcb(i)).wf() && post.tcb(i).pid < post.next_pid by {
            if i < n && i != curi {
                assert(post.tcb(i) == pre.tcb(i));
            } else if i == curi {
                assert(pre.tcb(curi).wf());
            }
        }
        assert forall|i: int, j: int|
            post.live(i) && post.live(j) && i != j
            implies (#[trigger] post.tcb(i)).pid != (#[trigger] post.tcb(j)).pid by {
            if i < n && j < n {
                assert(post.tcb(i).pid == pre.tcb(i).pid);
                assert(post.tcb(j).pid == pre.tcb(j).pid);
            } else if i == n {
                assert(post.tcb(j).pid == pre.tcb(j).pid && pre.tcb(j).pid < new_pid);
            } else {
                assert(post.tcb(i).pid == pre.tcb(i).pid && pre.tcb(i).pid < new_pid);
            }
        }
    }

    /// Forks the current task: a full logical copy of its address space
    /// and trap frame under a fresh pid, registered as the youngest
    /// child of the caller.  The duplicate's saved syscall return value
    /// is 0 — the fork-child convention — while the caller receives the
    /// new pid.
    pub fn fork_current(&mut self) -> (r: usize)
        requires
            old(self).wf(),
            old(self).running,
            old(self).next_pid < isize::MAX as usize,
        ensures
            final(self).wf(),
            final(self).running,
            final(self).current_task == old(self).current_task,
            r == old(self).next_pid,
            final(self).next_pid == old(self).next_pid + 1,
            final(self).tasks@.len() == old(self).tasks@.len() + 1,
            final(self).live(old(self).tasks@.len() as int),
            final(self).tcb(old(self).tasks@.len() as int).pid == r,
            final(self).tcb(old(self).tasks@.len() as int).task_status == TaskStatus::Ready,
            final(self).tcb(old(self).tasks@.len() as int).parent == Some(
                old(self).tcb(old(self).current_task as int).pid,
            ),
            final(self).tcb(old(self).tasks@.len() as int).trap_cx.ret == 0,
            final(self).tcb(old(self).tasks@.len() as int).trap_cx.pc == old(self).tcb(
                old(self).current_task as int,
            ).trap_cx.pc,
            final(self).tcb(old(self).tasks@.len() as int).memory_set.regions@ == old(self).tcb(
                old(self).current_task as int,
            ).memory_set.regions@,
            final(self).tcb(old(self).tasks@.len() as int).memory_set.program_brk == old(self).tcb(old(self).current_task as int).memory_set.program_brk,
            final(self).tcb(old(self).tasks@.len() as int).children@.len() == 0,
            final(self).tcb(old(self).tasks@.len() as int).counts_all_zero(),
            final(self).tcb(old(self).current_task as int) == (TaskControlBlock {
                children: final(self).tcb(old(self).current_task as int).children,
                ..old(self).tcb(old(self).current_task as int)
            }),
            final(self).tcb(old(self).current_task as int).children@ == old(self).tcb(
                old(self).current_task as int,
            ).children@.push(r),
            forall|k: int|
                0 <= k < old(self).tcb(old(self).current_task as int).children@.len()
                    ==> #[trigger] old(self).tcb(old(self).current_task as int).children@[k]
                    != r,
            forall|i: int|
                0 <= i < old(self).tasks@.len() && i != old(self).current_task
                    ==> (old(self).live(i) <==> final(self).live(i)) && (old(self).live(i)
                    ==> #[trigger] final(self).tcb(i) == old(self).tcb(i)),
    {
        let cur = self.current_task;
        let new_pid = self.next_pid;
        let mut parent_t = self.take_tcb(cur);
        let parent_pid = parent_t.pid;
        let child = parent_t.duplicate_for_fork(new_pid, parent_pid);
        parent_t.children.push(new_pid);
        self.put_tcb(cur, parent_t);
        self.tasks.push(Some(child));
        self.next_pid = new_pid + 1;
        proof {
            let pre = *old(self);
            let post = *self;
            let n = pre.tasks@.len() as int;
            let curi = pre.current_task as int;
            assert(post.tasks@ =~= pre.tasks@.update(curi, post.tasks@[curi]).push(
                post.tasks@[n],
            ));
            assert forall|i: int| 0 <= i < n
                implies (pre.live(i) <==> #[trigger] post.live(i)) by {
                if i != curi {
                    assert(post.tasks@[i] == pre.tasks@[i]);
                }
            }
            assert forall|i: int| pre.live(i) && i != curi
                implies #[trigger] post.tcb(i) == pre.tcb(i) by {
                assert(post.tasks@[i] == pre.tasks@[i]);
            }
            Self::lemma_child_registered(pre, post);
        }
        new_pid
    }

    /// Replaces the current task's address space and trap frame from a
    /// freshly loaded image — same pid, same family, same priority and
    /// accounting — discarding the old address space.
    pub fn exec_current(&mut self, img: AppImage)
        requires
            old(self).wf(),
            old(self).running,
            img.wf(),
        ensures
            final(self).wf(),
            final(self).running,
            Self::only_current_changed(*old(self), *final(self)),
            final(self).tcb(old(self).current_task as int) == (TaskControlBlock {
                memory_set: final(self).tcb(old(self).current_task as int).memory_set,
                trap_cx: (crate::task::TrapContext { pc: img.entry, ret: 0 }),
                ..old(self).tcb(old(self).current_task as int)
            }),
            final(self).tcb(old(self).current_task as int).memory_set.regions@.len() == 0,
            final(self).tcb(old(self).current_task as int).memory_set.heap_bottom
                == img.heap_base,
            final(self).tcb(old(self).current_task as int).memory_set.program_brk
                == img.heap_base,
    {
        let cur = self.current_task;
        let mut t = self.take_tcb(cur);
        t.replace_image(img);
        self.put_tcb(cur, t);
        proof {
            assert(self.tasks@ =~= old(self).tasks@.update(cur as int, self.tasks@[cur as int]));
            Self::lemma_edit_current(*old(self), *self);
        }
    }

    /// Creates a brand-new child task from a loaded image: a fresh
    /// address space with nothing inherited from the caller, registered
    /// as the caller's youngest child.  Returns the new pid.
    pub fn spawn_current(&mut self, img: AppImage, now_ms: usize) -> (r: usize)
        requires
            old(self).wf(),
            old(self).running,
            old(self).next_pid < isize::MAX as usize,
            img.wf(),
        ensures
            final(self).wf(),
            final(self).running,
            final(self).current_task == old(self).current_task,
            r == old(self).next_pid,
            final(self).next_pid == old(self).next_pid + 1,
            final(self).tasks@.len() == old(self).tasks@.len() + 1,
            final(self).live(old(self).tasks@.len() as int),
            final(self).tcb(old(self).tasks@.len() as int).pid == r,
            final(self).tcb(old(self).tasks@.len() as int).task_status == TaskStatus::Ready,
            final(self).tcb(old(self).tasks@.len() as int).parent == Some(
                old(self).tcb(old(self).current_task as int).pid,
            ),
            final(self).tcb(old(self).tasks@.len() as int).trap_cx == (crate::task::TrapContext {
                pc: img.entry,
                ret: 0,
            }),
            final(self).tcb(old(self).tasks@.len() as int).memory_set.regions@.len() == 0,
            final(self).tcb(old(self).tasks@.len() as int).memory_set.heap_bottom
                == img.heap_base,
            final(self).tcb(old(self).tasks@.len() as int).counts_all_zero(),
            final(self).tcb(old(self).tasks@.len() as int).start_time == now_ms,
            final(self).tcb(old(self).current_task as int) == (TaskControlBlock {
                children: final(self).tcb(old(self).current_task as int).children,
                ..old(self).tcb(old(self).current_task as int)
            }),
            final(self).tcb(old(self).current_task as int).children@ == old(self).tcb(
                old(self).current_task as int,
            ).children@.push(r),
            forall|i: int|
                0 <= i < old(self).tasks@.len() && i != old(self).current_task
                    ==> (old(self).live(i) <==> final(self).live(i)) && (old(self).live(i)
                    ==> #[trigger] final(self).tcb(i) == old(self).tcb(i)),
    {
        let cur = self.current_task;
        let new_pid = self.next_pid;
        let mut parent_t = self.take_tcb(cur);
        let parent_pid = parent_t.pid;
        let mut child = TaskControlBlock::new(img, new_pid, now_ms);
        child.parent = Some(parent_pid);
        parent_t.children.push(new_pid);
        self.put_tcb(cur, parent_t);
        self.tasks.push(Some(child));
        self.next_pid = new_pid + 1;
        proof {
            let pre = *old(self);
            let post = *self;
            let n = pre.tasks@.len() as int;
            let curi = pre.current_task as int;
            assert(post.tasks@ =~= pre.tasks@.update(curi, post.tasks@[curi]).push(
                post.tasks@[n],
            ));
            assert forall|i: int| 0 <= i < n
                implies (pre.live(i) <==> #[trigger] post.live(i)) by {
                if i != curi {
                    assert(post.tasks@[i] == pre.tasks@[i]);
                }
            }
            assert forall|i: int| pre.live(i) && i != curi
                implies #[trigger] post.tcb(i) == pre.tcb(i) by {
                assert(post.tasks@[i] == pre.tasks@[i]);
            }
            Self::lemma_child_registered(pre, post);
        }
        new_pid
    }

    /// A waitpid selector names a child pid: −1 selects any child, a
    /// non-negative selector exactly that pid.
    pub open spec fn pid_selected(sel: int, c: usize) -> bool {
        sel == -1 || c == sel
    }

    /// The current task's children, in creation order.
    pub open spec fn cur_children(self) -> Seq<usize> {
        self.tcb(self.current_task as int).children@
    }

    /// The named pid belongs to a live task that has exited.
    pub open spec fn zombie_pid(self, c: usize) -> bool {
        exists|j: int|
            #![trigger self.tcb(j)]
            self.live(j) && self.tcb(j).pid == c && self.tcb(j).task_status == TaskStatus::Zombie
    }

    /// The exit code the named zombie carries.
    pub open spec fn exit_code_of(self, c: usize) -> i32 {
        let j = choose|j: int|
            #![trigger self.tcb(j)]
            self.live(j) && self.tcb(j).pid == c && self.tcb(j).task_status
                == TaskStatus::Zombie;
        self.tcb(j).exit_code
    }

    /// Some child of the current task is selected.
    pub open spec fn has_selected_child(self, sel: int) -> bool {
        exists|k: int|
            0 <= k < self.cur_children().len() && Self::pid_selected(
                sel,
                #[trigger] self.cur_children()[k],
            )
    }

    /// Some selected child has already exited.
    pub open spec fn has_selected_zombie(self, sel: int) -> bool {
        exists|k: int|
            0 <= k < self.cur_children().len() && Self::pid_selected(
                sel,
                #[trigger] self.cur_children()[k],
            ) && self.zombie_pid(self.cur_children()[k])
    }

    /// Finds the slot holding the live task with the given pid.
    fn find_index_by_pid(&self, c: usize) -> (r: Option<usize>)
        ensures
            r is Some ==> self.live(r.unwrap() as int) && self.tcb(r.unwrap() as int).pid == c,
            r is None ==> forall|j: int| self.live(j) ==> (#[trigger] self.tcb(j)).pid != c,
    {
        let n = self.tasks.len();
        let mut j: usize = 0;
        while j < n
            invariant
                n == self.tasks@.len(),
                j <= n,
                forall|x: int| 0 <= x < j ==> self.live(x) ==> (#[trigger] self.tcb(x)).pid != c,
            decreases n - j,
        {
            let hit = match &self.tasks[j] {
                Some(t) => t.pid == c,
                None => false,
            };
            if hit {
                return Some(j);
            }
            j += 1;
        }
        None
    }

    /// The non-blocking poll for an exited child.  Returns −1 when no
    /// child is selected, −2 when a selected child exists but none has
    /// exited yet, and otherwise reaps the first selected zombie in the
    /// children list's order: the child leaves the list, its slot — the
    /// last reference to it — is emptied, and its pid and exit code are
    /// returned.
    pub fn wait_current(&mut self, sel: isize) -> (r: (isize, i32))
        requires
            old(self).wf(),
            old(self).running,
        ensures
            final(self).wf(),
            final(self).running,
            final(self).current_task == old(self).current_task,
            final(self).next_pid == old(self).next_pid,
            final(self).tasks@.len() == old(self).tasks@.len(),
            !old(self).has_selected_child(sel as int) ==> r.0 == -1 && *final(self) == *old(self),
            old(self).has_selected_child(sel as int) && !old(self).has_selected_zombie(
                sel as int,
            ) ==> r.0 == -2 && *final(self) == *old(self),
            old(self).has_selected_zombie(sel as int) ==> (exists|k: int|
                #![trigger old(self).cur_children()[k]]
                0 <= k < old(self).cur_children().len() && Self::pid_selected(
                    sel as int,
                    old(self).cur_children()[k],
                ) && old(self).zombie_pid(old(self).cur_children()[k]) && (forall|k2: int|
                    0 <= k2 < k ==> !(Self::pid_selected(
                        sel as int,
                        #[trigger] old(self).cur_children()[k2],
                    ) && old(self).zombie_pid(old(self).cur_children()[k2])))
                    && r.0 == old(self).cur_children()[k] as isize && r.1 == old(self).exit_code_of(old(self).cur_children()[k]) && final(self).cur_children() == old(self).cur_children().remove(k) && (forall|j: int|
                    final(self).live(j) ==> (#[trigger] final(self).tcb(j)).pid != old(self).cur_children()[k]) && final(self).tcb(old(self).current_task as int) == (
                TaskControlBlock {
                    children: final(self).tcb(old(self).current_task as int).children,
                    ..old(self).tcb(old(self).current_task as int)
                }) && (forall|i: int|
                    0 <= i < old(self).tasks@.len() && i != old(self).current_task && old(self).live(i) && old(self).tcb(i).pid != old(self).cur_children()[k]
                        ==> final(self).live(i) && #[trigger] final(self).tcb(i) == old(self).tcb(i))),
    {
        let cur = self.current_task;
        let children = match &self.tasks[cur] {
            Some(t) => {
                let m = t.children.len();
                let mut v: Vec<usize> = Vec::new();
                let mut x: usize = 0;
                while x < m
                    invariant
                        m == t.children@.len(),
                        x <= m,
                        v@ == t.children@.subrange(0, x as int),
                    decreases m - x,
                {
                    v.push(t.children[x]);
                    proof {
                        assert(v@ =~= t.children@.subrange(0, x + 1int));
                    }
                    x += 1;
                }
                proof {
                    assert(v@ =~= t.children@);
                }
                v
            },
            None => vstd::pervasive::unreached(),
        };
        let mut k: usize = 0;
        let mut saw_match = false;
        while k < children.len()
            invariant
                old(self).wf(),
                old(self).running,
                *self == *old(self),
                cur == old(self).current_task,
                children@ == old(self).cur_children(),
                k <= children@.len(),
                forall|k2: int|
                    0 <= k2 < k ==> !(Self::pid_selected(
                        sel as int,
                        #[trigger] old(self).cur_children()[k2],
                    ) && old(self).zombie_pid(old(self).cur_children()[k2])),
                saw_match <==> (exists|k2: int|
                    0 <= k2 < k && Self::pid_selected(
                        sel as int,
                        #[trigger] old(self).cur_children()[k2],
                    )),
            decreases children@.len() - k,
        {
            let c = children[k];
            let selected = sel == -1 || (sel >= 0 && c == sel as usize);
            if selected {
                saw_match = true;
                match self.find_index_by_pid(c) {
                    Some(j) => {
                        let zombie = match &self.tasks[j] {
                            Some(t) => t.task_status == TaskStatus::Zombie,
                            None => vstd::pervasive::unreached(),
                        };
                        if zombie {
                            let code = match &self.tasks[j] {
                                Some(t) => t.exit_code,
                                None => vstd::pervasive::unreached(),
                            };
                            proof {
                                assert(self.zombie_pid(c));
                                assert(old(self).zombie_pid(c));
                            }
                            let mut t = self.take_tcb(cur);
                            t.children.remove(k);
                            self.put_tcb(cur, t);
                            self.tasks.set(j, None);
                            proof {
                                assert(self.tasks@ =~= old(self).tasks@.update(
                                    cur as int,
                                    Some(
                                        TaskControlBlock {
                                            children: self.tcb(cur as int).children,
                                            ..old(self).tcb(cur as int)
                                        },
                                    ),
                                ).update(j as int, None::<TaskControlBlock>));
                                self.lemma_reap_ok(*old(self), sel as int, k as int, j as int);
                            }
                            return ((c as isize), code);
                        }
                    },
                    None => {
                        proof {
                            assert(old(self).child_backed(cur as int, k as int));
                            let w = choose|w: int|
                                #![trigger old(self).tcb(w)]
                                old(self).live(w) && old(self).tcb(w).pid == old(self).tcb(
                                    cur as int,
                                ).children@[k as int] && old(self).tcb(w).parent == Some(
                                    old(self).tcb(cur as int).pid,
                                );
                            assert(self.tcb(w).pid != c);
                            assert(false);
                        }
                    },
                }
            }
            k += 1;
        }
        if saw_match {
            (-2, 0)
        } else {
            proof {
                assert(!old(self).has_selected_child(sel as int));
            }
            (-1, 0)
        }
    }

    /// Reaping the `k`-th child of the current task — a zombie in slot
    /// `j` — leaves the manager well formed: removing the list entry
    /// removes the only reference to the slot.
    proof fn lemma_reap_ok(&self, pre: TaskManager, sel: int, k: int, j: int)
        requires
            pre.wf(),
            pre.running,
            0 <= k < pre.cur_children().len(),
            pre.live(j),
            pre.tcb(j).pid == pre.cur_children()[k],
            pre.tcb(j).task_status == TaskStatus::Zombie,
            self.tasks@ == pre.tasks@.update(
                pre.current_task as int,
                Some(
                    TaskControlBlock {
                        children: self.tcb(pre.current_task as int).children,
                        ..pre.tcb(pre.current_task as int)
                    },
                ),
            ).update(j, None::<TaskControlBlock>),
            self.tcb(pre.current_task as int).children@ == pre.cur_children().remove(k),
            self.current_task == pre.current_task,
            self.next_pid == pre.next_pid,
            self.running == pre.running,
        ensures
            self.wf(),
            forall|i: int|
                self.live(i) ==> (#[trigger] self.tcb(i)).pid != pre.cur_children()[k],
            forall|i: int|
                0 <= i < pre.tasks@.len() && i != pre.current_task && pre.live(i) && pre.tcb(
                    i,
                ).pid != pre.cur_children()[k] ==> self.live(i) && #[trigger] self.tcb(i)
                    == pre.tcb(i),
    {
        let curi = pre.current_task as int;
        let c = pre.cur_children()[k];
        // The zombie is not the running current task, so the two updated
        // slots differ.
        assert(pre.tcb(curi).task_status == TaskStatus::Running);
        assert(j != curi);
        // Any slot with pid `c` is slot `j`.
        assert forall|i: int| pre.live(i) && pre.tcb(i).pid == c implies i == j by {
            if i != j {
                assert(pre.tcb(i).pid != pre.tcb(j).pid);
            }
        }
        assert forall|i: int|
            self.live(i) implies (#[trigger] self.tcb(i)).pid != c by {
            if i != curi {
                assert(self.tcb(i) == pre.tcb(i));
            } else {
                assert(self.tcb(i).pid == pre.tcb(i).pid);
            }
        }
        // No other children list names `c`: the back-reference of `c`'s
        // task is the current task, and pids are unique.
        assert forall|i: int, x: int|
            #![trigger pre.tcb(i).children@[x]]
            pre.live(i) && 0 <= x < pre.tcb(i).children@.len() && pre.tcb(i).children@[x] == c
            implies i == curi && x == k by {
            assert(pre.child_backed(i, x));
            let w = choose|w: int|
                #![trigger pre.tcb(w)]
                pre.live(w) && pre.tcb(w).pid == pre.tcb(i).children@[x] && pre.tcb(w).parent
                    == Some(pre.tcb(i).pid);
            assert(w == j);
            assert(pre.child_backed(curi, k));
            let w2 = choose|w2: int|
                #![trigger pre.tcb(w2)]
                pre.live(w2) && pre.tcb(w2).pid == pre.cur_children()[k] && pre.tcb(w2).parent
                    == Some(pre.tcb(curi).pid);
            assert(w2 == j);
            assert(pre.tcb(j).parent == Some(pre.tcb(i).pid));
            assert(pre.tcb(j).parent == Some(pre.tcb(curi).pid));
            if i != curi {
                assert(pre.tcb(i).pid != pre.tcb(curi).pid);
                assert(false);
            }
            if x != k {
                assert(pre.tcb(curi).children@[x] != pre.tcb(curi).children@[k]);
                assert(false);
            }
        }
        assert forall|i: int, x: int|
            #![trigger self.tcb(i).children@[x]]
            self.live(i) && 0 <= x < self.tcb(i).children@.len()
            implies self.child_backed(i, x) by {
            let e = self.tcb(i).children@[x];
            if i == curi {
                let ox: int = if x < k {
                    x
                } else {
                    x + 1
                };
                assert(e == pre.tcb(curi).children@[ox]);
                assert(pre.child_backed(curi, ox));
                let w = choose|w: int|
                    #![trigger pre.tcb(w)]
                    pre.live(w) && pre.tcb(w).pid == pre.tcb(curi).children@[ox] && pre.tcb(
                        w,
                    ).parent == Some(pre.tcb(curi).pid);
                assert(e != c);
                assert(w != j);
                assert(self.live(w));
                assert(self.tcb(w).pid == e && self.tcb(w).parent == Some(self.tcb(i).pid));
            } else {
                assert(pre.live(i) && pre.tcb(i).children@[x] == e);
                assert(pre.child_backed(i, x));
                let w = choose|w: int|
                    #![trigger pre.tcb(w)]
                    pre.live(w) && pre.tcb(w).pid == pre.tcb(i).children@[x] && pre.tcb(
                        w,
                    ).parent == Some(pre.tcb(i).pid);
                assert(e != c);
                assert(w != j);
                assert(self.live(w));
                assert(self.tcb(w).pid == e && self.tcb(w).parent == Some(self.tcb(i).pid));
            }
        }
        assert forall|i: int, k1: int, k2: int|
            #![trigger self.tcb(i).children@[k1], self.tcb(i).children@[k2]]
            self.live(i) && 0 <= k1 < self.tcb(i).children@.len() && 0 <= k2 < self.tcb(
                i,
            ).children@.len() && k1 != k2
            implies self.tcb(i).children@[k1] != self.tcb(i).children@[k2] by {
            if i == curi {
                let o1: int = if k1 < k {
                    k1
                } else {
                    k1 + 1
                };
                let o2: int = if k2 < k {
                    k2
                } else {
                    k2 + 1
                };
                assert(self.tcb(i).children@[k1] == pre.tcb(curi).children@[o1]);
                assert(self.tcb(i).children@[k2] == pre.tcb(curi).children@[o2]);
                assert(pre.tcb(curi).children@[o1] != pre.tcb(curi).children@[o2]);
            } else {
                assert(self.tcb(i).children@[k1] == pre.tcb(i).children@[k1]);
                assert(self.tcb(i).children@[k2] == pre.tcb(i).children@[k2]);
            }
        }
        assert forall|i: int| self.live(i) && i != self.current_task
            implies (#[trigger] self.tcb(i)).task_status != TaskStatus::Running by {
            assert(self.tcb(i).task_status == pre.tcb(i).task_status);
        }
        assert forall|i: int| self.live(i) implies (#[trigger] self.tcb(i)).wf()
            && self.tcb(i).pid < self.next_pid by {
            if i == curi {
                assert(pre.tcb(curi).wf());
            } else {
                assert(self.tcb(i) == pre.tcb(i));
            }
        }
        assert forall|i1: int, i2: int| self.live(i1) && self.live(i2) && i1 != i2
            implies (#[trigger] self.tcb(i1)).pid != (#[trigger] self.tcb(i2)).pid by {
            assert(self.tcb(i1).pid == pre.tcb(i1).pid);
            assert(self.tcb(i2).pid == pre.tcb(i2).pid);
        }
    }

    /// Puts an edited task back into slot `i`.
    fn put_tcb(&mut self, i: usize, t: TaskControlBlock)
        requires
            i < old(self).tasks@.len(),
        ensures
            final(self).tasks@ == old(self).tasks@.update(i as int, Some(t)),
            final(self).current_task == old(self).current_task,
            final(self).next_pid == old(self).next_pid,
            final(self).running == old(self).running,
    {
        self.tasks.set(i, Some(t));
    }
}

} // verus!
