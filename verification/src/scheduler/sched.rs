//! The scheduler's decisions: which task runs next, and how task states change.
//!
//! The context switch itself is carried out by the caller: `schedule` answers which task to
//! switch from and to.
use vstd::prelude::*;
use std::collections::VecDeque;

use crate::fd::FileDescriptor;
use crate::io::Error;
use crate::memory::paging::PhysicalAddress;
use crate::elf::loader::{check_elf, elf_areas, elf_loadable, load_elf, load_info, LoadInfo};
use crate::memory::vmspace::{areas_ordered, VmSpace};
use std::sync::Arc;
use crate::scheduler::task::{all_empty, highest_nonempty, PriorityTaskQueue, Task, TaskId, TaskPriority, TaskStatus, NUM_PRIORITIES};

verus! {

/// A context switch that the caller carries out.
#[derive(Debug, Clone, Copy, PartialEq, Eq, Structural)]
pub struct Switch {
    pub from: TaskId,
    pub to: TaskId,
}

/// `x` waits in some queue of `qs`.
pub open spec fn queued(qs: Seq<Seq<TaskId>>, x: TaskId) -> bool {
    exists|p: int, k: int| 0 <= p < qs.len() && 0 <= k < qs[p].len() && #[trigger] qs[p][k] == x
}

/// No task waits twice.
pub open spec fn queues_unique(qs: Seq<Seq<TaskId>>) -> bool {
    forall|p1: int, k1: int, p2: int, k2: int|
        0 <= p1 < qs.len() && 0 <= k1 < qs[p1].len() && 0 <= p2 < qs.len() && 0 <= k2 < qs[p2].len()
            && #[trigger] qs[p1][k1] == #[trigger] qs[p2][k2] ==> p1 == p2 && k1 == k2
}

/// `ts` holds a task with identity `id`.
pub open spec fn has_task<H>(ts: Seq<Task<H>>, id: TaskId) -> bool {
    exists|i: int| 0 <= i < ts.len() && (#[trigger] ts[i]).id == id
}

/// The position of the task `id` in `ts`.
pub open spec fn index_of<H>(ts: Seq<Task<H>>, id: TaskId) -> int {
    choose|i: int| 0 <= i < ts.len() && (#[trigger] ts[i]).id == id
}

/// No two tasks of `ts` share an identity.
pub open spec fn ids_unique<H>(ts: Seq<Task<H>>) -> bool {
    forall|i: int, j: int| 0 <= i < j < ts.len() ==> (#[trigger] ts[i]).id != (#[trigger] ts[j]).id
}

proof fn lemma_index_of<H>(ts: Seq<Task<H>>, i: int)
    requires
        ids_unique(ts),
        0 <= i < ts.len(),
    ensures
        has_task(ts, ts[i].id),
        index_of(ts, ts[i].id) == i,
{
    let k = index_of(ts, ts[i].id);
    if k != i {
        if k < i {
            assert(ts[k].id != ts[i].id);
        } else {
            assert(ts[i].id != ts[k].id);
        }
    }
}

proof fn lemma_push_queue(qs: Seq<Seq<TaskId>>, p: int, x: TaskId)
    requires
        0 <= p < qs.len(),
        queues_unique(qs),
        !queued(qs, x),
    ensures
        queues_unique(qs.update(p, qs[p].push(x))),
        forall|y: TaskId| #[trigger] queued(qs.update(p, qs[p].push(x)), y) <==> (queued(qs, y) || y == x),
{
    let nq = qs.update(p, qs[p].push(x));
    assert forall|p1: int, k1: int, p2: int, k2: int|
        0 <= p1 < nq.len() && 0 <= k1 < nq[p1].len() && 0 <= p2 < nq.len() && 0 <= k2 < nq[p2].len()
            && #[trigger] nq[p1][k1] == #[trigger] nq[p2][k2] implies p1 == p2 && k1 == k2 by {
        let new1 = p1 == p && k1 == qs[p].len();
        let new2 = p2 == p && k2 == qs[p].len();
        if new1 && !new2 {
            assert(qs[p2][k2] == x);
        } else if new2 && !new1 {
            assert(qs[p1][k1] == x);
        } else if !new1 && !new2 {
            assert(qs[p1][k1] == qs[p2][k2]);
        }
    }
    assert forall|y: TaskId| #[trigger] queued(nq, y) <==> (queued(qs, y) || y == x) by {
        if queued(nq, y) {
            let (pp, kk) = choose|pp: int, kk: int| 0 <= pp < nq.len() && 0 <= kk < nq[pp].len() && #[trigger] nq[pp][kk] == y;
            if !(pp == p && kk == qs[p].len()) {
                assert(qs[pp][kk] == y);
            }
        }
        if queued(qs, y) {
            let (pp, kk) = choose|pp: int, kk: int| 0 <= pp < qs.len() && 0 <= kk < qs[pp].len() && #[trigger] qs[pp][kk] == y;
            assert(nq[pp][kk] == y);
        }
        if y == x {
            assert(nq[p][qs[p].len() as int] == x);
        }
    }
}

proof fn lemma_pop_queue(qs: Seq<Seq<TaskId>>, p: int)
    requires
        0 <= p < qs.len(),
        qs[p].len() > 0,
        queues_unique(qs),
    ensures
        queues_unique(qs.update(p, qs[p].drop_first())),
        forall|y: TaskId| #[trigger] queued(qs.update(p, qs[p].drop_first()), y) <==> (queued(qs, y) && y != qs[p][0]),
{
    let nq = qs.update(p, qs[p].drop_first());
    let x = qs[p][0];
    assert forall|p1: int, k1: int, p2: int, k2: int|
        0 <= p1 < nq.len() && 0 <= k1 < nq[p1].len() && 0 <= p2 < nq.len() && 0 <= k2 < nq[p2].len()
            && #[trigger] nq[p1][k1] == #[trigger] nq[p2][k2] implies p1 == p2 && k1 == k2 by {
        let kk1 = if p1 == p { k1 + 1 } else { k1 };
        let kk2 = if p2 == p { k2 + 1 } else { k2 };
        assert(nq[p1][k1] == qs[p1][kk1]);
        assert(nq[p2][k2] == qs[p2][kk2]);
    }
    assert forall|y: TaskId| #[trigger] queued(nq, y) <==> (queued(qs, y) && y != x) by {
        if queued(nq, y) {
            let (pp, kk) = choose|pp: int, kk: int| 0 <= pp < nq.len() && 0 <= kk < nq[pp].len() && #[trigger] nq[pp][kk] == y;
            let k2 = if pp == p { kk + 1 } else { kk };
            assert(qs[pp][k2] == y);
            if y == x {
                assert(qs[p][0] == qs[pp][k2]);
            }
        }
        if queued(qs, y) && y != x {
            let (pp, kk) = choose|pp: int, kk: int| 0 <= pp < qs.len() && 0 <= kk < qs[pp].len() && #[trigger] qs[pp][kk] == y;
            if pp == p {
                assert(kk != 0);
                assert(nq[pp][kk - 1] == y);
            } else {
                assert(nq[pp][kk] == y);
            }
        }
    }
}

/// The queue from which the next task is taken: the highest-priority non-empty one, provided
/// that the current task is not running or that queue's priority is at least `priority`.
pub open spec fn next_queue(qs: Seq<Seq<TaskId>>, running: bool, priority: int) -> Option<int> {
    if exists|p: int| highest_nonempty(qs, p) {
        let p = choose|p: int| highest_nonempty(qs, p);
        if !running || p >= priority {
            Some(p)
        } else {
            None
        }
    } else {
        None
    }
}

proof fn lemma_remove_task<H>(ts: Seq<Task<H>>, i: int)
    requires
        ids_unique(ts),
        0 <= i < ts.len(),
    ensures
        ids_unique(ts.remove(i)),
        !has_task(ts.remove(i), ts[i].id),
        forall|id: TaskId| id != ts[i].id ==> (#[trigger] has_task(ts.remove(i), id) <==> has_task(ts, id)),
        forall|id: TaskId| id != ts[i].id && has_task(ts, id) ==> #[trigger] ts.remove(i)[index_of(ts.remove(i), id)] == ts[index_of(ts, id)],
{
    let t = ts.remove(i);
    assert forall|p: int, q: int| 0 <= p < q < t.len() implies (#[trigger] t[p]).id != (#[trigger] t[q]).id by {
        let pp = if p < i { p } else { p + 1 };
        let qq = if q < i { q } else { q + 1 };
        assert(t[p] == ts[pp] && t[q] == ts[qq]);
    }
    if has_task(t, ts[i].id) {
        let k = choose|k: int| 0 <= k < t.len() && (#[trigger] t[k]).id == ts[i].id;
        let kk = if k < i { k } else { k + 1 };
        assert(t[k] == ts[kk]);
        if kk < i {
            assert(ts[kk].id != ts[i].id);
        } else {
            assert(ts[i].id != ts[kk].id);
        }
    }
    assert forall|id: TaskId| id != ts[i].id implies (#[trigger] has_task(t, id) <==> has_task(ts, id)) by {
        if has_task(t, id) {
            let k = choose|k: int| 0 <= k < t.len() && (#[trigger] t[k]).id == id;
            let kk = if k < i { k } else { k + 1 };
            assert(ts[kk] == t[k]);
        }
        if has_task(ts, id) {
            let k = choose|k: int| 0 <= k < ts.len() && (#[trigger] ts[k]).id == id;
            assert(k != i);
            if k < i {
                assert(t[k] == ts[k]);
            } else {
                assert(t[k - 1] == ts[k]);
            }
        }
    }
    assert forall|id: TaskId| id != ts[i].id && has_task(ts, id) implies #[trigger] t[index_of(t, id)] == ts[index_of(ts, id)] by {
        let k = index_of(ts, id);
        lemma_index_of(ts, k);
        let kt = if k < i { k } else { k - 1 };
        assert(t[kt] == ts[k]);
        lemma_index_of(t, kt);
    }
}

proof fn lemma_update_task<H>(ts: Seq<Task<H>>, i: int, task: Task<H>)
    requires
        ids_unique(ts),
        0 <= i < ts.len(),
        task.id == ts[i].id,
    ensures
        ids_unique(ts.update(i, task)),
        forall|id: TaskId| #[trigger] has_task(ts.update(i, task), id) <==> has_task(ts, id),
        index_of(ts.update(i, task), ts[i].id) == i,
        index_of(ts, ts[i].id) == i,
        forall|id: TaskId| id != ts[i].id && has_task(ts, id) ==> #[trigger] ts.update(i, task)[index_of(ts.update(i, task), id)] == ts[index_of(ts, id)],
{
    let t = ts.update(i, task);
    assert forall|p: int, q: int| 0 <= p < q < t.len() implies (#[trigger] t[p]).id != (#[trigger] t[q]).id by {
        assert(ts[p].id != ts[q].id);
    }
    assert forall|id: TaskId| #[trigger] has_task(t, id) <==> has_task(ts, id) by {
        if has_task(t, id) {
            let k = choose|k: int| 0 <= k < t.len() && (#[trigger] t[k]).id == id;
            assert(ts[k].id == id);
        }
        if has_task(ts, id) {
            let k = choose|k: int| 0 <= k < ts.len() && (#[trigger] ts[k]).id == id;
            assert(t[k].id == id);
        }
    }
    lemma_index_of(t, i);
    lemma_index_of(ts, i);
    assert forall|id: TaskId| id != ts[i].id && has_task(ts, id) implies #[trigger] t[index_of(t, id)] == ts[index_of(ts, id)] by {
        let k = index_of(ts, id);
        lemma_index_of(ts, k);
        lemma_index_of(t, k);
    }
}

/// All tasks, the running one, the idle task, the ready queue, the tasks that finished
/// since the last scheduling decision, and the next task number to hand out.
pub struct Scheduler<H> {
    current: TaskId,
    idle: TaskId,
    tasks: Vec<Task<H>>,
    ready_queue: PriorityTaskQueue,
    finished_tasks: VecDeque<TaskId>,
    next_task_id: u64,
}

impl<H> Scheduler<H> {
    /// The task that runs.
    pub closed spec fn current_id(&self) -> TaskId {
        self.current
    }

    /// The idle task.
    pub closed spec fn idle_id(&self) -> TaskId {
        self.idle
    }

    /// Every known task.
    pub closed spec fn tasks(&self) -> Seq<Task<H>> {
        self.tasks@
    }

    /// The ready tasks of each priority, front first.
    pub closed spec fn queues(&self) -> Seq<Seq<TaskId>> {
        self.ready_queue.queues()
    }

    /// Tasks that finished and are dropped at the next scheduling decision.
    pub closed spec fn finished(&self) -> Seq<TaskId> {
        self.finished_tasks@
    }

    /// The number that the next spawned task gets.
    pub closed spec fn next_id(&self) -> u64 {
        self.next_task_id
    }

    /// The task `id`.
    pub open spec fn task(&self, id: TaskId) -> Task<H> {
        self.tasks()[index_of(self.tasks(), id)]
    }

    /// The state invariant: identities are unique and below the next number; the running
    /// task and the idle task are known; the ready queue holds each ready task once, and only
    /// known tasks with status `Ready`; finished tasks are neither running, idle nor waiting;
    /// every priority is below `NUM_PRIORITIES`.
    pub closed spec fn wf(&self) -> bool {
        &&& self.core_wf()
        &&& forall|k: int| 0 <= k < self.finished_tasks@.len() ==> {
            &&& (#[trigger] self.finished_tasks@[k]) != self.current
            &&& self.finished_tasks@[k] != self.idle
            &&& self.finished_tasks@[k].0 < self.next_task_id
            &&& !queued(self.queues(), self.finished_tasks@[k])
            &&& has_task(self.tasks@, self.finished_tasks@[k])
            &&& self.tasks@[index_of(self.tasks@, self.finished_tasks@[k])].status == TaskStatus::Finished
        }
    }

    /// The invariant without the clause on finished tasks.
    closed spec fn core_wf(&self) -> bool {
        &&& ids_unique(self.tasks@)
        &&& forall|i: int| 0 <= i < self.tasks@.len() ==> (#[trigger] self.tasks@[i]).id.0 < self.next_task_id
        &&& forall|i: int| 0 <= i < self.tasks@.len() ==> (#[trigger] self.tasks@[i]).priority.0 < NUM_PRIORITIES
        &&& has_task(self.tasks@, self.current)
        &&& has_task(self.tasks@, self.idle)
        &&& self.tasks@[index_of(self.tasks@, self.idle)].status != TaskStatus::Finished
        &&& self.ready_queue.wf()
        &&& self.queues().len() == NUM_PRIORITIES
        &&& queues_unique(self.queues())
        &&& forall|x: TaskId| #[trigger] queued(self.queues(), x) ==> has_task(self.tasks@, x)
            && self.tasks@[index_of(self.tasks@, x)].status == TaskStatus::Ready
    }

    /// The position of task `id`.
    fn find_task(&self, id: TaskId) -> (r: Option<usize>)
        requires
            ids_unique(self.tasks@),
        ensures
            match r {
                Some(i) => i < self.tasks@.len() && self.tasks@[i as int].id == id && index_of(self.tasks@, id) == i,
                None => !has_task(self.tasks@, id),
            },
    {
        let mut i: usize = 0;
        while i < self.tasks.len()
            invariant
                i <= self.tasks@.len(),
                ids_unique(self.tasks@),
                forall|j: int| 0 <= j < i ==> (#[trigger] self.tasks@[j]).id != id,
            decreases self.tasks.len() - i,
        {
            if self.tasks[i].id == id {
                proof {
                    lemma_index_of(self.tasks@, i as int);
                }
                return Some(i);
            }
            i = i + 1;
        }
        None
    }

    /// A scheduler whose only task is the idle task, numbered 0, which runs.
    pub fn new(root_page_table: PhysicalAddress) -> (r: Self)
        ensures
            r.wf(),
            r.current_id() == TaskId(0),
            r.idle_id() == TaskId(0),
            r.next_id() == 1,
            r.tasks().len() == 1,
            r.tasks()[0].id == TaskId(0),
            r.tasks()[0].status == TaskStatus::Idle,
            r.tasks()[0].root_page_table == root_page_table,
            all_empty(r.queues()),
            r.finished().len() == 0,
    {
        let task_id = TaskId::new(0);
        let idle_task = Task::new_idle(task_id, root_page_table);
        let mut tasks = Vec::new();
        tasks.push(idle_task);
        let r = Scheduler {
            current: task_id,
            idle: task_id,
            tasks,
            ready_queue: PriorityTaskQueue::new(),
            finished_tasks: VecDeque::new(),
            next_task_id: 1,
        };
        proof {
            assert(r.tasks@[0].id == task_id);
            assert forall|x: TaskId| #[trigger] queued(r.queues(), x) implies false by {
                let (p, k) = choose|p: int, k: int| 0 <= p < r.queues().len() && 0 <= k < r.queues()[p].len() && #[trigger] r.queues()[p][k] == x;
                assert(r.queues()[p].len() == 0);
            }
        }
        r
    }

    /// Changes the status of the task at position `i`.
    fn set_status(&mut self, i: usize, status: TaskStatus)
        requires
            i < old(self).tasks@.len(),
        ensures
            final(self).tasks@ == old(self).tasks@.update(i as int, final(self).tasks@[i as int]),
            final(self).tasks@[i as int].status == status,
            final(self).tasks@[i as int].id == old(self).tasks@[i as int].id,
            final(self).tasks@[i as int].priority == old(self).tasks@[i as int].priority,
            final(self).tasks@[i as int].root_page_table == old(self).tasks@[i as int].root_page_table,
            final(self).tasks@[i as int].last_stack_ptr == old(self).tasks@[i as int].last_stack_ptr,
            final(self).current == old(self).current,
            final(self).idle == old(self).idle,
            final(self).ready_queue == old(self).ready_queue,
            final(self).finished_tasks == old(self).finished_tasks,
            final(self).next_task_id == old(self).next_task_id,
    {
        self.tasks[i].status = status;
        assert(self.tasks@ =~= old(self).tasks@.update(i as int, self.tasks@[i as int]));
    }

    /// Marks the running task blocked and answers its number.
    pub fn block_current_task(&mut self) -> (r: TaskId)
        requires
            old(self).wf(),
            old(self).task(old(self).current_id()).status == TaskStatus::Running,
        ensures
            final(self).wf(),
            r == old(self).current_id(),
            final(self).current_id() == old(self).current_id(),
            final(self).task(r).status == TaskStatus::Blocked,
            forall|id: TaskId| id != r && has_task(old(self).tasks(), id) ==> #[trigger] final(self).task(id) == old(self).task(id),
            forall|id: TaskId| #[trigger] has_task(final(self).tasks(), id) <==> has_task(old(self).tasks(), id),
            final(self).queues() == old(self).queues(),
            final(self).finished() == old(self).finished(),
    {
        let i = self.find_task(self.current).unwrap();
        let ghost ts = self.tasks@;
        self.set_status(i, TaskStatus::Blocked);
        proof {
            lemma_update_task(ts, i as int, self.tasks@[i as int]);
            assert(self.tasks@ == ts.update(i as int, self.tasks@[i as int]));
            assert forall|x: TaskId| #[trigger] queued(self.queues(), x) implies has_task(self.tasks@, x)
                && self.tasks@[index_of(self.tasks@, x)].status == TaskStatus::Ready by {
                assert(x != self.current);
            }
            assert forall|id: TaskId| id != self.current && has_task(ts, id) implies #[trigger] self.task(id) == old(self).task(id) by {
            }
        }
        self.current
    }

    /// Makes task `id` ready and queues it at the back of its priority's queue, when it is
    /// known and blocked; otherwise changes nothing.
    pub fn wakeup_task_by_id(&mut self, id: TaskId)
        requires
            old(self).wf(),
        ensures
            final(self).wf(),
            final(self).current_id() == old(self).current_id(),
            final(self).finished() == old(self).finished(),
            forall|x: TaskId| #[trigger] has_task(final(self).tasks(), x) <==> has_task(old(self).tasks(), x),
            if has_task(old(self).tasks(), id) && old(self).task(id).status == TaskStatus::Blocked {
                &&& final(self).task(id).status == TaskStatus::Ready
                &&& final(self).task(id).priority == old(self).task(id).priority
                &&& final(self).queues() == old(self).queues().update(
                    old(self).task(id).priority.0 as int,
                    old(self).queues()[old(self).task(id).priority.0 as int].push(id),
                )
                &&& forall|x: TaskId| x != id && has_task(old(self).tasks(), x) ==> #[trigger] final(self).task(x) == old(self).task(x)
            } else {
                *final(self) == *old(self)
            },
    {
        if let Some(i) = self.find_task(id) {
            if self.tasks[i].status == TaskStatus::Blocked {
                let priority = self.tasks[i].priority;
                let ghost ts = self.tasks@;
                let ghost qs = self.queues();
                proof {
                    assert(!queued(qs, id));
                    assert(ts[i as int].priority.0 < NUM_PRIORITIES);
                }
                self.set_status(i, TaskStatus::Ready);
                self.ready_queue.push(id, priority);
                proof {
                    lemma_update_task(ts, i as int, self.tasks@[i as int]);
                    lemma_push_queue(qs, priority.0 as int, id);
                    assert forall|x: TaskId| #[trigger] queued(self.queues(), x) implies has_task(self.tasks@, x)
                        && self.tasks@[index_of(self.tasks@, x)].status == TaskStatus::Ready by {
                        if x != id {
                            assert(queued(qs, x));
                        }
                    }
                    assert forall|k: int| 0 <= k < self.finished_tasks@.len() implies !queued(self.queues(), #[trigger] self.finished_tasks@[k]) by {
                        let f = self.finished_tasks@[k];
                        assert(!queued(qs, f));
                        assert(old(self).finished_tasks@[k] == f);
                    }
                }
            }
        }
    }

    /// The same as `wakeup_task_by_id`.
    pub fn wakeup_task(&mut self, id: TaskId)
        requires
            old(self).wf(),
        ensures
            final(self).wf(),
            final(self).current_id() == old(self).current_id(),
            final(self).finished() == old(self).finished(),
            forall|x: TaskId| #[trigger] has_task(final(self).tasks(), x) <==> has_task(old(self).tasks(), x),
            if has_task(old(self).tasks(), id) && old(self).task(id).status == TaskStatus::Blocked {
                &&& final(self).task(id).status == TaskStatus::Ready
                &&& final(self).queues() == old(self).queues().update(
                    old(self).task(id).priority.0 as int,
                    old(self).queues()[old(self).task(id).priority.0 as int].push(id),
                )
                &&& forall|x: TaskId| x != id && has_task(old(self).tasks(), x) ==> #[trigger] final(self).task(x) == old(self).task(x)
            } else {
                *final(self) == *old(self)
            },
    {
        self.wakeup_task_by_id(id)
    }

    /// The root page table of the running task.
    pub fn get_root_page_table(&self) -> (r: PhysicalAddress)
        requires
            self.wf(),
        ensures
            r == self.task(self.current_id()).root_page_table,
    {
        let i = self.find_task(self.current).unwrap();
        self.tasks[i].root_page_table
    }

    /// The areas of the running task.
    pub fn current_vmspace(&self) -> (r: &VmSpace)
        requires
            self.wf(),
        ensures
            *r == self.task(self.current_id()).vmspace,
    {
        let i = self.find_task(self.current).unwrap();
        &self.tasks[i].vmspace
    }

    /// Whether the running task may end: it is not the idle task, and it is neither idle nor
    /// waiting in the ready queue (what `exit` requires).
    pub fn can_exit(&self) -> (r: bool)
        requires
            self.wf(),
        ensures
            r == (self.current_id() != self.idle_id() && self.task(self.current_id()).status != TaskStatus::Idle
                && self.task(self.current_id()).status != TaskStatus::Ready),
    {
        let i = self.find_task(self.current).unwrap();
        self.current != self.idle && self.tasks[i].status != TaskStatus::Idle && self.tasks[i].status != TaskStatus::Ready
    }

    /// Replaces the root page table of the running task.
    pub fn set_root_page_table(&mut self, addr: PhysicalAddress)
        requires
            old(self).wf(),
        ensures
            final(self).wf(),
            final(self).task(final(self).current_id()).root_page_table == addr,
            final(self).current_id() == old(self).current_id(),
            final(self).queues() == old(self).queues(),
            forall|x: TaskId| #[trigger] has_task(final(self).tasks(), x) <==> has_task(old(self).tasks(), x),
            forall|x: TaskId| x != old(self).current_id() && has_task(old(self).tasks(), x) ==> #[trigger] final(self).task(x) == old(self).task(x),
            final(self).task(old(self).current_id()).status == old(self).task(old(self).current_id()).status,
    {
        let i = self.find_task(self.current).unwrap();
        let ghost ts = self.tasks@;
        self.tasks[i].root_page_table = addr;
        proof {
            assert(self.tasks@ =~= ts.update(i as int, self.tasks@[i as int]));
            lemma_update_task(ts, i as int, self.tasks@[i as int]);
            assert forall|x: TaskId| #[trigger] queued(self.queues(), x) implies has_task(self.tasks@, x)
                && self.tasks@[index_of(self.tasks@, x)].status == TaskStatus::Ready by {
                if x != self.current {
                } else {
                    assert(old(self).tasks@[index_of(old(self).tasks@, x)].status == TaskStatus::Ready);
                }
            }
            assert forall|k: int| 0 <= k < self.tasks@.len() implies (#[trigger] self.tasks@[k]).id.0 < self.next_task_id && self.tasks@[k].priority.0 < NUM_PRIORITIES by {
                assert(ts[k].id.0 < self.next_task_id);
                assert(ts[k].priority.0 < NUM_PRIORITIES);
            }
        }
    }

    /// The object open under `fd` in the running task.
    pub fn get_io_interface(&self, fd: FileDescriptor) -> (r: Result<&H, Error>)
        requires
            self.wf(),
            self.task(self.current_id()).fd_map.wf(),
        ensures
            match r {
                Ok(h) => {
                    &&& self.task(self.current_id()).fd_map.view().contains_key(fd as int)
                    &&& *h == self.task(self.current_id()).fd_map.view()[fd as int]
                },
                Err(e) => !self.task(self.current_id()).fd_map.view().contains_key(fd as int) && e == Error::NoSuchFileOrDirectory,
            },
    {
        let i = self.find_task(self.current).unwrap();
        self.tasks[i].fd_map.get(fd)
    }


    /// Opens `interface` in the running task under the lowest free descriptor.
    pub fn add_io_interface(&mut self, interface: H) -> (r: Result<FileDescriptor, Error>)
        requires
            old(self).wf(),
            old(self).task(old(self).current_id()).fd_map.wf(),
        ensures
            final(self).wf(),
            final(self).current_id() == old(self).current_id(),
            final(self).queues() == old(self).queues(),
            final(self).task(final(self).current_id()).fd_map.wf(),
            final(self).task(final(self).current_id()).status == old(self).task(old(self).current_id()).status,
            forall|x: TaskId| #[trigger] has_task(final(self).tasks(), x) <==> has_task(old(self).tasks(), x),
            forall|x: TaskId| x != old(self).current_id() && has_task(old(self).tasks(), x) ==> #[trigger] final(self).task(x) == old(self).task(x),
            ({
                let before = old(self).task(old(self).current_id()).fd_map.view();
                let after = final(self).task(final(self).current_id()).fd_map.view();
                match r {
                    Ok(fd) => {
                        &&& 0 <= fd < i32::MAX
                        &&& !before.contains_key(fd as int)
                        &&& forall|j: int| 0 <= j < fd ==> before.contains_key(j)
                        &&& after == before.insert(fd as int, interface)
                    },
                    Err(e) => e == Error::TooManyOpenFiles && after == before,
                }
            }),
    {
        let i = self.find_task(self.current).unwrap();
        let ghost ts = self.tasks@;
        let r = self.tasks[i].fd_map.add(interface);
        proof {
            assert(self.tasks@ =~= ts.update(i as int, self.tasks@[i as int]));
            lemma_update_task(ts, i as int, self.tasks@[i as int]);
            assert forall|x: TaskId| #[trigger] queued(self.queues(), x) implies has_task(self.tasks@, x)
                && self.tasks@[index_of(self.tasks@, x)].status == TaskStatus::Ready by {
                if x == self.current {
                    assert(old(self).tasks@[index_of(old(self).tasks@, x)].status == TaskStatus::Ready);
                }
            }
            assert forall|k: int| 0 <= k < self.tasks@.len() implies (#[trigger] self.tasks@[k]).id.0 < self.next_task_id && self.tasks@[k].priority.0 < NUM_PRIORITIES by {
                assert(ts[k].id.0 < self.next_task_id);
                assert(ts[k].priority.0 < NUM_PRIORITIES);
            }
        }
        r
    }

    /// Closes `fd` in the running task and hands back its object.
    pub fn remove_io_interface(&mut self, fd: FileDescriptor) -> (r: Result<H, Error>)
        requires
            old(self).wf(),
            old(self).task(old(self).current_id()).fd_map.wf(),
        ensures
            final(self).wf(),
            final(self).current_id() == old(self).current_id(),
            final(self).queues() == old(self).queues(),
            final(self).task(final(self).current_id()).fd_map.wf(),
            final(self).task(final(self).current_id()).status == old(self).task(old(self).current_id()).status,
            forall|x: TaskId| #[trigger] has_task(final(self).tasks(), x) <==> has_task(old(self).tasks(), x),
            forall|x: TaskId| x != old(self).current_id() && has_task(old(self).tasks(), x) ==> #[trigger] final(self).task(x) == old(self).task(x),
            ({
                let before = old(self).task(old(self).current_id()).fd_map.view();
                let after = final(self).task(final(self).current_id()).fd_map.view();
                match r {
                    Ok(h) => before.contains_key(fd as int) && h == before[fd as int] && after == before.remove(fd as int),
                    Err(e) => e == Error::BadFileDescriptor && !before.contains_key(fd as int) && after == before,
                }
            }),
    {
        let i = self.find_task(self.current).unwrap();
        let ghost ts = self.tasks@;
        let r = self.tasks[i].fd_map.remove(fd);
        proof {
            assert(self.tasks@ =~= ts.update(i as int, self.tasks@[i as int]));
            lemma_update_task(ts, i as int, self.tasks@[i as int]);
            assert forall|x: TaskId| #[trigger] queued(self.queues(), x) implies has_task(self.tasks@, x)
                && self.tasks@[index_of(self.tasks@, x)].status == TaskStatus::Ready by {
                if x == self.current {
                    assert(old(self).tasks@[index_of(old(self).tasks@, x)].status == TaskStatus::Ready);
                }
            }
            assert forall|k: int| 0 <= k < self.tasks@.len() implies (#[trigger] self.tasks@[k]).id.0 < self.next_task_id && self.tasks@[k].priority.0 < NUM_PRIORITIES by {
                assert(ts[k].id.0 < self.next_task_id);
                assert(ts[k].priority.0 < NUM_PRIORITIES);
            }
        }
        r
    }


    /// Loads the image `elf_data` into the running task (see `load_elf`) and says where it
    /// was put; `None`, with nothing changed, when it cannot be loaded there (see
    /// `elf_loadable`).
    pub fn load_program(&mut self, elf_data: &Arc<Vec<u8>>) -> (r: Option<LoadInfo>)
        requires
            old(self).wf(),
        ensures
            final(self).wf(),
            final(self).current_id() == old(self).current_id(),
            final(self).queues() == old(self).queues(),
            final(self).finished() == old(self).finished(),
            forall|x: TaskId| #[trigger] has_task(final(self).tasks(), x) <==> has_task(old(self).tasks(), x),
            forall|x: TaskId| x != old(self).current_id() && has_task(old(self).tasks(), x) ==> #[trigger] final(self).task(x) == old(self).task(x),
            ({
                let before = old(self).task(old(self).current_id());
                let after = final(self).task(final(self).current_id());
                if elf_loadable(before.vmspace@, (**elf_data)@, *elf_data) {
                    &&& r == Some(load_info((**elf_data)@))
                    &&& after.vmspace@.to_multiset() == before.vmspace@.to_multiset().add(
                        elf_areas((**elf_data)@, *elf_data).to_multiset(),
                    )
                    &&& areas_ordered(after.vmspace@)
                    &&& after.status == before.status && after.priority == before.priority
                    &&& after.root_page_table == before.root_page_table && after.fd_map == before.fd_map
                    &&& after.last_stack_ptr == before.last_stack_ptr
                } else {
                    r is None && *final(self) == *old(self)
                }
            }),
    {
        let i = self.find_task(self.current).unwrap();
        if !check_elf(&self.tasks[i].vmspace, elf_data) {
            return None;
        }
        let ghost ts = self.tasks@;
        let info = load_elf(&mut self.tasks[i], elf_data);
        proof {
            assert(self.tasks@ =~= ts.update(i as int, self.tasks@[i as int]));
            lemma_update_task(ts, i as int, self.tasks@[i as int]);
            assert forall|x: TaskId| #[trigger] queued(self.queues(), x) implies has_task(self.tasks@, x)
                && self.tasks@[index_of(self.tasks@, x)].status == TaskStatus::Ready by {
                if x == self.current {
                    assert(old(self).tasks@[index_of(old(self).tasks@, x)].status == TaskStatus::Ready);
                }
            }
            assert forall|k: int| 0 <= k < self.tasks@.len() implies (#[trigger] self.tasks@[k]).id.0 < self.next_task_id && self.tasks@[k].priority.0 < NUM_PRIORITIES by {
                assert(ts[k].id.0 < self.next_task_id);
                assert(ts[k].priority.0 < NUM_PRIORITIES);
            }
        }
        Some(info)
    }

    /// Drops every finished task.
    fn drain_finished(&mut self)
        requires
            old(self).wf(),
        ensures
            final(self).wf(),
            final(self).finished_tasks@.len() == 0,
            final(self).current == old(self).current,
            final(self).idle == old(self).idle,
            final(self).ready_queue == old(self).ready_queue,
            final(self).next_task_id == old(self).next_task_id,
            forall|x: TaskId| #[trigger] has_task(final(self).tasks@, x) <==> (has_task(old(self).tasks@, x) && !old(self).finished_tasks@.contains(x)),
            forall|x: TaskId| #[trigger] has_task(final(self).tasks@, x) ==> final(self).task(x) == old(self).task(x),
    {
        let ghost fin = self.finished_tasks@;
        let ghost n = fin.len();
        while self.finished_tasks.len() > 0
            invariant
                self.core_wf(),
                self.current == old(self).current,
                self.idle == old(self).idle,
                self.ready_queue == old(self).ready_queue,
                self.next_task_id == old(self).next_task_id,
                fin == old(self).finished_tasks@,
                self.finished_tasks@.len() <= fin.len(),
                self.finished_tasks@ == fin.subrange(fin.len() - self.finished_tasks@.len(), fin.len() as int),
                forall|k: int| 0 <= k < fin.len() ==> {
                    &&& (#[trigger] fin[k]) != self.current
                    &&& fin[k] != self.idle
                    &&& !queued(self.queues(), fin[k])
                },
                forall|x: TaskId| #[trigger] has_task(self.tasks@, x) <==> (has_task(old(self).tasks@, x)
                    && !fin.subrange(0, fin.len() - self.finished_tasks@.len()).contains(x)),
                forall|x: TaskId| #[trigger] has_task(self.tasks@, x) ==> self.task(x) == old(self).task(x),
            decreases self.finished_tasks@.len(),
        {
            let ghost before = self.tasks@;
            let ghost done = fin.len() - self.finished_tasks@.len();
            let task_id = self.finished_tasks.pop_front().unwrap();
            proof {
                assert(task_id == fin[done]);
                assert(fin.subrange(0, done + 1) =~= fin.subrange(0, done).push(task_id));
                assert(self.finished_tasks@ =~= fin.subrange(done + 1, fin.len() as int));
                assert forall|x: TaskId| #[trigger] fin.subrange(0, done + 1).contains(x) <==> (fin.subrange(0, done).contains(x) || x == task_id) by {
                    let a = fin.subrange(0, done);
                    let b = fin.subrange(0, done + 1);
                    if b.contains(x) {
                        let w = choose|w: int| 0 <= w < b.len() && b[w] == x;
                        if w < done {
                            assert(a[w] == x);
                        }
                    }
                    if a.contains(x) {
                        let w = choose|w: int| 0 <= w < a.len() && a[w] == x;
                        assert(b[w] == x);
                    }
                    if x == task_id {
                        assert(b[done] == x);
                    }
                }
            }
            match self.find_task(task_id) {
                Some(i) => {
                    self.tasks.remove(i);
                    proof {
                        lemma_remove_task(before, i as int);
                        assert forall|x: TaskId| #[trigger] queued(self.queues(), x) implies has_task(self.tasks@, x)
                            && self.tasks@[index_of(self.tasks@, x)].status == TaskStatus::Ready by {
                            assert(x != task_id);
                        }
                        assert forall|k: int| 0 <= k < self.tasks@.len() implies (#[trigger] self.tasks@[k]).id.0 < self.next_task_id && self.tasks@[k].priority.0 < NUM_PRIORITIES by {
                            let kk = if k < i { k } else { k + 1 };
                            assert(self.tasks@[k] == before[kk]);
                        }
                    }
                },
                None => {},
            }
        }
        proof {
            assert(fin.subrange(0, fin.len() as int) =~= fin);
        }
    }


    /// Decides which task runs next. Finished tasks are dropped first. A running task keeps
    /// the processor unless a queue of at least its priority holds a ready task; otherwise the
    /// front task of the highest-priority non-empty queue runs, or the idle task when the
    /// queues are empty and the current task can no longer run. A task that was running goes
    /// back to the end of its queue; a finished one is dropped at the next decision. The
    /// answer is the switch that the caller carries out, if any.
    pub fn schedule(&mut self) -> (r: Option<Switch>)
        requires
            old(self).wf(),
        ensures
            final(self).wf(),
            ({
                let cur = old(self).current_id();
                let ct = old(self).task(cur);
                let running = ct.status == TaskStatus::Running;
                let qs = old(self).queues();
                match next_queue(qs, running, ct.priority.0 as int) {
                    Some(p) => {
                        let to = qs[p][0];
                        let popped = qs.update(p, qs[p].drop_first());
                        &&& r == Some(Switch { from: cur, to })
                        &&& final(self).current_id() == to
                        &&& final(self).task(to).status == TaskStatus::Running
                        &&& running ==> final(self).task(cur).status == TaskStatus::Ready
                        &&& final(self).queues() == (if running {
                            popped.update(ct.priority.0 as int, popped[ct.priority.0 as int].push(cur))
                        } else {
                            popped
                        })
                    },
                    None => if !running && ct.status != TaskStatus::Idle {
                        &&& r == Some(Switch { from: cur, to: old(self).idle_id() })
                        &&& final(self).current_id() == old(self).idle_id()
                        &&& final(self).task(old(self).idle_id()).status == TaskStatus::Running
                        &&& final(self).queues() == qs
                    } else {
                        &&& r is None
                        &&& final(self).current_id() == cur
                        &&& final(self).queues() == qs
                    },
                }
            }),
            final(self).idle_id() == old(self).idle_id(),
            final(self).next_id() == old(self).next_id(),
            final(self).finished() == (if r is Some && old(self).task(old(self).current_id()).status == TaskStatus::Finished {
                seq![old(self).current_id()]
            } else {
                Seq::<TaskId>::empty()
            }),
            forall|x: TaskId| #[trigger] has_task(final(self).tasks(), x) <==> (has_task(old(self).tasks(), x) && !old(self).finished().contains(x)),
            forall|x: TaskId| #[trigger] has_task(final(self).tasks(), x) && x != old(self).current_id() && (r matches Some(sw) ==> x != sw.to)
                ==> final(self).task(x) == old(self).task(x),
    {
        self.drain_finished();
        let ghost t0 = self.tasks@;
        let ghost q0 = self.queues();
        let current_id = self.current;
        proof {
            assert(!old(self).finished_tasks@.contains(current_id)) by {
                if old(self).finished_tasks@.contains(current_id) {
                    let k = choose|k: int| 0 <= k < old(self).finished_tasks@.len() && old(self).finished_tasks@[k] == current_id;
                    assert(old(self).finished_tasks@[k] != old(self).current);
                }
            }
        }
        let ci = self.find_task(current_id).unwrap();
        let current_status = self.tasks[ci].status;
        let current_priority = self.tasks[ci].priority;
        let mut next_task: Option<TaskId>;
        if current_status == TaskStatus::Running {
            next_task = self.ready_queue.pop_with_priority(current_priority);
        } else {
            next_task = self.ready_queue.pop();
        }
        let ghost q1 = self.queues();
        let ghost popped_some = next_task is Some;
        proof {
            if let Some(n) = next_task {
                let p = choose|p: int| highest_nonempty(q0, p) && p >= (if current_status == TaskStatus::Running { current_priority.0 as int } else { 0 })
                    && n == q0[p][0] && q1 == q0.update(p, q0[p].drop_first());
                lemma_pop_queue(q0, p);
                assert(queued(q0, n));
            }
        }
        if next_task.is_none() && current_status != TaskStatus::Running && current_status != TaskStatus::Idle {
            next_task = Some(self.idle);
        }
        match next_task {
            Some(next) => {
                let ni = self.find_task(next).unwrap();
                let ghost t1 = self.tasks@;
                self.set_status(ni, TaskStatus::Running);
                proof {
                    lemma_update_task(t1, ni as int, self.tasks@[ni as int]);
                }
                if current_status == TaskStatus::Running {
                    let ghost t2 = self.tasks@;
                    let ghost q2 = self.queues();
                    proof {
                        assert(current_id != next) by {
                            if current_id == next {
                                assert(queued(q0, next));
                            }
                        }
                        assert(!queued(q2, current_id)) by {
                            if queued(q2, current_id) {
                                assert(queued(q0, current_id));
                            }
                        }
                        assert(t2[ci as int].id == current_id);
                        assert(current_priority.0 < NUM_PRIORITIES);
                    }
                    self.set_status(ci, TaskStatus::Ready);
                    self.ready_queue.push(current_id, current_priority);
                    proof {
                        lemma_update_task(t2, ci as int, self.tasks@[ci as int]);
                        lemma_push_queue(q2, current_priority.0 as int, current_id);
                    }
                } else if current_status == TaskStatus::Finished {
                    self.finished_tasks.push_back(current_id);
                }
                self.current = next;
                proof {
                    if current_status == TaskStatus::Finished {
                        assert(current_id != next) by {
                            if current_id == next {
                                if popped_some {
                                    assert(queued(q0, next));
                                }
                            }
                        }
                        assert(!queued(q1, current_id)) by {
                            if queued(q1, current_id) {
                                assert(queued(q0, current_id));
                            }
                        }
                        assert(current_id != self.idle);
                    }
                    assert(self.finished_tasks@ =~= (if current_status == TaskStatus::Finished {
                        seq![current_id]
                    } else {
                        Seq::<TaskId>::empty()
                    }));
                    assert forall|x: TaskId| #[trigger] queued(self.queues(), x) implies has_task(self.tasks@, x)
                        && self.tasks@[index_of(self.tasks@, x)].status == TaskStatus::Ready by {
                        if x != current_id {
                            assert(queued(q1, x));
                            assert(queued(q0, x));
                            if x == next {
                                assert(popped_some);
                            }
                        }
                    }
                    assert forall|k: int| 0 <= k < self.tasks@.len() implies (#[trigger] self.tasks@[k]).id.0 < self.next_task_id && self.tasks@[k].priority.0 < NUM_PRIORITIES by {
                        assert(t0[k].id.0 < self.next_task_id);
                        assert(t0[k].priority.0 < NUM_PRIORITIES);
                    }
                }
                Some(Switch { from: current_id, to: next })
            },
            None => {
                None
            },
        }
    }


    /// Ends the running task: marks it finished and answers the switch to the next task (the
    /// front task of the highest-priority non-empty queue, or the idle task). The idle task
    /// cannot end, and a task that waits in the ready queue is not the one running.
    pub fn exit(&mut self) -> (r: Switch)
        requires
            old(self).wf(),
            old(self).current_id() != old(self).idle_id(),
            old(self).task(old(self).current_id()).status != TaskStatus::Idle,
            old(self).task(old(self).current_id()).status != TaskStatus::Ready,
        ensures
            final(self).wf(),
            r.from == old(self).current_id(),
            final(self).current_id() == r.to,
            final(self).task(r.to).status == TaskStatus::Running,
            final(self).finished() == seq![old(self).current_id()],
            ({
                let qs = old(self).queues();
                match next_queue(qs, false, 0) {
                    Some(p) => r.to == qs[p][0] && final(self).queues() == qs.update(p, qs[p].drop_first()),
                    None => r.to == old(self).idle_id() && final(self).queues() == qs,
                }
            }),
    {
        let i = self.find_task(self.current).unwrap();
        let ghost ts = self.tasks@;
        self.set_status(i, TaskStatus::Finished);
        proof {
            lemma_update_task(ts, i as int, self.tasks@[i as int]);
            assert forall|x: TaskId| #[trigger] queued(self.queues(), x) implies has_task(self.tasks@, x)
                && self.tasks@[index_of(self.tasks@, x)].status == TaskStatus::Ready by {
                assert(x != self.current);
            }
            assert forall|k: int| 0 <= k < self.tasks@.len() implies (#[trigger] self.tasks@[k]).id.0 < self.next_task_id && self.tasks@[k].priority.0 < NUM_PRIORITIES by {
                assert(ts[k].id.0 < self.next_task_id);
                assert(ts[k].priority.0 < NUM_PRIORITIES);
            }
            assert forall|k: int| 0 <= k < self.finished_tasks@.len() implies
                self.tasks@[index_of(self.tasks@, #[trigger] self.finished_tasks@[k])].status == TaskStatus::Finished by {
                assert(old(self).finished_tasks@[k] != old(self).current);
            }
            assert(self.task(self.current).status == TaskStatus::Finished);
            assert(self.queues() == old(self).queues());
        }
        let r = self.schedule();
        r.unwrap()
    }


    /// The number of the running task.
    pub fn get_current_task_id(&self) -> (r: TaskId)
        ensures
            r == self.current_id(),
    {
        self.current
    }

    /// Adds a ready task of `priority` with standard input, output and error open, numbered
    /// with the next number, at the back of its priority's queue. A priority of
    /// `NUM_PRIORITIES` or more is refused.
    pub fn spawn(
        &mut self,
        priority: TaskPriority,
        root_page_table: PhysicalAddress,
        stdin: H,
        stdout: H,
        stderr: H,
    ) -> (r: Result<TaskId, &'static str>)
        requires
            old(self).wf(),
            old(self).next_id() < u64::MAX,
        ensures
            final(self).wf(),
            r is Ok <==> priority.0 < NUM_PRIORITIES,
            match r {
                Ok(id) => {
                    &&& id.0 == old(self).next_id()
                    &&& final(self).next_id() == old(self).next_id() + 1
                    &&& final(self).tasks().len() == old(self).tasks().len() + 1
                    &&& final(self).tasks().drop_last() == old(self).tasks()
                    &&& final(self).tasks().last().id == id
                    &&& final(self).tasks().last().status == TaskStatus::Ready
                    &&& final(self).tasks().last().priority == priority
                    &&& final(self).tasks().last().root_page_table == root_page_table
                    &&& final(self).queues() == old(self).queues().update(
                        priority.0 as int,
                        old(self).queues()[priority.0 as int].push(id),
                    )
                    &&& final(self).current_id() == old(self).current_id()
                    &&& final(self).finished() == old(self).finished()
                },
                Err(_) => *final(self) == *old(self),
            },
    {
        let priority_no = priority.into() as usize;
        if priority_no >= NUM_PRIORITIES {
            return Err("Priority must be between 0 and NUM_PRIORITIES - 1");
        }
        let task_id = TaskId::new(self.next_task_id);
        self.next_task_id = self.next_task_id + 1;
        let task = Task::new(task_id, TaskStatus::Ready, priority, root_page_table, stdin, stdout, stderr);
        let ghost old_tasks = self.tasks@;
        let ghost old_queues = self.queues();
        proof {
            assert(!has_task(old_tasks, task_id)) by {
                if has_task(old_tasks, task_id) {
                    let i = choose|i: int| 0 <= i < old_tasks.len() && (#[trigger] old_tasks[i]).id == task_id;
                    assert(old_tasks[i].id.0 < old(self).next_task_id);
                }
            }
            assert(!queued(old_queues, task_id));
        }
        self.ready_queue.push(task_id, priority);
        self.tasks.push(task);
        proof {
            let ts = self.tasks@;
            lemma_push_queue(old_queues, priority.0 as int, task_id);
            assert(ts.drop_last() =~= old_tasks);
            assert forall|i: int, j: int| 0 <= i < j < ts.len() implies (#[trigger] ts[i]).id != (#[trigger] ts[j]).id by {
                if j == old_tasks.len() {
                    assert(ts[i] == old_tasks[i]);
                    assert(old_tasks[i].id.0 < old(self).next_task_id);
                } else {
                    assert(ts[i] == old_tasks[i] && ts[j] == old_tasks[j]);
                }
            }
            assert forall|id: TaskId| has_task(old_tasks, id) implies has_task(ts, id) && index_of(ts, id) == index_of(old_tasks, id) by {
                let i = index_of(old_tasks, id);
                assert(ts[i] == old_tasks[i]);
                lemma_index_of(ts, i);
            }
            lemma_index_of(ts, old_tasks.len() as int);
            assert forall|x: TaskId| #[trigger] queued(self.queues(), x) implies has_task(ts, x)
                && ts[index_of(ts, x)].status == TaskStatus::Ready by {
                if x != task_id {
                    assert(queued(old_queues, x));
                    assert(ts[index_of(old_tasks, x)] == old_tasks[index_of(old_tasks, x)]);
                }
            }
            assert forall|k: int| 0 <= k < self.finished_tasks@.len() implies !queued(self.queues(), #[trigger] self.finished_tasks@[k]) by {
                let f = self.finished_tasks@[k];
                assert(old(self).finished_tasks@[k] == f);
            }
        }
        Ok(task_id)
    }
}

} // verus!
