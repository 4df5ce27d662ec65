//! The upload service's bookkeeping: the queued tasks, their states, and
//! which of them hold a running slot.
use crate::error::AppError;
use crate::queue::{entry_keys, unknown_task_message, UploadQueue};
use crate::upload::{start_request, start_task, tasks_to_start, to_start, TaskStatus};
use vstd::prelude::*;

verus! {

/// A task of the service.
pub struct TaskEntry {
    pub id: String,
    pub title: String,
    pub status: TaskStatus,
    pub retry_count: u32,
    /// The task holds a running slot (its upload was started and has not
    /// been let go).
    pub running: bool,
}

/// `e` with status `s` and running flag `run`, everything else as it was.
pub open spec fn with_state(e: TaskEntry, s: TaskStatus, run: bool) -> TaskEntry {
    TaskEntry { id: e.id, title: e.title, status: s, retry_count: e.retry_count, running: run }
}

/// `e` retried: waiting for a slot again, one more retry counted (up to the
/// largest count), no longer running.
pub open spec fn retried(e: TaskEntry) -> TaskEntry {
    TaskEntry {
        id: e.id,
        title: e.title,
        status: TaskStatus::Pending,
        retry_count: if e.retry_count < u32::MAX {
            (e.retry_count + 1) as u32
        } else {
            u32::MAX
        },
        running: false,
    }
}

/// A finished task: completed or failed.
pub open spec fn finished(s: TaskStatus) -> bool {
    s == TaskStatus::Completed || s == TaskStatus::Failed
}

/// Task number `k` is queued in `es`.
pub open spec fn queued_slot(es: Seq<(Seq<char>, u64)>, k: int) -> bool {
    exists|i: int| 0 <= i < es.len() && es[i].1 == k
}

/// How many of the tasks hold a running slot.
pub open spec fn running_count(ts: Seq<TaskEntry>) -> nat
    decreases ts.len(),
{
    if ts.len() == 0 {
        0
    } else {
        running_count(ts.drop_last()) + if ts.last().running {
            1nat
        } else {
            0nat
        }
    }
}

/// The number of running tasks as the scheduler counts it (at most the
/// largest `u32`).
pub open spec fn current_running(ts: Seq<TaskEntry>) -> u32 {
    if running_count(ts) > u32::MAX {
        u32::MAX
    } else {
        running_count(ts) as u32
    }
}

/// For each queued task: whether it waits for a slot.
pub open spec fn pending_flags(es: Seq<(Seq<char>, u64)>, ts: Seq<TaskEntry>) -> Seq<bool> {
    es.map_values(|e: (Seq<char>, u64)| ts[e.1 as int].status == TaskStatus::Pending)
}

/// For each queued task: whether it holds a running slot.
pub open spec fn running_flags(es: Seq<(Seq<char>, u64)>, ts: Seq<TaskEntry>) -> Seq<bool> {
    es.map_values(|e: (Seq<char>, u64)| ts[e.1 as int].running)
}

/// Task number `k` is one of the queued tasks at the positions `st`.
pub open spec fn started_slot(es: Seq<(Seq<char>, u64)>, st: Seq<int>, k: int) -> bool {
    exists|j: int| 0 <= j < st.len() && es[st[j]].1 == k
}

/// The upload tasks, in creation order, with the queue of those not
/// cancelled (id and task number).
pub struct UploadService {
    queue: UploadQueue,
    tasks: Vec<TaskEntry>,
    max_running: u32,
}

impl UploadService {
    /// The queued tasks: id and task number, in creation order.
    pub closed spec fn entries(&self) -> Seq<(Seq<char>, u64)> {
        self.queue.entries()
    }

    /// All tasks ever created, by number.
    pub closed spec fn tasks(&self) -> Seq<TaskEntry> {
        self.tasks@
    }

    /// How many tasks may run at once.
    pub closed spec fn max_running(&self) -> u32 {
        self.max_running
    }

    /// Every queued task number names a task.
    pub open spec fn wf(&self) -> bool {
        forall|i: int|
            0 <= i < self.entries().len() ==> (#[trigger] self.entries()[i]).1 < self.tasks().len()
    }

    proof fn lemma_wf_kept(a: &Self, b: &Self)
        requires
            a.wf(),
            b.entries() == a.entries(),
            b.tasks().len() == a.tasks().len(),
        ensures
            b.wf(),
    {
        assert forall|i: int| 0 <= i < b.entries().len() implies (#[trigger] b.entries()[i]).1
            < b.tasks().len() by {
            assert(b.entries()[i] == a.entries()[i]);
        }
    }

    /// The task queued under `id` is task number `t`.
    pub open spec fn queued_as(&self, id: Seq<char>, t: u64) -> bool {
        self.entries().contains((id, t))
    }

    /// No task yet; at most `max_running` may run at once.
    pub fn new(max_running: u32) -> (r: Self)
        ensures
            r.wf(),
            r.entries() == Seq::<(Seq<char>, u64)>::empty(),
            r.tasks() == Seq::<TaskEntry>::empty(),
            r.max_running() == max_running,
    {
        UploadService { queue: UploadQueue::new(), tasks: Vec::new(), max_running }
    }

    /// Sets how many tasks may run at once.
    pub fn set_max_concurrent(&mut self, max_running: u32)
        requires
            old(self).wf(),
        ensures
            final(self).wf(),
            final(self).entries() == old(self).entries(),
            final(self).tasks() == old(self).tasks(),
            final(self).max_running() == max_running,
    {
        self.max_running = max_running;
        proof {
            Self::lemma_wf_kept(old(self), self);
        }
    }

    /// Creates a task waiting to be started, queued under `id`; an id
    /// already queued is left alone and `false` is returned.
    pub fn create_task(&mut self, id: &str, title: &str) -> (created: bool)
        requires
            old(self).wf(),
        ensures
            final(self).wf(),
            final(self).max_running() == old(self).max_running(),
            created == !entry_keys(old(self).entries()).contains(id@),
            created ==> {
                let n = old(self).tasks().len();
                &&& final(self).entries() == old(self).entries().push((id@, n as u64))
                &&& final(self).tasks().len() == n + 1
                &&& final(self).tasks().subrange(0, n as int) == old(self).tasks()
                &&& final(self).tasks()[n as int].id@ == id@
                &&& final(self).tasks()[n as int].title@ == title@
                &&& final(self).tasks()[n as int].status == TaskStatus::Waiting
                &&& final(self).tasks()[n as int].retry_count == 0
                &&& !final(self).tasks()[n as int].running
            },
            !created ==> final(self).entries() == old(self).entries() && final(self).tasks()
                == old(self).tasks(),
    {
        let slot = self.tasks.len() as u64;
        if !self.queue.create_task(id.to_string(), slot) {
            return false;
        }
        self.tasks.push(
            TaskEntry {
                id: id.to_string(),
                title: title.to_string(),
                status: TaskStatus::Waiting,
                retry_count: 0,
                running: false,
            },
        );
        assert(self.tasks@.subrange(0, old(self).tasks@.len() as int) =~= old(self).tasks@);
        assert forall|i: int| 0 <= i < self.entries().len() implies (#[trigger] self.entries()[i]).1
            < self.tasks().len() by {
            if i < old(self).entries().len() {
                assert(self.entries()[i] == old(self).entries()[i]);
            }
        }
        true
    }

    /// The number of the task queued under `id`; an unknown id is an error.
    fn slot_of(&self, id: &str) -> (r: Result<usize, AppError>)
        requires
            self.wf(),
        ensures
            match r {
                Ok(t) => self.queued_as(id@, t as u64) && t < self.tasks().len(),
                Err(e) => !entry_keys(self.entries()).contains(id@) && (e matches AppError::Internal(
                    m,
                ) && m@ == unknown_task_message(id@)),
            },
    {
        match self.queue.task(id) {
            Ok(t) => {
                let n = self.tasks.len();
                proof {
                    assert(self.entries().contains((id@, t)));
                    let i = choose|i: int| 0 <= i < self.entries().len() && self.entries()[i] == (id@, t);
                    assert((self.entries()[i]).1 < self.tasks().len());
                }
                assert(t < n);
                let k = t as usize;
                Ok(k)
            },
            Err(e) => Err(e),
        }
    }

    /// Replaces task `t`'s state.
    fn set_task(&mut self, t: usize, e: TaskEntry)
        requires
            old(self).wf(),
            t < old(self).tasks().len(),
        ensures
            final(self).wf(),
            final(self).entries() == old(self).entries(),
            final(self).tasks() == old(self).tasks().update(t as int, e),
            final(self).max_running() == old(self).max_running(),
    {
        self.tasks.set(t, e);
        proof {
            Self::lemma_wf_kept(old(self), self);
        }
    }

    /// Task `t` with status `s` and running flag `run`.
    fn restated(&self, t: usize, s: TaskStatus, run: bool) -> (r: TaskEntry)
        requires
            t < self.tasks().len(),
        ensures
            r == with_state(self.tasks()[t as int], s, run),
    {
        let e = &self.tasks[t];
        TaskEntry { id: e.id.clone(), title: e.title.clone(), status: s, retry_count: e.retry_count, running: run }
    }

    /// Asks the task queued under `id` to start (see `start_request`): the
    /// answer says whether it now waits for a slot; an unknown id is an
    /// error and changes nothing.
    pub fn start_upload(&mut self, id: &str) -> (r: Result<bool, AppError>)
        requires
            old(self).wf(),
        ensures
            final(self).wf(),
            final(self).entries() == old(self).entries(),
            final(self).max_running() == old(self).max_running(),
            match r {
                Ok(b) => exists|t: u64|
                    #[trigger] old(self).queued_as(id@, t) && t < old(self).tasks().len() && {
                        let e = old(self).tasks()[t as int];
                        let (q, s) = start_request(e.status);
                        &&& b == q
                        &&& final(self).tasks() == old(self).tasks().update(
                            t as int,
                            with_state(e, s, e.running),
                        )
                    },
                Err(e) => !entry_keys(old(self).entries()).contains(id@) && final(self).tasks()
                    == old(self).tasks() && (e matches AppError::Internal(m) && m@
                    == unknown_task_message(id@)),
            },
    {
        let t = match self.slot_of(id) {
            Ok(t) => t,
            Err(e) => {
                return Err(e);
            },
        };
        let mut s = self.tasks[t].status;
        let run = self.tasks[t].running;
        let b = start_task(&mut s);
        let e = self.restated(t, s, run);
        self.set_task(t, e);
        assert(old(self).queued_as(id@, t as u64));
        Ok(b)
    }

    /// Pauses the task queued under `id`; an unknown id is an error and
    /// changes nothing.
    pub fn pause_upload(&mut self, id: &str) -> (r: Result<bool, AppError>)
        requires
            old(self).wf(),
        ensures
            final(self).wf(),
            final(self).entries() == old(self).entries(),
            final(self).max_running() == old(self).max_running(),
            match r {
                Ok(b) => b && exists|t: u64|
                    #[trigger] old(self).queued_as(id@, t) && t < old(self).tasks().len()
                        && final(self).tasks() == old(self).tasks().update(
                        t as int,
                        with_state(
                            old(self).tasks()[t as int],
                            TaskStatus::Paused,
                            old(self).tasks()[t as int].running,
                        ),
                    ),
                Err(e) => !entry_keys(old(self).entries()).contains(id@) && final(self).tasks()
                    == old(self).tasks() && (e matches AppError::Internal(m) && m@
                    == unknown_task_message(id@)),
            },
    {
        let t = match self.slot_of(id) {
            Ok(t) => t,
            Err(e) => {
                return Err(e);
            },
        };
        let run = self.tasks[t].running;
        let e = self.restated(t, TaskStatus::Paused, run);
        self.set_task(t, e);
        assert(old(self).queued_as(id@, t as u64));
        Ok(true)
    }

    /// Cancels the task queued under `id`: it leaves the queue (the others
    /// keep their order), is cancelled and lets go of its running slot; an
    /// unknown id is an error and changes nothing.
    pub fn cancel_upload(&mut self, id: &str) -> (r: Result<bool, AppError>)
        requires
            old(self).wf(),
        ensures
            final(self).wf(),
            final(self).max_running() == old(self).max_running(),
            match r {
                Ok(b) => b && exists|i: int|
                    0 <= i < old(self).entries().len() && (#[trigger] old(self).entries()[i]).0 == id@
                        && {
                        let t = old(self).entries()[i].1;
                        &&& final(self).entries() == old(self).entries().remove(i)
                        &&& final(self).tasks() == old(self).tasks().update(
                            t as int,
                            with_state(old(self).tasks()[t as int], TaskStatus::Cancelled, false),
                        )
                    },
                Err(e) => !entry_keys(old(self).entries()).contains(id@) && final(self).entries()
                    == old(self).entries() && final(self).tasks() == old(self).tasks() && (e matches AppError::Internal(
                    m,
                ) && m@ == unknown_task_message(id@)),
            },
    {
        let t = match self.queue.remove_task(id) {
            Ok(t) => t,
            Err(e) => {
                proof {
                    Self::lemma_wf_kept(old(self), self);
                }
                return Err(e);
            },
        };
        let ghost i = choose|i: int|
            0 <= i < old(self).entries().len() && #[trigger] old(self).entries()[i] == (id@, t)
                && self.entries() == old(self).entries().remove(i);
        assert(old(self).entries()[i].1 < old(self).tasks().len());
        assert(self.tasks() == old(self).tasks());
        assert forall|k: int| 0 <= k < self.entries().len() implies (#[trigger] self.entries()[k]).1
            < self.tasks().len() by {
            if k < i {
                assert(self.entries()[k] == old(self).entries()[k]);
            } else {
                assert(self.entries()[k] == old(self).entries()[k + 1]);
            }
        }
        let n = self.tasks.len();
        assert(t < n);
        let t = t as usize;
        let e = self.restated(t, TaskStatus::Cancelled, false);
        self.set_task(t, e);
        assert(old(self).entries()[i].0 == id@);
        Ok(true)
    }

    /// Retries the task queued under `id` (see `retried`); an unknown id is
    /// an error and changes nothing.
    pub fn retry_upload(&mut self, id: &str) -> (r: Result<bool, AppError>)
        requires
            old(self).wf(),
        ensures
            final(self).wf(),
            final(self).entries() == old(self).entries(),
            final(self).max_running() == old(self).max_running(),
            match r {
                Ok(b) => b && exists|t: u64|
                    #[trigger] old(self).queued_as(id@, t) && t < old(self).tasks().len()
                        && final(self).tasks() == old(self).tasks().update(
                        t as int,
                        retried(old(self).tasks()[t as int]),
                    ),
                Err(e) => !entry_keys(old(self).entries()).contains(id@) && final(self).tasks()
                    == old(self).tasks() && (e matches AppError::Internal(m) && m@
                    == unknown_task_message(id@)),
            },
    {
        let t = match self.slot_of(id) {
            Ok(t) => t,
            Err(e) => {
                return Err(e);
            },
        };
        let old_e = &self.tasks[t];
        let retry_count = if old_e.retry_count < u32::MAX {
            old_e.retry_count + 1
        } else {
            u32::MAX
        };
        let e = TaskEntry {
            id: old_e.id.clone(),
            title: old_e.title.clone(),
            status: TaskStatus::Pending,
            retry_count,
            running: false,
        };
        self.set_task(t, e);
        assert(old(self).queued_as(id@, t as u64));
        Ok(true)
    }

    /// The queued positions the scheduler starts now (see `to_start`):
    /// tasks that wait and hold no slot, in queue order, as many as there
    /// are free slots.
    pub open spec fn starts(&self) -> Seq<int> {
        to_start(
            pending_flags(self.entries(), self.tasks()),
            running_flags(self.entries(), self.tasks()),
            current_running(self.tasks()),
            self.max_running(),
        )
    }

    /// The queued tasks in queue order (id, title, status); a finished
    /// task lets go of its running slot.
    pub fn queue_snapshot(&mut self) -> (r: Vec<(String, String, TaskStatus)>)
        requires
            old(self).wf(),
        ensures
            final(self).wf(),
            final(self).entries() == old(self).entries(),
            final(self).max_running() == old(self).max_running(),
            r@.len() == old(self).entries().len(),
            forall|i: int|
                0 <= i < r@.len() ==> {
                    let t = old(self).entries()[i].1 as int;
                    &&& (#[trigger] r@[i]).0@ == old(self).entries()[i].0
                    &&& r@[i].1 == old(self).tasks()[t].title
                    &&& r@[i].2 == old(self).tasks()[t].status
                },
            final(self).tasks().len() == old(self).tasks().len(),
            forall|k: int|
                0 <= k < old(self).tasks().len() ==> #[trigger] final(self).tasks()[k] == if finished(
                    old(self).tasks()[k].status,
                ) && queued_slot(old(self).entries(), k) {
                    with_state(old(self).tasks()[k], old(self).tasks()[k].status, false)
                } else {
                    old(self).tasks()[k]
                },
    {
        let list = self.queue.list();
        let ghost es = old(self).entries();
        let ghost ts = old(self).tasks();
        let n = list.len();
        let mut out: Vec<(String, String, TaskStatus)> = Vec::new();
        let mut i: usize = 0;
        while i < n
            invariant
                n == list@.len(),
                es == old(self).entries(),
                ts == old(self).tasks(),
                list@.map_values(|e: (String, u64)| (e.0@, e.1)) == es,
                i <= n,
                self.wf(),
                self.entries() == es,
                self.max_running() == old(self).max_running(),
                self.tasks().len() == ts.len(),
                out@.len() == i,
                forall|j: int|
                    0 <= j < i ==> {
                        let t = es[j].1 as int;
                        &&& (#[trigger] out@[j]).0@ == es[j].0
                        &&& out@[j].1 == ts[t].title
                        &&& out@[j].2 == ts[t].status
                    },
                forall|k: int|
                    0 <= k < ts.len() ==> #[trigger] self.tasks()[k] == if finished(ts[k].status)
                        && queued_slot(es.subrange(0, i as int), k) {
                        with_state(ts[k], ts[k].status, false)
                    } else {
                        ts[k]
                    },
            decreases n - i,
        {
            assert(list@.map_values(|e: (String, u64)| (e.0@, e.1))[i as int] == es[i as int]);
            let id = &list[i].0;
            let slot = list[i].1;
            assert(self.entries()[i as int].1 < self.tasks().len());
            let m = self.tasks.len();
            assert(slot < m);
            let t = slot as usize;
            let title = self.tasks[t].title.clone();
            let status = self.tasks[t].status;
            let running = self.tasks[t].running;
            assert(self.tasks()[t as int].title == ts[t as int].title);
            assert(self.tasks()[t as int].status == ts[t as int].status);
            out.push((id.clone(), title, status));
            let ghost before = self.tasks();
            if status == TaskStatus::Completed || status == TaskStatus::Failed {
                let e = self.restated(t, status, false);
                self.set_task(t, e);
            }
            proof {
                assert forall|k: int| 0 <= k < ts.len() implies #[trigger] self.tasks()[k] == if finished(
                    ts[k].status,
                ) && queued_slot(es.subrange(0, i + 1), k) {
                    with_state(ts[k], ts[k].status, false)
                } else {
                    ts[k]
                } by {
                    let s0 = es.subrange(0, i as int);
                    let s1 = es.subrange(0, i + 1);
                    if queued_slot(s0, k) {
                        let w = choose|w: int| 0 <= w < s0.len() && #[trigger] s0[w].1 == k;
                        assert(s1[w] == s0[w]);
                    }
                    if k == t {
                        assert(s1[i as int].1 == k);
                    } else if queued_slot(s1, k) {
                        let w = choose|w: int| 0 <= w < s1.len() && #[trigger] s1[w].1 == k;
                        assert(w != i);
                        assert(s0[w] == s1[w]);
                    }
                }
            }
            i = i + 1;
        }
        assert(es.subrange(0, n as int) =~= es);
        out
    }

    /// The number of running tasks, as the scheduler counts it.
    fn count_running(&self) -> (c: u32)
        ensures
            c == current_running(self.tasks()),
    {
        let ghost ts = self.tasks();
        let mut c: u32 = 0;
        let mut i: usize = 0;
        while i < self.tasks.len()
            invariant
                ts == self.tasks(),
                i <= ts.len(),
                c == current_running(ts.subrange(0, i as int)),
            decreases ts.len() - i,
        {
            assert(ts.subrange(0, i + 1).drop_last() =~= ts.subrange(0, i as int));
            if self.tasks[i].running && c < u32::MAX {
                c = c + 1;
            }
            i = i + 1;
        }
        assert(ts.subrange(0, ts.len() as int) =~= ts);
        c
    }

    /// One tick of the scheduler: the queued tasks to start now (see
    /// `starts`) are marked running and hold a slot; their ids are returned,
    /// in queue order.
    pub fn tick(&mut self) -> (r: Vec<String>)
        requires
            old(self).wf(),
        ensures
            final(self).wf(),
            final(self).entries() == old(self).entries(),
            final(self).max_running() == old(self).max_running(),
            r@.len() == old(self).starts().len(),
            forall|j: int|
                0 <= j < r@.len() ==> (#[trigger] r@[j])@ == old(self).entries()[old(
                    self,
                ).starts()[j]].0,
            final(self).tasks().len() == old(self).tasks().len(),
            forall|k: int|
                0 <= k < old(self).tasks().len() ==> #[trigger] final(self).tasks()[k] == if started_slot(
                    old(self).entries(),
                    old(self).starts(),
                    k,
                ) {
                    with_state(old(self).tasks()[k], TaskStatus::Running, true)
                } else {
                    old(self).tasks()[k]
                },
    {
        let list = self.queue.list();
        let ghost es = old(self).entries();
        let ghost ts = old(self).tasks();
        let n = list.len();
        let mut pending: Vec<bool> = Vec::new();
        let mut running: Vec<bool> = Vec::new();
        let mut i: usize = 0;
        while i < n
            invariant
                n == list@.len(),
                list@.map_values(|e: (String, u64)| (e.0@, e.1)) == es,
                es == self.entries(),
                ts == self.tasks(),
                self.wf(),
                i <= n,
                pending@ == pending_flags(es.subrange(0, i as int), ts),
                running@ == running_flags(es.subrange(0, i as int), ts),
            decreases n - i,
        {
            assert(list@.map_values(|e: (String, u64)| (e.0@, e.1))[i as int] == es[i as int]);
            let slot = list[i].1;
            assert(es[i as int].1 < ts.len());
            let m = self.tasks.len();
            assert(slot < m);
            let t = slot as usize;
            pending.push(self.tasks[t].status == TaskStatus::Pending);
            running.push(self.tasks[t].running);
            assert(pending@ =~= pending_flags(es.subrange(0, i + 1), ts));
            assert(running@ =~= running_flags(es.subrange(0, i + 1), ts));
            i = i + 1;
        }
        assert(es.subrange(0, n as int) =~= es);
        let current = self.count_running();
        let starts = tasks_to_start(&pending, &running, current, self.max_running);
        let ghost st = old(self).starts();
        assert(starts@.map_values(|j: usize| j as int) == st);
        proof {
            crate::upload::lemma_startable_members(pending@, running@);
            assert forall|k: int| 0 <= k < st.len() implies 0 <= #[trigger] st[k] < es.len() by {
                assert(st[k] == crate::upload::startable(pending@, running@)[k]);
            }
        }
        let mut out: Vec<String> = Vec::new();
        let mut k: usize = 0;
        while k < starts.len()
            invariant
                n == list@.len(),
                list@.map_values(|e: (String, u64)| (e.0@, e.1)) == es,
                es == old(self).entries(),
                ts == old(self).tasks(),
                st == old(self).starts(),
                starts@.map_values(|j: usize| j as int) == st,
                forall|q: int| 0 <= q < st.len() ==> 0 <= #[trigger] st[q] < es.len(),
                self.wf(),
                self.entries() == es,
                self.max_running() == old(self).max_running(),
                self.tasks().len() == ts.len(),
                k <= starts@.len(),
                out@.len() == k,
                forall|j: int| 0 <= j < k ==> (#[trigger] out@[j])@ == es[st[j]].0,
                forall|q: int|
                    0 <= q < ts.len() ==> #[trigger] self.tasks()[q] == if started_slot(
                        es,
                        st.subrange(0, k as int),
                        q,
                    ) {
                        with_state(ts[q], TaskStatus::Running, true)
                    } else {
                        ts[q]
                    },
            decreases starts@.len() - k,
        {
            let j = starts[k];
            assert(st[k as int] == j as int);
            assert(list@.map_values(|e: (String, u64)| (e.0@, e.1))[j as int] == es[j as int]);
            let slot = list[j].1;
            assert(es[j as int].1 < ts.len());
            let m = self.tasks.len();
            assert(slot < m);
            let t = slot as usize;
            let e = self.restated(t, TaskStatus::Running, true);
            self.set_task(t, e);
            out.push(list[j].0.clone());
            proof {
                assert forall|q: int| 0 <= q < ts.len() implies #[trigger] self.tasks()[q] == if started_slot(
                    es,
                    st.subrange(0, k + 1),
                    q,
                ) {
                    with_state(ts[q], TaskStatus::Running, true)
                } else {
                    ts[q]
                } by {
                    let s0 = st.subrange(0, k as int);
                    let s1 = st.subrange(0, k + 1);
                    if started_slot(es, s0, q) {
                        let w = choose|w: int| 0 <= w < s0.len() && es[#[trigger] s0[w]].1 == q;
                        assert(s1[w] == s0[w]);
                    }
                    if q == t {
                        assert(s1[k as int] == j as int);
                    } else if started_slot(es, s1, q) {
                        let w = choose|w: int| 0 <= w < s1.len() && es[#[trigger] s1[w]].1 == q;
                        assert(w != k);
                        assert(s0[w] == s1[w]);
                    }
                }
            }
            k = k + 1;
        }
        assert(st.subrange(0, st.len() as int) =~= st);
        out
    }
}

} // verus!
