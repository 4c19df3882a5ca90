//! An in-memory state store: tasks, their externally tracked statuses,
//! recorded events, per-task execution metrics and named checkpoints,
//! all held in plain vectors keyed by identifier.

use vstd::prelude::*;

use crate::errors::OrchestratorError;
use crate::types::{ExecutionMetrics, StatusKind, SystemEvent, Task, TaskId, TaskStatus};
use crate::wire::{decode_status, decode_task, encode_status, encode_task, status_view, task_view};

verus! {

/// A deep copy of a task; the copy shows the same view. The copy runs
/// the task through its own wire codec, whose round trip is proved.
pub fn clone_task(t: &Task) -> (r: Task)
    ensures
        task_view(r) == task_view(*t),
{
    let bytes = encode_task(t);
    match decode_task(&bytes) {
        Some(c) => c,
        None => {
            proof {
                assert(false);
            }
            vstd::pervasive::unreached()
        },
    }
}

/// A deep copy of a status; the copy shows the same view.
pub fn clone_status(s: &TaskStatus) -> (r: TaskStatus)
    ensures
        status_view(r) == status_view(*s),
{
    let bytes = encode_status(s);
    match decode_status(&bytes) {
        Some(c) => c,
        None => {
            proof {
                assert(false);
            }
            vstd::pervasive::unreached()
        },
    }
}

/// A field-wise copy of an execution-metrics record.
pub fn copy_metrics(m: &ExecutionMetrics) -> (r: ExecutionMetrics)
    ensures
        r == *m,
{
    ExecutionMetrics {
        execution_time_ms: m.execution_time_ms,
        cpu_permille: m.cpu_permille,
        memory_usage: m.memory_usage,
        network_read: m.network_read,
        network_write: m.network_write,
        disk_read: m.disk_read,
        disk_write: m.disk_write,
    }
}

/// Whether a keyed sequence holds an entry under `id`.
pub open spec fn spec_has_key<T>(s: Seq<(TaskId, T)>, id: TaskId) -> bool {
    exists|i: int| 0 <= i < s.len() && (#[trigger] s[i]).0 == id
}

/// The index of the entry under `id`.
pub open spec fn spec_key_idx<T>(s: Seq<(TaskId, T)>, id: TaskId) -> int {
    choose|i: int| 0 <= i < s.len() && (#[trigger] s[i]).0 == id
}

/// Whether a task sequence holds a task with this identifier.
pub open spec fn spec_has_task(s: Seq<Task>, id: TaskId) -> bool {
    exists|i: int| 0 <= i < s.len() && (#[trigger] s[i]).id == id
}

/// The index of the task with this identifier.
pub open spec fn spec_task_idx(s: Seq<Task>, id: TaskId) -> int {
    choose|i: int| 0 <= i < s.len() && (#[trigger] s[i]).id == id
}

/// Whether the tasks of a sequence carry pairwise distinct
/// identifiers.
pub open spec fn spec_tasks_unique(s: Seq<Task>) -> bool {
    forall|a: int, b: int| 0 <= a < b < s.len() ==> (#[trigger] s[a]).id != (#[trigger] s[b]).id
}

/// The in-memory store.
pub struct MemoryStateStore {
    pub tasks: Vec<Task>,
    pub statuses: Vec<(TaskId, TaskStatus)>,
    pub events: Vec<SystemEvent>,
    pub metrics: Vec<(TaskId, ExecutionMetrics)>,
    pub checkpoints: Vec<(String, Vec<Task>)>,
}

impl MemoryStateStore {
    /// Task, status and metrics keys are unique, as are checkpoint
    /// names.
    pub open spec fn wf(self) -> bool {
        &&& forall|i: int, j: int|
            0 <= i < j < self.tasks@.len() ==> (#[trigger] self.tasks@[i]).id != (
            #[trigger] self.tasks@[j]).id
        &&& forall|i: int, j: int|
            0 <= i < j < self.statuses@.len() ==> (#[trigger] self.statuses@[i]).0 != (
            #[trigger] self.statuses@[j]).0
        &&& forall|i: int, j: int|
            0 <= i < j < self.metrics@.len() ==> (#[trigger] self.metrics@[i]).0 != (
            #[trigger] self.metrics@[j]).0
        &&& forall|i: int, j: int|
            0 <= i < j < self.checkpoints@.len() ==> (#[trigger] self.checkpoints@[i]).0@ != (
            #[trigger] self.checkpoints@[j]).0@
        &&& forall|c: int|
            0 <= c < self.checkpoints@.len() ==> spec_tasks_unique(
                (#[trigger] self.checkpoints@[c]).1@,
            )
    }

    /// Creates an empty store.
    pub fn new() -> (r: MemoryStateStore)
        ensures
            r.wf(),
            r.tasks@.len() == 0,
            r.statuses@.len() == 0,
            r.events@.len() == 0,
            r.metrics@.len() == 0,
            r.checkpoints@.len() == 0,
    {
        MemoryStateStore {
            tasks: Vec::new(),
            statuses: Vec::new(),
            events: Vec::new(),
            metrics: Vec::new(),
            checkpoints: Vec::new(),
        }
    }

    /// Registers a task, replacing any stored task with the same
    /// identifier.
    pub fn store_task(&mut self, task: Task)
        requires
            old(self).wf(),
        ensures
            final(self).wf(),
            final(self).statuses@ == old(self).statuses@,
            final(self).events@ == old(self).events@,
            final(self).metrics@ == old(self).metrics@,
            final(self).checkpoints@ == old(self).checkpoints@,
            spec_has_task(final(self).tasks@, task.id),
            final(self).tasks@[spec_task_idx(final(self).tasks@, task.id)] == task,
            spec_has_task(old(self).tasks@, task.id) ==> final(self).tasks@ == old(
                self,
            ).tasks@.update(spec_task_idx(old(self).tasks@, task.id), task),
            !spec_has_task(old(self).tasks@, task.id) ==> final(self).tasks@ == old(
                self,
            ).tasks@.push(task),
    {
        let mut i: usize = 0;
        while i < self.tasks.len()
            invariant
                i <= self.tasks@.len(),
                forall|j: int| 0 <= j < i ==> (#[trigger] self.tasks@[j]).id != task.id,
                *self == *old(self),
                old(self).wf(),
            decreases self.tasks@.len() - i,
        {
            if self.tasks[i].id == task.id {
                proof {
                    lemma_task_idx_unique(self.tasks@, task.id, i as int);
                }
                let ghost pre = self.tasks@;
                let slot = &mut self.tasks[i];
                *slot = task;
                proof {
                    assert(self.tasks@ == pre.update(i as int, task));
                    assert forall|a: int, b: int|
                        0 <= a < b < self.tasks@.len() implies (#[trigger] self.tasks@[a]).id != (
                        #[trigger] self.tasks@[b]).id by {
                        assert(self.tasks@[a].id == pre[a].id);
                        assert(self.tasks@[b].id == pre[b].id);
                    };
                    lemma_task_idx_unique(self.tasks@, task.id, i as int);
                }
                return ;
            }
            i = i + 1;
        }
        self.tasks.push(task);
        proof {
            assert(self.tasks@.last() == task);
            lemma_task_idx_unique(self.tasks@, task.id, self.tasks@.len() - 1);
        }
    }

    /// Looks a task up by identifier.
    pub fn get_task(&self, id: TaskId) -> (r: Option<&Task>)
        requires
            self.wf(),
        ensures
            (r is Some) <==> spec_has_task(self.tasks@, id),
            r matches Some(t) ==> *t == self.tasks@[spec_task_idx(self.tasks@, id)] && t.id == id,
    {
        let mut i: usize = 0;
        while i < self.tasks.len()
            invariant
                self.wf(),
                i <= self.tasks@.len(),
                forall|j: int| 0 <= j < i ==> (#[trigger] self.tasks@[j]).id != id,
            decreases self.tasks@.len() - i,
        {
            if self.tasks[i].id == id {
                proof {
                    lemma_task_idx_unique(self.tasks@, id, i as int);
                }
                return Some(&self.tasks[i]);
            }
            i = i + 1;
        }
        None
    }

    /// Removes a task and its tracked status. Removing an unknown
    /// identifier changes nothing.
    pub fn remove_task(&mut self, id: TaskId)
        requires
            old(self).wf(),
        ensures
            final(self).wf(),
            final(self).events@ == old(self).events@,
            final(self).metrics@ == old(self).metrics@,
            final(self).checkpoints@ == old(self).checkpoints@,
            spec_has_task(old(self).tasks@, id) ==> final(self).tasks@ == old(
                self,
            ).tasks@.remove(spec_task_idx(old(self).tasks@, id)),
            !spec_has_task(old(self).tasks@, id) ==> final(self).tasks@ == old(self).tasks@,
            spec_has_key(old(self).statuses@, id) ==> final(self).statuses@ == old(
                self,
            ).statuses@.remove(spec_key_idx(old(self).statuses@, id)),
            !spec_has_key(old(self).statuses@, id) ==> final(self).statuses@ == old(
                self,
            ).statuses@,
            !spec_has_task(final(self).tasks@, id),
            !spec_has_key(final(self).statuses@, id),
    {
        let ghost tasks0 = self.tasks@;
        let mut i: usize = 0;
        let mut removed: bool = false;
        while i < self.tasks.len() && !removed
            invariant
                i <= self.tasks@.len(),
                self.statuses@ == old(self).statuses@,
                self.events@ == old(self).events@,
                self.metrics@ == old(self).metrics@,
                self.checkpoints@ == old(self).checkpoints@,
                old(self).wf(),
                tasks0 == old(self).tasks@,
                !removed ==> self.tasks@ == tasks0 && forall|j: int|
                    0 <= j < i ==> (#[trigger] self.tasks@[j]).id != id,
                removed ==> spec_has_task(tasks0, id) && self.tasks@ == tasks0.remove(
                    spec_task_idx(tasks0, id),
                ),
            decreases self.tasks@.len() - i,
        {
            if self.tasks[i].id == id {
                proof {
                    lemma_task_idx_unique(self.tasks@, id, i as int);
                }
                self.tasks.remove(i);
                removed = true;
            } else {
                i = i + 1;
            }
        }
        proof {
            if !removed {
                assert(!spec_has_task(tasks0, id));
            } else {
                assert forall|j: int|
                    0 <= j < self.tasks@.len() implies (#[trigger] self.tasks@[j]).id != id by {
                    let k = spec_task_idx(tasks0, id);
                    if j < k {
                        assert(self.tasks@[j] == tasks0[j]);
                    } else {
                        assert(self.tasks@[j] == tasks0[j + 1]);
                    }
                };
                assert forall|a: int, b: int|
                    0 <= a < b < self.tasks@.len() implies (#[trigger] self.tasks@[a]).id != (
                    #[trigger] self.tasks@[b]).id by {
                    let k = spec_task_idx(tasks0, id);
                    let a0: int = if a < k {
                        a
                    } else {
                        a + 1
                    };
                    let b0: int = if b < k {
                        b
                    } else {
                        b + 1
                    };
                    assert(self.tasks@[a] == tasks0[a0]);
                    assert(self.tasks@[b] == tasks0[b0]);
                };
            }
        }
        let ghost tasks_after = self.tasks@;
        let ghost st0 = self.statuses@;
        let mut p: usize = 0;
        let mut sremoved: bool = false;
        while p < self.statuses.len() && !sremoved
            invariant
                p <= self.statuses@.len(),
                self.events@ == old(self).events@,
                self.metrics@ == old(self).metrics@,
                self.checkpoints@ == old(self).checkpoints@,
                old(self).wf(),
                st0 == old(self).statuses@,
                self.tasks@ == tasks_after,
                !sremoved ==> self.statuses@ == st0 && forall|j: int|
                    0 <= j < p ==> (#[trigger] self.statuses@[j]).0 != id,
                sremoved ==> spec_has_key(st0, id) && self.statuses@ == st0.remove(
                    spec_key_idx(st0, id),
                ),
            decreases self.statuses@.len() - p,
        {
            if self.statuses[p].0 == id {
                proof {
                    lemma_key_idx_unique(self.statuses@, id, p as int);
                }
                self.statuses.remove(p);
                sremoved = true;
            } else {
                p = p + 1;
            }
        }
        proof {
            if !sremoved {
                assert(!spec_has_key(st0, id));
            } else {
                assert forall|j: int|
                    0 <= j < self.statuses@.len() implies (#[trigger] self.statuses@[j]).0
                        != id by {
                    let k = spec_key_idx(st0, id);
                    if j < k {
                        assert(self.statuses@[j] == st0[j]);
                    } else {
                        assert(self.statuses@[j] == st0[j + 1]);
                    }
                };
                assert forall|a: int, b: int|
                    0 <= a < b < self.statuses@.len() implies (#[trigger] self.statuses@[a]).0
                    != (#[trigger] self.statuses@[b]).0 by {
                    let k = spec_key_idx(st0, id);
                    let a0: int = if a < k {
                        a
                    } else {
                        a + 1
                    };
                    let b0: int = if b < k {
                        b
                    } else {
                        b + 1
                    };
                    assert(self.statuses@[a] == st0[a0]);
                    assert(self.statuses@[b] == st0[b0]);
                };
            }
        }
    }

    /// Records the externally tracked status of a task, replacing any
    /// earlier record.
    pub fn update_task_status(&mut self, id: TaskId, status: TaskStatus)
        requires
            old(self).wf(),
        ensures
            final(self).wf(),
            final(self).tasks@ == old(self).tasks@,
            final(self).events@ == old(self).events@,
            final(self).metrics@ == old(self).metrics@,
            final(self).checkpoints@ == old(self).checkpoints@,
            spec_has_key(final(self).statuses@, id),
            final(self).statuses@[spec_key_idx(final(self).statuses@, id)] == (id, status),
            spec_has_key(old(self).statuses@, id) ==> final(self).statuses@ == old(
                self,
            ).statuses@.update(spec_key_idx(old(self).statuses@, id), (id, status)),
            !spec_has_key(old(self).statuses@, id) ==> final(self).statuses@ == old(
                self,
            ).statuses@.push((id, status)),
    {
        let mut i: usize = 0;
        while i < self.statuses.len()
            invariant
                i <= self.statuses@.len(),
                forall|j: int| 0 <= j < i ==> (#[trigger] self.statuses@[j]).0 != id,
                *self == *old(self),
                old(self).wf(),
            decreases self.statuses@.len() - i,
        {
            if self.statuses[i].0 == id {
                proof {
                    lemma_key_idx_unique(self.statuses@, id, i as int);
                }
                let ghost pre = self.statuses@;
                let slot = &mut self.statuses[i];
                *slot = (id, status);
                proof {
                    assert(self.statuses@ == pre.update(i as int, (id, status)));
                    assert forall|a: int, b: int|
                        0 <= a < b < self.statuses@.len() implies (
                        #[trigger] self.statuses@[a]).0 != (#[trigger] self.statuses@[b]).0 by {
                        assert(self.statuses@[a].0 == pre[a].0);
                        assert(self.statuses@[b].0 == pre[b].0);
                    };
                    lemma_key_idx_unique(self.statuses@, id, i as int);
                }
                return ;
            }
            i = i + 1;
        }
        self.statuses.push((id, status));
        proof {
            assert(self.statuses@.last() == (id, status));
            lemma_key_idx_unique(self.statuses@, id, self.statuses@.len() - 1);
        }
    }

    /// The tracked status of a task; a task never recorded is
    /// `Pending`.
    pub fn get_task_status(&self, id: TaskId) -> (r: TaskStatus)
        requires
            self.wf(),
        ensures
            spec_has_key(self.statuses@, id) ==> status_view(r) == status_view(
                self.statuses@[spec_key_idx(self.statuses@, id)].1,
            ),
            !spec_has_key(self.statuses@, id) ==> r == TaskStatus::Pending,
    {
        let mut i: usize = 0;
        while i < self.statuses.len()
            invariant
                self.wf(),
                i <= self.statuses@.len(),
                forall|j: int| 0 <= j < i ==> (#[trigger] self.statuses@[j]).0 != id,
            decreases self.statuses@.len() - i,
        {
            if self.statuses[i].0 == id {
                proof {
                    lemma_key_idx_unique(self.statuses@, id, i as int);
                }
                return clone_status(&self.statuses[i].1);
            }
            i = i + 1;
        }
        TaskStatus::Pending
    }

    /// The stored tasks, in insertion order.
    pub fn list_tasks(&self) -> (r: &Vec<Task>)
        ensures
            r@ == self.tasks@,
    {
        &self.tasks
    }

    /// The identifiers of stored tasks whose tracked status has one of
    /// the given kinds, in insertion order.
    pub fn list_tasks_by_kind(&self, kinds: &Vec<StatusKind>) -> (r: Vec<TaskId>)
        requires
            self.wf(),
        ensures
            forall|id: TaskId| #[trigger]
                r@.contains(id) <==> (spec_has_task(self.tasks@, id) && kinds@.contains(
                    self.spec_status_of(id).spec_kind(),
                )),
    {
        let mut out: Vec<TaskId> = Vec::new();
        let mut i: usize = 0;
        while i < self.tasks.len()
            invariant
                self.wf(),
                i <= self.tasks@.len(),
                forall|id: TaskId| #[trigger]
                    out@.contains(id) ==> spec_has_task(self.tasks@, id) && kinds@.contains(
                        self.spec_status_of(id).spec_kind(),
                    ),
                forall|j: int|
                    0 <= j < i && kinds@.contains(
                        self.spec_status_of((#[trigger] self.tasks@[j]).id).spec_kind(),
                    ) ==> out@.contains(self.tasks@[j].id),
            decreases self.tasks@.len() - i,
        {
            let id = self.tasks[i].id;
            proof {
                lemma_task_idx_unique(self.tasks@, id, i as int);
            }
            let st = self.get_task_status(id);
            let k = st.kind();
            proof {
                lemma_kind_of_view(st, self.spec_status_of(id));
                assert(k == self.spec_status_of(id).spec_kind());
            }
            let mut q: usize = 0;
            let mut hit: bool = false;
            while q < kinds.len()
                invariant
                    q <= kinds@.len(),
                    hit <==> exists|c: int| 0 <= c < q && #[trigger] kinds@[c] == k,
                decreases kinds@.len() - q,
            {
                if kinds[q] == k {
                    hit = true;
                }
                q = q + 1;
            }
            proof {
                assert(hit <==> kinds@.contains(k)) by {
                    if kinds@.contains(k) {
                        let c = choose|c: int| 0 <= c < kinds@.len() && #[trigger] kinds@[c] == k;
                    }
                }
            }
            if hit {
                let ghost outprev = out@;
                out.push(id);
                proof {
                    assert(forall|p: int| 0 <= p < outprev.len() ==> out@[p] == outprev[p]);
                    assert(out@.last() == id);
                    assert forall|x: TaskId| #[trigger] out@.contains(x) implies spec_has_task(
                        self.tasks@,
                        x,
                    ) && kinds@.contains(self.spec_status_of(x).spec_kind()) by {
                        let pidx = choose|pp: int| 0 <= pp < out@.len() && out@[pp] == x;
                        if pidx < outprev.len() {
                            assert(outprev.contains(x));
                        } else {
                            assert(x == id);
                        }
                    };
                }
            }
            i = i + 1;
        }
        proof {
            assert forall|id: TaskId|
                spec_has_task(self.tasks@, id) && kinds@.contains(
                    self.spec_status_of(id).spec_kind(),
                ) implies out@.contains(id) by {
                let j = choose|j: int|
                    0 <= j < self.tasks@.len() && (#[trigger] self.tasks@[j]).id == id;
            };
        }
        out
    }

    /// The tracked status of `id` as a specification value.
    pub open spec fn spec_status_of(self, id: TaskId) -> TaskStatus {
        if spec_has_key(self.statuses@, id) {
            self.statuses@[spec_key_idx(self.statuses@, id)].1
        } else {
            TaskStatus::Pending
        }
    }

    /// Appends an event to the log.
    pub fn store_event(&mut self, event: SystemEvent)
        ensures
            final(self).tasks@ == old(self).tasks@,
            final(self).statuses@ == old(self).statuses@,
            final(self).metrics@ == old(self).metrics@,
            final(self).checkpoints@ == old(self).checkpoints@,
            final(self).events@ == old(self).events@.push(event),
    {
        self.events.push(event);
    }

    /// The positions of the logged events whose timestamps lie in the
    /// given closed range, in log order; an open bound accepts
    /// everything on its side.
    pub fn get_events(&self, start_ms: Option<u64>, end_ms: Option<u64>) -> (r: Vec<usize>)
        ensures
            forall|j: usize| #[trigger]
                r@.contains(j) <==> (j < self.events@.len() && spec_event_in_range(
                    self.events@[j as int].timestamp_ms,
                    start_ms,
                    end_ms,
                )),
            forall|a: int, b: int| 0 <= a < b < r@.len() ==> r@[a] < r@[b],
    {
        let mut out: Vec<usize> = Vec::new();
        let mut i: usize = 0;
        while i < self.events.len()
            invariant
                i <= self.events@.len(),
                forall|p: int| 0 <= p < out@.len() ==> #[trigger] out@[p] < i,
                forall|j: usize| #[trigger]
                    out@.contains(j) <==> (j < i && spec_event_in_range(
                        self.events@[j as int].timestamp_ms,
                        start_ms,
                        end_ms,
                    )),
                forall|a: int, b: int| 0 <= a < b < out@.len() ==> out@[a] < out@[b],
            decreases self.events@.len() - i,
        {
            let ts = self.events[i].timestamp_ms;
            let after_start = match start_ms {
                Some(s) => ts >= s,
                None => true,
            };
            let before_end = match end_ms {
                Some(e) => ts <= e,
                None => true,
            };
            let ghost outprev = out@;
            if after_start && before_end {
                out.push(i);
                proof {
                    assert(forall|p: int| 0 <= p < outprev.len() ==> out@[p] == outprev[p]);
                    assert(out@.last() == i);
                }
            }
            proof {
                assert forall|j: usize| #[trigger] out@.contains(j) implies (j < i + 1
                    && spec_event_in_range(
                    self.events@[j as int].timestamp_ms,
                    start_ms,
                    end_ms,
                )) by {
                    let pidx = choose|pp: int| 0 <= pp < out@.len() && out@[pp] == j;
                    if pidx < outprev.len() {
                        assert(outprev.contains(j));
                    }
                };
                assert forall|j: usize|
                    (j < i + 1 && spec_event_in_range(
                        self.events@[j as int].timestamp_ms,
                        start_ms,
                        end_ms,
                    )) implies #[trigger] out@.contains(j) by {
                    if j < i {
                        assert(outprev.contains(j));
                        let pidx = choose|pp: int| 0 <= pp < outprev.len() && outprev[pp] == j;
                        assert(out@[pidx] == j);
                    } else {
                        assert(j == i);
                        assert(out@.last() == i);
                    }
                };
            }
            i = i + 1;
        }
        out
    }

    /// Records a task's execution metrics, replacing any earlier
    /// record.
    pub fn store_metrics(&mut self, id: TaskId, metrics: ExecutionMetrics)
        requires
            old(self).wf(),
        ensures
            final(self).wf(),
            final(self).tasks@ == old(self).tasks@,
            final(self).statuses@ == old(self).statuses@,
            final(self).events@ == old(self).events@,
            final(self).checkpoints@ == old(self).checkpoints@,
            spec_has_key(final(self).metrics@, id),
            final(self).metrics@[spec_key_idx(final(self).metrics@, id)] == (id, metrics),
            spec_has_key(old(self).metrics@, id) ==> final(self).metrics@ == old(
                self,
            ).metrics@.update(spec_key_idx(old(self).metrics@, id), (id, metrics)),
            !spec_has_key(old(self).metrics@, id) ==> final(self).metrics@ == old(
                self,
            ).metrics@.push((id, metrics)),
    {
        let mut i: usize = 0;
        while i < self.metrics.len()
            invariant
                i <= self.metrics@.len(),
                forall|j: int| 0 <= j < i ==> (#[trigger] self.metrics@[j]).0 != id,
                *self == *old(self),
                old(self).wf(),
            decreases self.metrics@.len() - i,
        {
            if self.metrics[i].0 == id {
                proof {
                    lemma_key_idx_unique(self.metrics@, id, i as int);
                }
                let ghost pre = self.metrics@;
                let slot = &mut self.metrics[i];
                *slot = (id, metrics);
                proof {
                    assert(self.metrics@ == pre.update(i as int, (id, metrics)));
                    assert forall|a: int, b: int|
                        0 <= a < b < self.metrics@.len() implies (#[trigger] self.metrics@[a]).0
                        != (#[trigger] self.metrics@[b]).0 by {
                        assert(self.metrics@[a].0 == pre[a].0);
                        assert(self.metrics@[b].0 == pre[b].0);
                    };
                    lemma_key_idx_unique(self.metrics@, id, i as int);
                }
                return ;
            }
            i = i + 1;
        }
        self.metrics.push((id, metrics));
        proof {
            assert(self.metrics@.last() == (id, metrics));
            lemma_key_idx_unique(self.metrics@, id, self.metrics@.len() - 1);
        }
    }

    /// Looks a task's metrics up.
    pub fn get_metrics(&self, id: TaskId) -> (r: Option<ExecutionMetrics>)
        requires
            self.wf(),
        ensures
            (r is Some) <==> spec_has_key(self.metrics@, id),
            r matches Some(m) ==> m == self.metrics@[spec_key_idx(self.metrics@, id)].1,
    {
        let mut i: usize = 0;
        while i < self.metrics.len()
            invariant
                self.wf(),
                i <= self.metrics@.len(),
                forall|j: int| 0 <= j < i ==> (#[trigger] self.metrics@[j]).0 != id,
            decreases self.metrics@.len() - i,
        {
            if self.metrics[i].0 == id {
                proof {
                    lemma_key_idx_unique(self.metrics@, id, i as int);
                }
                return Some(copy_metrics(&self.metrics[i].1));
            }
            i = i + 1;
        }
        None
    }

    /// Snapshots the current task list under a checkpoint name,
    /// replacing any checkpoint stored under the same name.
    pub fn create_checkpoint(&mut self, name: String)
        requires
            old(self).wf(),
        ensures
            final(self).wf(),
            final(self).tasks@ == old(self).tasks@,
            final(self).statuses@ == old(self).statuses@,
            final(self).events@ == old(self).events@,
            final(self).metrics@ == old(self).metrics@,
            exists|k: int|
                {
                    &&& 0 <= k < final(self).checkpoints@.len()
                    &&& (#[trigger] final(self).checkpoints@[k]).0@ == name@
                    &&& final(self).checkpoints@[k].1@.map_values(|t: Task| task_view(t)) == old(
                        self,
                    ).tasks@.map_values(|t: Task| task_view(t))
                },
    {
        let copy = clone_task_vec(&self.tasks);
        let mut i: usize = 0;
        while i < self.checkpoints.len()
            invariant
                i <= self.checkpoints@.len(),
                forall|j: int| 0 <= j < i ==> (#[trigger] self.checkpoints@[j]).0@ != name@,
                *self == *old(self),
                old(self).wf(),
                copy@.map_values(|t: Task| task_view(t)) == old(self).tasks@.map_values(
                    |t: Task| task_view(t),
                ),
                copy@.len() == old(self).tasks@.len(),
                forall|j: int|
                    0 <= j < copy@.len() ==> (#[trigger] copy@[j]).id == old(self).tasks@[j].id,
            decreases self.checkpoints@.len() - i,
        {
            if crate::strutil::str_eq(self.checkpoints[i].0.as_str(), name.as_str()) {
                let ghost pre = self.checkpoints@;
                proof {
                    assert(pre[i as int].0@ == name@);
                }
                let slot = &mut self.checkpoints[i];
                *slot = (name, copy);
                proof {
                    assert(self.checkpoints@ == pre.update(i as int, (name, copy)));
                    assert forall|a: int, b: int|
                        0 <= a < b < self.checkpoints@.len() implies (
                        #[trigger] self.checkpoints@[a]).0@ != (
                        #[trigger] self.checkpoints@[b]).0@ by {
                        assert(self.checkpoints@[a].0@ == pre[a].0@);
                        assert(self.checkpoints@[b].0@ == pre[b].0@);
                    };
                    assert forall|c: int|
                        0 <= c < self.checkpoints@.len() implies spec_tasks_unique(
                        (#[trigger] self.checkpoints@[c]).1@,
                    ) by {
                        if c == i as int {
                            assert forall|a: int, b: int|
                                0 <= a < b < copy@.len() implies (#[trigger] copy@[a]).id != (
                                #[trigger] copy@[b]).id by {
                                assert(copy@[a].id == old(self).tasks@[a].id);
                                assert(copy@[b].id == old(self).tasks@[b].id);
                            };
                        } else {
                            assert(self.checkpoints@[c] == pre[c]);
                        }
                    };
                }
                return ;
            }
            i = i + 1;
        }
        self.checkpoints.push((name, copy));
        proof {
            let ghost n = self.checkpoints@.len() as int;
            assert(self.checkpoints@.last().0@ == name@);
            assert forall|a: int, b: int|
                0 <= a < b < self.checkpoints@.len() implies (#[trigger] self.checkpoints@[a]).0@
                != (#[trigger] self.checkpoints@[b]).0@ by {
                if b < n - 1 {
                    assert(self.checkpoints@[a] == old(self).checkpoints@[a]);
                    assert(self.checkpoints@[b] == old(self).checkpoints@[b]);
                } else {
                    assert(self.checkpoints@[a] == old(self).checkpoints@[a]);
                }
            };
            assert forall|c: int|
                0 <= c < self.checkpoints@.len() implies spec_tasks_unique(
                (#[trigger] self.checkpoints@[c]).1@,
            ) by {
                if c == n - 1 {
                    assert(self.checkpoints@[c].1 == copy);
                    assert forall|a: int, b: int|
                        0 <= a < b < copy@.len() implies (#[trigger] copy@[a]).id != (
                        #[trigger] copy@[b]).id by {
                        assert(copy@[a].id == old(self).tasks@[a].id);
                        assert(copy@[b].id == old(self).tasks@[b].id);
                    };
                } else {
                    assert(self.checkpoints@[c] == old(self).checkpoints@[c]);
                }
            };
        }
    }

    /// Restores the task list from a named checkpoint and clears the
    /// tracked statuses, as a fresh start from that state. Fails
    /// exactly when no checkpoint bears the name.
    pub fn restore_checkpoint(&mut self, name: &String) -> (r: Result<(), OrchestratorError>)
        requires
            old(self).wf(),
        ensures
            final(self).wf(),
            final(self).events@ == old(self).events@,
            final(self).metrics@ == old(self).metrics@,
            final(self).checkpoints@ == old(self).checkpoints@,
            (r is Ok) <==> exists|k: int|
                0 <= k < old(self).checkpoints@.len() && (#[trigger] old(
                    self,
                ).checkpoints@[k]).0@ == name@,
            r is Ok ==> {
                &&& final(self).statuses@.len() == 0
                &&& exists|k: int|
                    {
                        &&& 0 <= k < old(self).checkpoints@.len()
                        &&& (#[trigger] old(self).checkpoints@[k]).0@ == name@
                        &&& final(self).tasks@.map_values(|t: Task| task_view(t)) == old(
                            self,
                        ).checkpoints@[k].1@.map_values(|t: Task| task_view(t))
                    }
            },
            r is Err ==> *final(self) == *old(self),
    {
        let mut i: usize = 0;
        while i < self.checkpoints.len()
            invariant
                i <= self.checkpoints@.len(),
                forall|j: int| 0 <= j < i ==> (#[trigger] self.checkpoints@[j]).0@ != name@,
                *self == *old(self),
                old(self).wf(),
            decreases self.checkpoints@.len() - i,
        {
            if crate::strutil::str_eq(self.checkpoints[i].0.as_str(), name.as_str()) {
                let restored = clone_task_vec(&self.checkpoints[i].1);
                proof {
                    assert(spec_tasks_unique(self.checkpoints@[i as int].1@));
                    assert forall|a: int, b: int|
                        0 <= a < b < restored@.len() implies (#[trigger] restored@[a]).id != (
                        #[trigger] restored@[b]).id by {
                        assert(restored@[a].id == self.checkpoints@[i as int].1@[a].id);
                        assert(restored@[b].id == self.checkpoints@[i as int].1@[b].id);
                    };
                }
                self.tasks = restored;
                self.statuses = Vec::new();
                return Ok(());
            }
            i = i + 1;
        }
        Err(
            OrchestratorError::PersistFailed(
                "no checkpoint is stored under that name".to_owned(),
            ),
        )
    }

    /// The stored checkpoint names, in insertion order.
    pub fn list_checkpoints(&self) -> (r: Vec<String>)
        ensures
            r@.len() == self.checkpoints@.len(),
            forall|j: int|
                0 <= j < r@.len() ==> #[trigger] r@[j]@ == self.checkpoints@[j].0@,
    {
        let mut out: Vec<String> = Vec::new();
        let mut i: usize = 0;
        while i < self.checkpoints.len()
            invariant
                i <= self.checkpoints@.len(),
                out@.len() == i,
                forall|j: int| 0 <= j < i ==> #[trigger] out@[j]@ == self.checkpoints@[j].0@,
            decreases self.checkpoints@.len() - i,
        {
            out.push(self.checkpoints[i].0.clone());
            i = i + 1;
        }
        out
    }

    /// Retention on the in-memory store is a no-op: nothing ages out
    /// of process memory.
    pub fn cleanup_old_data(&mut self, retention_days: u32)
        ensures
            *final(self) == *old(self),
    {
        let _ = retention_days;
    }
}

/// An element-wise deep copy of a task vector; ill-keyed duplicates
/// cannot arise since views carry the identifiers.
pub fn clone_task_vec(v: &Vec<Task>) -> (r: Vec<Task>)
    ensures
        r@.map_values(|t: Task| task_view(t)) == v@.map_values(|t: Task| task_view(t)),
        r@.len() == v@.len(),
        forall|j: int| 0 <= j < v@.len() ==> (#[trigger] r@[j]).id == v@[j].id,
{
    let mut out: Vec<Task> = Vec::new();
    let mut i: usize = 0;
    while i < v.len()
        invariant
            i <= v@.len(),
            out@.len() == i,
            forall|j: int| 0 <= j < i ==> #[trigger] task_view(out@[j]) == task_view(v@[j]),
        decreases v@.len() - i,
    {
        out.push(clone_task(&v[i]));
        i = i + 1;
    }
    proof {
        assert(out@.map_values(|t: Task| task_view(t)) =~= v@.map_values(|t: Task| task_view(t)));
        assert forall|j: int| 0 <= j < v@.len() implies (#[trigger] out@[j]).id == v@[j].id by {
            assert(task_view(out@[j]) == task_view(v@[j]));
        };
    }
    out
}

/// Whether a timestamp lies inside the optional closed range.
pub open spec fn spec_event_in_range(ts: u64, start_ms: Option<u64>, end_ms: Option<u64>) -> bool {
    &&& match start_ms {
        Some(s) => ts >= s,
        None => true,
    }
    &&& match end_ms {
        Some(e) => ts <= e,
        None => true,
    }
}

/// The index found for a present key is the only one.
proof fn lemma_key_idx_unique<T>(s: Seq<(TaskId, T)>, id: TaskId, i: int)
    requires
        0 <= i < s.len(),
        s[i].0 == id,
        forall|a: int, b: int| 0 <= a < b < s.len() ==> (#[trigger] s[a]).0 != (#[trigger] s[b]).0,
    ensures
        spec_has_key(s, id),
        spec_key_idx(s, id) == i,
{
    assert(spec_has_key(s, id));
    let k = spec_key_idx(s, id);
    if k != i {
        if k < i {
            assert(s[k].0 != s[i].0);
        } else {
            assert(s[i].0 != s[k].0);
        }
    }
}

/// The index found for a present task identifier is the only one.
proof fn lemma_task_idx_unique(s: Seq<Task>, id: TaskId, i: int)
    requires
        0 <= i < s.len(),
        s[i].id == id,
        forall|a: int, b: int| 0 <= a < b < s.len() ==> (#[trigger] s[a]).id != (#[trigger] s[b]).id,
    ensures
        spec_has_task(s, id),
        spec_task_idx(s, id) == i,
{
    assert(spec_has_task(s, id));
    let k = spec_task_idx(s, id);
    if k != i {
        if k < i {
            assert(s[k].id != s[i].id);
        } else {
            assert(s[i].id != s[k].id);
        }
    }
}

/// Equal status views show the same kind.
proof fn lemma_kind_of_view(a: TaskStatus, b: TaskStatus)
    requires
        status_view(a) == status_view(b),
    ensures
        a.spec_kind() == b.spec_kind(),
{
}

} // verus!
