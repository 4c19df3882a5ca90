//! The executor state machine: a bounded pool of worker leases and the
//! dispatch, completion, failure and cancellation transitions. At every
//! instant the number of running tasks is at most `max_workers`, and a
//! task enters `Running` only when all its hard predecessors are
//! completed.

use vstd::prelude::*;
use crate::errors::{ErrorClass, OrchestratorError};
use crate::mesh::{check_transition, valid_transition, TaskMesh};
use crate::types::{
    contains_id, StatusKind, TaskId, TaskResult, TaskStatus, WorkerInfo, WorkerStats, WorkerStatus,
};

verus! {

broadcast use vstd::seq_lib::group_seq_properties;

/// Executor settings.
#[derive(Debug, Clone, PartialEq)]
pub struct ExecutorConfig {
    pub max_workers: usize,
    pub default_timeout_ms: u64,
    pub heartbeat_interval_ms: u64,
    pub working_dir: String,
}

impl ExecutorConfig {
    /// The standard settings: one worker per CPU and a one-hour
    /// timeout.
    pub fn standard() -> (r: ExecutorConfig)
        ensures
            r.max_workers >= 1,
            r.default_timeout_ms == 3_600_000,
    {
        ExecutorConfig {
            max_workers: crate::trusted::cpu_count(),
            default_timeout_ms: 3_600_000,
            heartbeat_interval_ms: 30_000,
            working_dir: ".".to_owned(),
        }
    }
}

/// A pool of worker leases.
#[derive(Debug, Clone)]
pub struct WorkerPool {
    pub workers: Vec<WorkerInfo>,
}

impl WorkerPool {
    /// Creates a pool of idle workers numbered from zero.
    pub fn new(count: usize, now_ms: u64) -> (r: WorkerPool)
        ensures
            r.workers@.len() == count,
            forall|i: int|
                0 <= i < count ==> (#[trigger] r.workers@[i]).id == i && r.workers@[i].status
                    == WorkerStatus::Idle && r.workers@[i].current_task is None,
    {
        let mut workers: Vec<WorkerInfo> = Vec::new();
        let mut i: usize = 0;
        while i < count
            invariant
                i <= count,
                workers@.len() == i,
                forall|j: int|
                    0 <= j < i ==> (#[trigger] workers@[j]).id == j && workers@[j].status
                        == WorkerStatus::Idle && workers@[j].current_task is None,
            decreases count - i,
        {
            workers.push(
                WorkerInfo {
                    id: i as u64,
                    status: WorkerStatus::Idle,
                    current_task: None,
                    stats: WorkerStats::new(),
                    last_heartbeat_ms: now_ms,
                },
            );
            i = i + 1;
        }
        WorkerPool { workers }
    }

    /// Leases the first idle worker for a task, if any.
    pub fn lease(&mut self, task: TaskId, now_ms: u64) -> (r: Option<usize>)
        ensures
            match r {
                Some(w) => {
                    &&& w < old(self).workers@.len()
                    &&& old(self).workers@[w as int].status == WorkerStatus::Idle
                    &&& final(self).workers@.len() == old(self).workers@.len()
                    &&& final(self).workers@[w as int].status == WorkerStatus::Busy
                    &&& final(self).workers@[w as int].current_task == Some(task)
                    &&& final(self).workers@[w as int].id == old(self).workers@[w as int].id
                    &&& forall|i: int|
                        0 <= i < old(self).workers@.len() && i != w ==> final(self).workers@[i]
                            == old(self).workers@[i]
                },
                None => *final(self) == *old(self) && forall|i: int|
                    0 <= i < old(self).workers@.len() ==> (#[trigger] old(
                        self,
                    ).workers@[i]).status != WorkerStatus::Idle,
            },
    {
        let mut i: usize = 0;
        while i < self.workers.len()
            invariant
                i <= self.workers@.len(),
                *self == *old(self),
                forall|j: int|
                    0 <= j < i ==> (#[trigger] self.workers@[j]).status != WorkerStatus::Idle,
            decreases self.workers@.len() - i,
        {
            let idle = match self.workers[i].status {
                WorkerStatus::Idle => true,
                _ => false,
            };
            if idle {
                let w = &mut self.workers[i];
                w.status = WorkerStatus::Busy;
                w.current_task = Some(task);
                w.last_heartbeat_ms = now_ms;
                return Some(i);
            }
            i = i + 1;
        }
        None
    }

    /// Returns to idle every worker whose lease holds the given task,
    /// without touching its statistics, as when the task is cancelled.
    pub fn release_lease(&mut self, id: TaskId)
        ensures
            final(self).workers@.len() == old(self).workers@.len(),
            forall|w: int|
                0 <= w < old(self).workers@.len() ==> #[trigger] final(self).workers@[w] == (
                if old(self).workers@[w].current_task == Some(id) {
                    WorkerInfo {
                        status: WorkerStatus::Idle,
                        current_task: None,
                        ..old(self).workers@[w]
                    }
                } else {
                    old(self).workers@[w]
                }),
    {
        let mut i: usize = 0;
        let n = self.workers.len();
        while i < n
            invariant
                n == self.workers@.len(),
                old(self).workers@.len() == n,
                i <= n,
                forall|w: int|
                    0 <= w < i ==> #[trigger] self.workers@[w] == (
                    if old(self).workers@[w].current_task == Some(id) {
                        WorkerInfo {
                            status: WorkerStatus::Idle,
                            current_task: None,
                            ..old(self).workers@[w]
                        }
                    } else {
                        old(self).workers@[w]
                    }),
                forall|w: int| i <= w < n ==> #[trigger] self.workers@[w] == old(self).workers@[w],
            decreases n - i,
        {
            let held = match &self.workers[i].current_task {
                Some(t) => *t == id,
                None => false,
            };
            if held {
                let w = &mut self.workers[i];
                w.status = WorkerStatus::Idle;
                w.current_task = None;
            }
            i = i + 1;
        }
    }

    /// Releases a worker lease, recording the outcome.
    pub fn release(&mut self, worker: usize, success: bool, duration_ms: u64)
        requires
            worker < old(self).workers@.len(),
        ensures
            final(self).workers@.len() == old(self).workers@.len(),
            final(self).workers@[worker as int].status == WorkerStatus::Idle,
            final(self).workers@[worker as int].current_task is None,
            final(self).workers@[worker as int].id == old(self).workers@[worker as int].id,
            forall|i: int|
                0 <= i < old(self).workers@.len() && i != worker ==> final(self).workers@[i]
                    == old(self).workers@[i],
    {
        let w = &mut self.workers[worker];
        w.status = WorkerStatus::Idle;
        w.current_task = None;
        if success {
            w.stats.tasks_completed = if w.stats.tasks_completed == u64::MAX {
                u64::MAX
            } else {
                w.stats.tasks_completed + 1
            };
        } else {
            w.stats.tasks_failed = if w.stats.tasks_failed == u64::MAX {
                u64::MAX
            } else {
                w.stats.tasks_failed + 1
            };
        }
        w.stats.total_execution_time_ms = if w.stats.total_execution_time_ms > u64::MAX
            - duration_ms {
            u64::MAX
        } else {
            w.stats.total_execution_time_ms + duration_ms
        };
    }
}

/// The executor: the worker pool and the identifiers of the tasks
/// currently running.
#[derive(Debug, Clone)]
pub struct TaskExecutor {
    pub config: ExecutorConfig,
    pub pool: WorkerPool,
    pub running: Vec<TaskId>,
}

impl TaskExecutor {
    /// Well-formedness: no task runs twice and the concurrency bound
    /// holds.
    pub open spec fn wf(self) -> bool {
        &&& self.running@.no_duplicates()
        &&& self.running@.len() <= self.config.max_workers
        &&& self.config.max_workers >= 1
    }

    /// Creates an executor with an idle pool.
    pub fn new(config: ExecutorConfig, now_ms: u64) -> (r: TaskExecutor)
        requires
            config.max_workers >= 1,
        ensures
            r.wf(),
            r.config == config,
            r.running@.len() == 0,
            r.pool.workers@.len() == config.max_workers,
    {
        let pool = WorkerPool::new(config.max_workers, now_ms);
        TaskExecutor { config, pool, running: Vec::new() }
    }

    /// Dispatches a ready task: acquires a permit and a worker lease
    /// and moves the task to `Running`. Dispatch succeeds exactly when
    /// the task is not already running, a permit and an idle worker are
    /// free, and the task is `Ready` with every hard predecessor
    /// completed; the concurrency bound is preserved in every case.
    pub fn dispatch(&mut self, mesh: &mut TaskMesh, id: TaskId, now_ms: u64) -> (r: Result<
        usize,
        OrchestratorError,
    >)
        requires
            old(self).wf(),
            old(mesh).wf(),
        ensures
            final(self).wf(),
            final(mesh).wf(),
            final(self).running@.len() <= final(self).config.max_workers,
            final(self).config == old(self).config,
            r is Ok <==> ({
                &&& !old(self).running@.contains(id)
                &&& old(self).running@.len() < old(self).config.max_workers
                &&& old(mesh).has_task(id)
                &&& old(mesh).status_of(id).spec_kind() == StatusKind::Ready
                &&& old(mesh).hard_deps_completed(id)
                &&& exists|w: int|
                    0 <= w < old(self).pool.workers@.len() && (#[trigger] old(
                        self,
                    ).pool.workers@[w]).status == WorkerStatus::Idle
            }),
            r is Ok ==> final(mesh).nodes@.len() == old(mesh).nodes@.len() && forall|j: int|
                0 <= j < old(mesh).nodes@.len() ==> (#[trigger] final(mesh).nodes@[j]).task.id
                    == old(mesh).nodes@[j].task.id,
            match r {
                Ok(worker) => {
                    &&& worker < old(self).pool.workers@.len()
                    &&& old(self).pool.workers@[worker as int].status == WorkerStatus::Idle
                    &&& final(mesh).status_of(id) == (TaskStatus::Running {
                        worker: worker as u64,
                        started_at_ms: now_ms,
                    })
                    &&& final(mesh).node_of(id).task == old(mesh).node_of(id).task
                    &&& final(mesh).edges@ == old(mesh).edges@
                    &&& final(mesh).completed_count == old(mesh).completed_count
                    &&& final(self).running@ == old(self).running@.push(id)
                },
                Err(OrchestratorError::InvalidState(_)) => old(self).running@.contains(id) || (
                old(mesh).has_task(id) && (old(mesh).status_of(id).spec_kind() != StatusKind::Ready
                    || !old(mesh).hard_deps_completed(id))),
                Err(OrchestratorError::ResourceLimitExceeded(_)) => old(self).running@.len()
                    >= old(self).config.max_workers || forall|w: int|
                    0 <= w < old(self).pool.workers@.len() ==> (#[trigger] old(
                        self,
                    ).pool.workers@[w]).status != WorkerStatus::Idle,
                Err(OrchestratorError::TaskNotFound(d)) => d == id && !old(mesh).has_task(id),
                _ => false,
            },
            r is Err ==> *final(mesh) == *old(mesh) && *final(self) == *old(self),
    {
        if contains_id(&self.running, id) {
            return Err(OrchestratorError::InvalidState("task is already running".to_owned()));
        }
        if self.running.len() >= self.config.max_workers {
            return Err(
                OrchestratorError::ResourceLimitExceeded("all worker permits are in use".to_owned()),
            );
        }
        let registered = match mesh.get_status(id) {
            Some(_) => true,
            None => false,
        };
        if !registered {
            return Err(OrchestratorError::TaskNotFound(id));
        }
        let ready = match mesh.get_status(id) {
            Some(st) => st.kind() == StatusKind::Ready,
            None => false,
        };
        if !ready {
            return Err(OrchestratorError::InvalidState("task is not ready".to_owned()));
        }
        if !mesh.hard_deps_ok(id) {
            return Err(
                OrchestratorError::InvalidState("hard predecessors are not completed".to_owned()),
            );
        }
        let worker = match self.pool.lease(id, now_ms) {
            Some(w) => w,
            None => {
                return Err(
                    OrchestratorError::ResourceLimitExceeded("no worker is idle".to_owned()),
                );
            },
        };
        let ghost mesh0 = *mesh;
        let set = mesh.set_status(
            id,
            TaskStatus::Running { worker: worker as u64, started_at_ms: now_ms },
        );
        match set {
            Ok(()) => {
                proof {
                    crate::mesh::lemma_update_preserves_ids(mesh0, *mesh, id);
                }
                let ghost before = self.running@;
                self.running.push(id);
                proof {
                    assert(self.running@ =~= before.push(id));
                    assert(self.running@.no_duplicates()) by {
                        assert(forall|j: int| 0 <= j < before.len() ==> self.running@[j] == before[j]);
                        assert(self.running@.last() == id);
                    }
                }
                Ok(worker)
            },
            Err(e) => {
                proof {
                    // A ready task always accepts the running transition.
                    assert(crate::mesh::valid_transition(
                        mesh0.status_of(id),
                        TaskStatus::Running { worker: worker as u64, started_at_ms: now_ms },
                        mesh0.node_of(id).task.max_retries,
                    ));
                    assert(false);
                }
                Err(e)
            },
        }
    }

    /// Removes a task from the running set.
    fn remove_running(&mut self, id: TaskId)
        ensures
            final(self).running@.len() <= old(self).running@.len(),
            old(self).running@.contains(id) ==> final(self).running@.len() < old(
                self,
            ).running@.len(),
            forall|x: TaskId|
                final(self).running@.contains(x) <==> (old(self).running@.contains(x) && x != id),
            old(self).running@.no_duplicates() ==> final(self).running@.no_duplicates(),
            final(self).config == old(self).config,
            final(self).pool == old(self).pool,
    {
        let mut kept: Vec<TaskId> = Vec::new();
        let mut i: usize = 0;
        while i < self.running.len()
            invariant
                i <= self.running@.len(),
                *self == *old(self),
                kept@.len() <= i,
                kept@.len() + (if old(self).running@.take(i as int).contains(id) {
                    1int
                } else {
                    0int
                }) <= i,
                forall|x: TaskId|
                    kept@.contains(x) <==> (old(self).running@.take(i as int).contains(x) && x
                        != id),
                old(self).running@.no_duplicates() ==> kept@.no_duplicates(),
            decreases self.running@.len() - i,
        {
            let ghost kept_before = kept@;
            let x = self.running[i];
            if x != id {
                kept.push(x);
                proof {
                    assert(kept@ =~= kept_before.push(x));
                    if old(self).running@.no_duplicates() {
                        assert(kept@.no_duplicates()) by {
                            if kept_before.contains(x) {
                                let j = choose|j: int|
                                    0 <= j < kept_before.len() && kept_before[j] == x;
                                assert(old(self).running@.take(i as int).contains(x));
                                let k = choose|k: int|
                                    0 <= k < i && old(self).running@.take(i as int)[k] == x;
                                assert(old(self).running@[k] == x);
                                assert(old(self).running@[i as int] == x);
                                assert(false);
                            }
                            assert(forall|j: int|
                                0 <= j < kept_before.len() ==> kept@[j] == kept_before[j]);
                            assert(kept@.last() == x);
                        }
                    }
                }
            }
            proof {
                assert(old(self).running@.take(i + 1).drop_last() =~= old(self).running@.take(
                    i as int,
                ));
                assert(old(self).running@.take(i + 1).last() == old(self).running@[i as int]);
                assert forall|y: TaskId| #[trigger] old(self).running@.take(i + 1).contains(y)
                    implies (old(self).running@.take(i as int).contains(y) || y == old(
                    self,
                ).running@[i as int]) by {
                    let j = choose|j: int|
                        0 <= j < i + 1 && #[trigger] old(self).running@.take(i + 1)[j] == y;
                    if j < i {
                        assert(old(self).running@.take(i as int)[j] == y);
                    }
                };
                assert forall|y: TaskId| old(self).running@.take(i as int).contains(y)
                    implies #[trigger] old(self).running@.take(i + 1).contains(y) by {
                    let j = choose|j: int|
                        0 <= j < i && #[trigger] old(self).running@.take(i as int)[j] == y;
                    assert(old(self).running@.take(i + 1)[j] == y);
                };
                assert forall|y: TaskId| #[trigger] kept@.contains(y) implies (old(
                    self,
                ).running@.take(i + 1).contains(y) && y != id) by {
                    if x != id && y == x {
                        assert(old(self).running@.take(i + 1).contains(x));
                    }
                };
                assert forall|y: TaskId|
                    old(self).running@.take(i + 1).contains(y) && y != id implies #[trigger] kept@
                    .contains(y) by {
                    if old(self).running@.take(i as int).contains(y) {
                    } else {
                        assert(y == old(self).running@[i as int]);
                        assert(y == x);
                        assert(kept@.last() == x);
                    }
                };
                if x == id {
                    assert(old(self).running@.take(i + 1).contains(id)) by {
                        assert(old(self).running@.take(i + 1)[i as int] == id);
                    }
                }
            }
            i = i + 1;
        }
        proof {
            assert(old(self).running@.take(old(self).running@.len() as int) =~= old(
                self,
            ).running@);
        }
        self.running = kept;
    }

    /// Records a successful run: the task moves to `Completed`, the
    /// permit and lease are released, and newly-ready successors are
    /// promoted.
    pub fn complete(
        &mut self,
        mesh: &mut TaskMesh,
        id: TaskId,
        worker: usize,
        result: TaskResult,
        started_at_ms: u64,
        now_ms: u64,
    ) -> (r: Result<(), OrchestratorError>)
        requires
            old(self).wf(),
            old(mesh).wf(),
            worker < old(self).pool.workers@.len(),
        ensures
            final(self).wf(),
            final(mesh).wf(),
            final(self).config == old(self).config,
            r is Ok <==> (old(mesh).has_task(id) && old(mesh).status_of(id).spec_kind()
                == StatusKind::Running),
            r is Ok ==> final(mesh).nodes@.len() == old(mesh).nodes@.len() && forall|j: int|
                0 <= j < old(mesh).nodes@.len() ==> (#[trigger] final(mesh).nodes@[j]).task.id
                    == old(mesh).nodes@[j].task.id,
            r is Ok ==> forall|x: TaskId|
                x != id && old(mesh).has_task(x) && old(mesh).status_of(x).spec_kind()
                    == StatusKind::Running ==> final(mesh).status_of(x) == old(mesh).status_of(x),
            match r {
                Ok(()) => {
                    &&& final(mesh).status_of(id).spec_kind() == StatusKind::Completed
                    &&& final(mesh).completed_count == old(mesh).completed_count + (
                    if old(mesh).node_of(id).ever_completed {
                        0int
                    } else {
                        1int
                    })
                    &&& !final(self).running@.contains(id)
                    &&& forall|x: TaskId|
                        final(self).running@.contains(x) <==> (old(self).running@.contains(x) && x
                            != id)
                    &&& final(self).running@.len() <= old(self).running@.len()
                },
                Err(OrchestratorError::TaskNotFound(d)) => d == id && !old(mesh).has_task(id),
                Err(OrchestratorError::InvalidState(_)) => old(mesh).has_task(id) && old(
                    mesh,
                ).status_of(id).spec_kind() != StatusKind::Running,
                _ => false,
            },
            r is Err ==> *final(mesh) == *old(mesh) && *final(self) == *old(self),
    {
        let registered = match mesh.get_status(id) {
            Some(_) => true,
            None => false,
        };
        if !registered {
            return Err(OrchestratorError::TaskNotFound(id));
        }
        let running_now = match mesh.get_status(id) {
            Some(st) => st.kind() == StatusKind::Running,
            None => false,
        };
        if !running_now {
            return Err(OrchestratorError::InvalidState("task is not running".to_owned()));
        }
        let status = TaskStatus::Completed {
            started_at_ms,
            completed_at_ms: now_ms,
            result,
        };
        let ghost mesh0c = *mesh;
        match mesh.set_status(id, status) {
            Ok(()) => {},
            Err(e) => {
                proof {
                    // A running task always accepts completion.
                    assert(false);
                }
                return Err(e);
            },
        }
        let ghost m1 = *mesh;
        proof {
            crate::mesh::lemma_update_preserves_ids(*old(mesh), m1, id);
        }
        let duration = if now_ms >= started_at_ms {
            now_ms - started_at_ms
        } else {
            0
        };
        self.pool.release(worker, true, duration);
        self.remove_running(id);
        mesh.promote_ready();
        proof {
            let j = m1.idx_of(id);
            assert(m1.nodes@[j].task.id == id);
            assert(mesh.nodes@[j].task == m1.nodes@[j].task);
            mesh.lemma_idx_unique(id, j);
            assert(mesh.nodes@[j].status == m1.nodes@[j].status);
            assert(forall|p: int|
                0 <= p < m1.nodes@.len() ==> (#[trigger] mesh.nodes@[p]).task.id
                    == m1.nodes@[p].task.id);
            // Running statuses of other tasks survive the completion
            // and the readiness promotion.
            assert forall|x: TaskId|
                x != id && mesh0c.has_task(x) && mesh0c.status_of(x).spec_kind()
                    == StatusKind::Running implies mesh.status_of(x) == mesh0c.status_of(x) by {
                crate::mesh::lemma_other_status_preserved(mesh0c, m1, id, x);
                let xi = m1.idx_of(x);
                assert(m1.nodes@[xi].task.id == x);
                assert(mesh.nodes@[xi].task == m1.nodes@[xi].task);
                assert(mesh.nodes@[xi].status == m1.nodes@[xi].status);
                mesh.lemma_idx_unique(x, xi);
            };
        }
        Ok(())
    }

    /// Records a failed run: the task moves to `Failed` with its error
    /// class and attempt count, and the permit and lease are released.
    pub fn fail(
        &mut self,
        mesh: &mut TaskMesh,
        id: TaskId,
        worker: usize,
        error: String,
        class: ErrorClass,
        attempt: u32,
        now_ms: u64,
    ) -> (r: Result<(), OrchestratorError>)
        requires
            old(self).wf(),
            old(mesh).wf(),
            worker < old(self).pool.workers@.len(),
        ensures
            final(self).wf(),
            final(mesh).wf(),
            final(self).config == old(self).config,
            r is Ok <==> (old(mesh).has_task(id) && old(mesh).status_of(id).spec_kind()
                == StatusKind::Running),
            r is Ok ==> final(mesh).nodes@.len() == old(mesh).nodes@.len() && forall|j: int|
                0 <= j < old(mesh).nodes@.len() ==> (#[trigger] final(mesh).nodes@[j]).task.id
                    == old(mesh).nodes@[j].task.id,
            r is Ok ==> forall|x: TaskId|
                x != id && old(mesh).has_task(x) ==> final(mesh).status_of(x) == old(
                    mesh,
                ).status_of(x),
            match r {
                Ok(()) => {
                    &&& final(mesh).status_of(id) == (TaskStatus::Failed {
                        error,
                        class,
                        attempt,
                        failed_at_ms: now_ms,
                    })
                    &&& final(mesh).completed_count == old(mesh).completed_count
                    &&& !final(self).running@.contains(id)
                    &&& forall|x: TaskId|
                        final(self).running@.contains(x) <==> (old(self).running@.contains(x) && x
                            != id)
                    &&& final(self).running@.len() <= old(self).running@.len()
                },
                Err(OrchestratorError::TaskNotFound(d)) => d == id && !old(mesh).has_task(id),
                Err(OrchestratorError::InvalidState(_)) => old(mesh).has_task(id) && old(
                    mesh,
                ).status_of(id).spec_kind() != StatusKind::Running,
                _ => false,
            },
            r is Err ==> *final(mesh) == *old(mesh) && *final(self) == *old(self),
    {
        let registered = match mesh.get_status(id) {
            Some(_) => true,
            None => false,
        };
        if !registered {
            return Err(OrchestratorError::TaskNotFound(id));
        }
        let running_now = match mesh.get_status(id) {
            Some(st) => st.kind() == StatusKind::Running,
            None => false,
        };
        if !running_now {
            return Err(OrchestratorError::InvalidState("task is not running".to_owned()));
        }
        let status = TaskStatus::Failed { error, class, attempt, failed_at_ms: now_ms };
        let ghost mesh0 = *mesh;
        match mesh.set_status(id, status) {
            Ok(()) => {},
            Err(e) => {
                proof {
                    // A running task always accepts failure.
                    assert(false);
                }
                return Err(e);
            },
        }
        proof {
            crate::mesh::lemma_update_preserves_ids(mesh0, *mesh, id);
            assert forall|x: TaskId| x != id && mesh0.has_task(x) implies mesh.status_of(x)
                == mesh0.status_of(x) by {
                crate::mesh::lemma_other_status_preserved(mesh0, *mesh, id, x);
            };
        }
        self.pool.release(worker, false, 0);
        self.remove_running(id);
        Ok(())
    }

    /// Cancels a task cooperatively: the status becomes `Cancelled`,
    /// the permit leaves the running set, and any worker lease held for
    /// the task returns to idle. Cancelling is idempotent: a task that
    /// is already cancelled, or otherwise absorbed, is left unchanged
    /// and the call reports that nothing happened.
    pub fn cancel(&mut self, mesh: &mut TaskMesh, id: TaskId, reason: String, now_ms: u64) -> (r:
        Result<bool, OrchestratorError>)
        requires
            old(self).wf(),
            old(mesh).wf(),
        ensures
            final(self).wf(),
            final(mesh).wf(),
            final(self).config == old(self).config,
            r is Ok ==> final(mesh).nodes@.len() == old(mesh).nodes@.len() && forall|j: int|
                0 <= j < old(mesh).nodes@.len() ==> (#[trigger] final(mesh).nodes@[j]).task.id
                    == old(mesh).nodes@[j].task.id,
            r is Ok ==> forall|x: TaskId|
                x != id && old(mesh).has_task(x) ==> final(mesh).status_of(x) == old(
                    mesh,
                ).status_of(x),
            match r {
                Ok(changed) => {
                    &&& old(mesh).has_task(id)
                    &&& changed == valid_transition(
                        old(mesh).status_of(id),
                        TaskStatus::Cancelled { reason, cancelled_at_ms: now_ms },
                        old(mesh).node_of(id).task.max_retries,
                    )
                    &&& (changed ==> final(mesh).status_of(id) == (TaskStatus::Cancelled {
                        reason,
                        cancelled_at_ms: now_ms,
                    }))
                    &&& (!changed ==> *final(mesh) == *old(mesh))
                    &&& !final(self).running@.contains(id)
                    &&& forall|x: TaskId|
                        final(self).running@.contains(x) <==> (old(self).running@.contains(x) && x
                            != id)
                    &&& final(self).running@.len() <= old(self).running@.len()
                    &&& (old(self).running@.contains(id) ==> final(self).running@.len() < old(
                        self,
                    ).running@.len())
                    &&& final(mesh).completed_count == old(mesh).completed_count
                    &&& final(self).pool.workers@.len() == old(self).pool.workers@.len()
                    &&& forall|w: int|
                        0 <= w < old(self).pool.workers@.len()
                            ==> #[trigger] final(self).pool.workers@[w] == (
                        if old(self).pool.workers@[w].current_task == Some(id) {
                            WorkerInfo {
                                status: WorkerStatus::Idle,
                                current_task: None,
                                ..old(self).pool.workers@[w]
                            }
                        } else {
                            old(self).pool.workers@[w]
                        })
                },
                Err(OrchestratorError::TaskNotFound(d)) => d == id && !old(mesh).has_task(id)
                    && *final(mesh) == *old(mesh) && *final(self) == *old(self),
                Err(_) => false,
            },
    {
        let status = TaskStatus::Cancelled { reason, cancelled_at_ms: now_ms };
        let allowed = match mesh.can_set_status(id, &status) {
            Some(b) => b,
            None => {
                return Err(OrchestratorError::TaskNotFound(id));
            },
        };
        if allowed {
            let ghost mesh0 = *mesh;
            match mesh.set_status(id, status) {
                Ok(()) => {
                    proof {
                        crate::mesh::lemma_update_preserves_ids(mesh0, *mesh, id);
                        assert forall|x: TaskId| x != id && mesh0.has_task(x)
                            implies mesh.status_of(x) == mesh0.status_of(x) by {
                            crate::mesh::lemma_other_status_preserved(mesh0, *mesh, id, x);
                        };
                    }
                    self.remove_running(id);
                    self.pool.release_lease(id);
                    Ok(true)
                },
                Err(e) => Err(e),
            }
        } else {
            self.remove_running(id);
            self.pool.release_lease(id);
            Ok(false)
        }
    }
}

/// A cancelled task accepts no further transition: cancellation is
/// absorbing, so cancelling twice changes nothing beyond the first
/// call.
pub proof fn lemma_cancel_absorbing(s: TaskStatus, to: TaskStatus, budget: u32)
    ensures
        s.spec_kind() == StatusKind::Cancelled ==> !valid_transition(s, to, budget),
{
}

/// The concurrency bound: a well-formed executor never runs more tasks
/// than it has worker permits.
pub proof fn lemma_worker_bound(e: TaskExecutor)
    requires
        e.wf(),
    ensures
        e.running@.len() <= e.config.max_workers,
{
}

} // verus!
