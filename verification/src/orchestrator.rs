//! The orchestrator facade: lifecycle, submission and cancellation,
//! completion and failure handling with retry arbitration, breakers per
//! backend, and snapshot-based restore on boot.

use vstd::prelude::*;
use crate::breaker::CircuitBreaker;
use crate::config::OrchestratorConfig;
use crate::errors::{ErrorClass, OrchestratorError};
use crate::executor::{ExecutorConfig, TaskExecutor};
use crate::mesh::{count_status, valid_transition, MeshNode, TaskMesh, TaskMeshStatistics};
use crate::scheduler::{BasePolicy, Scheduler, SchedulingHeuristic};
use crate::snapshot::{
    checkpoint_view, clone_checkpoint, enc_mesh_payload, enc_snapshot, prune_checkpoints,
    restore_mesh, spec_checkpoint_cutoff, spec_prune_checkpoints, Checkpoint, SnapshotEngine,
    SnapshotMetadata, SnapshotView, SystemMetricsRecord, SystemState,
};
use crate::trusted::{gzip_of, timestamp_code_of, uuid_text_of};
use crate::wire::{nodes_ok, nodes_view};
use crate::types::{
    ExecutionLayer, StatusKind, Task, TaskDefinition, TaskId, TaskPriority, TaskResult,
    TaskStatus, TaskType, WorkflowStrategy,
};

verus! {

broadcast use vstd::seq_lib::group_seq_properties;

/// Lifecycle states of the orchestrator.
#[derive(Debug, Clone, Copy, PartialEq, Eq, Structural)]
pub enum OrchestratorStatus {
    Initializing,
    Running,
    Paused,
    Shutting,
    Stopped,
    Error,
}

/// The backoff delay that the configuration prescribes for the given
/// attempt, saturating at the integer limit.
pub open spec fn spec_retry_delay_for(cfg: crate::config::RetryConfig, attempt: nat) -> nat {
    let sd = crate::retry::spec_strategy_delay(
        crate::types::BackoffStrategy::Exponential {
            initial_delay_ms: cfg.base_delay_ms,
            max_delay_ms: 300_000u64,
            multiplier: cfg.multiplier,
        },
        attempt,
    );
    if sd > u64::MAX {
        u64::MAX as nat
    } else {
        sd
    }
}

/// The scheduled instant of a retry decision.
pub open spec fn retry_next(d: RetryDecision) -> u64 {
    match d {
        RetryDecision::Retry { next_eligible_ms, .. } => next_eligible_ms,
        RetryDecision::GiveUp => 0,
    }
}

/// The backoff delay of a retry decision.
pub open spec fn retry_delay(d: RetryDecision) -> u64 {
    match d {
        RetryDecision::Retry { delay_ms, .. } => delay_ms,
        RetryDecision::GiveUp => 0,
    }
}

/// What the orchestrator decided about a failed attempt.
#[derive(Debug, Clone, Copy, PartialEq, Eq, Structural)]
pub enum RetryDecision {
    /// Try again once the given instant has been reached.
    Retry { next_eligible_ms: u64, delay_ms: u64 },
    /// The budget is exhausted or the failure is not recoverable.
    GiveUp,
}

/// The default backend advisor: critical tasks stay local, very large
/// high-priority work goes to the simulation backend, other
/// high-priority work to the cluster, and everything else runs locally.
pub fn advise_backend(priority: u8, task_type: &TaskType) -> (r: ExecutionLayer)
    ensures
        r == spec_advise_backend(priority, *task_type),
{
    let class = TaskPriority::from_numeric(priority);
    match class {
        TaskPriority::Critical => ExecutionLayer::Local,
        TaskPriority::High => {
            match task_type {
                TaskType::ExtraLarge => ExecutionLayer::QuantumSim,
                _ => ExecutionLayer::Cluster,
            }
        },
        _ => ExecutionLayer::Local,
    }
}

/// The advisor's choice as a specification.
pub open spec fn spec_advise_backend(priority: u8, task_type: TaskType) -> ExecutionLayer {
    match TaskPriority::spec_from_numeric(priority) {
        TaskPriority::Critical => ExecutionLayer::Local,
        TaskPriority::High => if task_type == TaskType::ExtraLarge {
            ExecutionLayer::QuantumSim
        } else {
            ExecutionLayer::Cluster
        },
        _ => ExecutionLayer::Local,
    }
}

/// The identifiers of the waiting tasks (pending or ready), in node
/// order.
pub open spec fn spec_pending_ids(nodes: Seq<MeshNode>) -> Seq<TaskId>
    decreases nodes.len(),
{
    if nodes.len() == 0 {
        Seq::empty()
    } else {
        spec_pending_ids(nodes.drop_last()) + (
        if nodes.last().status.spec_kind() == StatusKind::Pending || nodes.last().status.spec_kind()
            == StatusKind::Ready {
            seq![nodes.last().task.id]
        } else {
            Seq::empty()
        })
    }
}

/// The identifiers of the failed tasks, in node order.
pub open spec fn spec_failed_ids(nodes: Seq<MeshNode>) -> Seq<TaskId>
    decreases nodes.len(),
{
    if nodes.len() == 0 {
        Seq::empty()
    } else {
        spec_failed_ids(nodes.drop_last()) + (
        if nodes.last().status.spec_kind() == StatusKind::Failed {
            seq![nodes.last().task.id]
        } else {
            Seq::empty()
        })
    }
}

/// The breaker index of a backend.
pub open spec fn spec_layer_index(layer: ExecutionLayer) -> int {
    match layer {
        ExecutionLayer::Local => 0,
        ExecutionLayer::Cluster => 1,
        ExecutionLayer::QuantumSim => 2,
    }
}

/// Returns the breaker index of a backend.
pub fn layer_index(layer: &ExecutionLayer) -> (r: usize)
    ensures
        r == spec_layer_index(*layer),
        r < 3,
{
    match layer {
        ExecutionLayer::Local => 0,
        ExecutionLayer::Cluster => 1,
        ExecutionLayer::QuantumSim => 2,
    }
}

/// The orchestrator: mesh, scheduler, executor, breakers, the snapshot
/// engine, and an in-memory store of snapshot payloads and checkpoints.
pub struct OrchestratorCore {
    pub config: OrchestratorConfig,
    pub status: OrchestratorStatus,
    pub mesh: TaskMesh,
    pub scheduler: Scheduler,
    pub executor: TaskExecutor,
    pub engine: SnapshotEngine,
    pub breakers: Vec<CircuitBreaker>,
    pub snapshot_store: Vec<(String, Vec<u8>)>,
    pub checkpoint_store: Vec<Checkpoint>,
}

impl OrchestratorCore {
    /// Well-formedness of the facade: mesh, executor and scheduler are
    /// well-formed, every running task is registered, the engine's
    /// counter mirrors the mesh's, and one breaker exists per backend.
    pub open spec fn wf(self) -> bool {
        &&& self.mesh.wf()
        &&& self.executor.wf()
        &&& self.scheduler.wf()
        &&& forall|p: int|
            0 <= p < self.executor.running@.len() ==> self.mesh.has_task(
                #[trigger] self.executor.running@[p],
            )
        &&& forall|p: int|
            0 <= p < self.executor.running@.len() ==> self.mesh.status_of(
                #[trigger] self.executor.running@[p],
            ).spec_kind() == StatusKind::Running
        &&& self.engine.completed_tasks_count == self.mesh.completed_count
        &&& self.engine.checkpoint_config.tasks_per_checkpoint > 0
        &&& self.breakers@.len() == 3
    }

    /// Creates an orchestrator in the `Initializing` state. Fails
    /// exactly when the configuration is invalid.
    pub fn new(config: OrchestratorConfig, now_ms: u64) -> (r: Result<
        OrchestratorCore,
        OrchestratorError,
    >)
        ensures
            r is Ok <==> config.spec_valid(),
            r matches Ok(c) ==> {
                &&& c.wf()
                &&& c.status == OrchestratorStatus::Initializing
                &&& c.config == config
                &&& c.mesh.nodes@.len() == 0
                &&& c.mesh.completed_count == 0
                &&& c.executor.running@.len() == 0
                &&& c.snapshot_store@.len() == 0
                &&& c.checkpoint_store@.len() == 0
            },
    {
        match config.validate() {
            Ok(()) => {},
            Err(m) => {
                return Err(OrchestratorError::ConfigurationError(m));
            },
        }
        let mesh = TaskMesh::new();
        let scheduler = Scheduler::new(
            SchedulingHeuristic::Hybrid {
                primary: BasePolicy::CriticalRatio,
                secondary: BasePolicy::Priority,
                confidence_threshold_tenths: 7,
            },
        );
        let exec_config = ExecutorConfig {
            max_workers: config.max_workers,
            default_timeout_ms: config.execution.default_timeout_ms,
            heartbeat_interval_ms: 30_000,
            working_dir: config.execution.working_dir.clone(),
        };
        let executor = TaskExecutor::new(exec_config, now_ms);
        let engine = SnapshotEngine::new(
            crate::config::SnapshotConfig {
                interval_seconds: config.backup.snapshot_config.interval_seconds,
                max_snapshots: config.backup.snapshot_config.max_snapshots,
                compression_enabled: config.backup.snapshot_config.compression_enabled,
                snapshot_prefix: config.backup.snapshot_config.snapshot_prefix.clone(),
            },
            crate::config::CheckpointConfig {
                tasks_per_checkpoint: config.backup.checkpoint_config.tasks_per_checkpoint,
                retention_days: config.backup.checkpoint_config.retention_days,
                auto_cleanup: config.backup.checkpoint_config.auto_cleanup,
            },
        );
        let mut breakers: Vec<CircuitBreaker> = Vec::new();
        breakers.push(CircuitBreaker::new("local".to_owned(), 5, 60_000));
        breakers.push(CircuitBreaker::new("cluster".to_owned(), 5, 60_000));
        breakers.push(CircuitBreaker::new("simulation".to_owned(), 5, 60_000));
        Ok(
            OrchestratorCore {
                config,
                status: OrchestratorStatus::Initializing,
                mesh,
                scheduler,
                executor,
                engine,
                breakers,
                snapshot_store: Vec::new(),
                checkpoint_store: Vec::new(),
            },
        )
    }

    /// Starts the orchestrator. Only the lifecycle status changes.
    pub fn start(&mut self)
        requires
            old(self).wf(),
        ensures
            final(self).wf(),
            final(self).status == OrchestratorStatus::Running,
            final(self).mesh == old(self).mesh,
            final(self).executor == old(self).executor,
            final(self).config == old(self).config,
            final(self).scheduler == old(self).scheduler,
            final(self).engine == old(self).engine,
            final(self).breakers == old(self).breakers,
            final(self).snapshot_store == old(self).snapshot_store,
            final(self).checkpoint_store == old(self).checkpoint_store,
    {
        self.status = OrchestratorStatus::Running;
    }

    /// Stops the orchestrator: every in-flight task is cancelled and a
    /// final checkpoint is recorded.
    pub fn stop(&mut self, now_ms: u64)
        requires
            old(self).wf(),
        ensures
            final(self).wf(),
            final(self).status == OrchestratorStatus::Stopped,
            final(self).executor.running@.len() == 0,
            forall|x: TaskId|
                old(self).executor.running@.contains(x) ==> final(self).mesh.has_task(x) && (
                #[trigger] final(self).mesh.status_of(x)).spec_kind() == StatusKind::Cancelled,
            final(self).checkpoint_store@.len() == old(self).checkpoint_store@.len() + 1,
            forall|i: int|
                0 <= i < old(self).checkpoint_store@.len()
                    ==> #[trigger] final(self).checkpoint_store@[i]
                    == old(self).checkpoint_store@[i],
            final(self).checkpoint_store@.last().task_count
                == final(self).engine.completed_tasks_count,
            final(self).checkpoint_store@.last().timestamp_ms == now_ms,
            final(self).checkpoint_store@.last().last_completed_task is None,
            final(self).checkpoint_store@.last().system_state.active_tasks@.len() == 0,
            final(self).checkpoint_store@.last().system_state.pending_tasks@ == spec_pending_ids(
                final(self).mesh.nodes@,
            ),
            final(self).checkpoint_store@.last().system_state.failed_tasks@ == spec_failed_ids(
                final(self).mesh.nodes@,
            ),
            final(self).snapshot_store@ == old(self).snapshot_store@,
            final(self).config == old(self).config,
    {
        self.status = OrchestratorStatus::Shutting;
        while self.executor.running.len() > 0
            invariant
                self.checkpoint_store@ == old(self).checkpoint_store@,
                self.snapshot_store@ == old(self).snapshot_store@,
                self.config == old(self).config,
                self.engine == old(self).engine,
                self.breakers@ == old(self).breakers@,
                self.mesh.wf(),
                self.executor.wf(),
                self.scheduler.wf(),
                self.scheduler == old(self).scheduler,
                forall|p: int|
                    0 <= p < self.executor.running@.len() ==> self.mesh.has_task(
                        #[trigger] self.executor.running@[p],
                    ),
                forall|p: int|
                    0 <= p < self.executor.running@.len() ==> self.mesh.status_of(
                        #[trigger] self.executor.running@[p],
                    ).spec_kind() == StatusKind::Running,
                forall|p: int|
                    0 <= p < self.executor.running@.len() ==> old(self).executor.running@.contains(
                        #[trigger] self.executor.running@[p],
                    ),
                forall|x: TaskId|
                    old(self).executor.running@.contains(x) && !self.executor.running@.contains(x)
                        ==> self.mesh.has_task(x) && (#[trigger] self.mesh.status_of(
                        x,
                    )).spec_kind() == StatusKind::Cancelled,
                self.engine.completed_tasks_count == self.mesh.completed_count,
                self.engine.checkpoint_config.tasks_per_checkpoint > 0,
                self.breakers@.len() == 3,
            decreases self.executor.running@.len(),
        {
            let id = self.executor.running[0];
            let ghost mesh_before = self.mesh;
            let ghost running_before = self.executor.running@;
            let r = self.executor.cancel(
                &mut self.mesh,
                id,
                "orchestrator stopping".to_owned(),
                now_ms,
            );
            proof {
                assert(running_before.contains(id)) by {
                    assert(running_before[0] == id);
                }
                match r {
                    Ok(changed) => {
                        // The cancelled task was running, so the
                        // cancelling transition was legal and taken.
                        assert(changed);
                        assert forall|p: int|
                            0 <= p < self.executor.running@.len() implies self.mesh.has_task(
                            #[trigger] self.executor.running@[p],
                        ) && self.mesh.status_of(self.executor.running@[p]).spec_kind()
                            == StatusKind::Running by {
                            let x = self.executor.running@[p];
                            assert(self.executor.running@.contains(x));
                            assert(running_before.contains(x) && x != id);
                            let q = choose|q: int|
                                0 <= q < running_before.len() && #[trigger] running_before[q] == x;
                            lemma_has_task_preserved(mesh_before, self.mesh, x);
                        };
                        assert forall|p: int|
                            0 <= p < self.executor.running@.len() implies old(
                            self,
                        ).executor.running@.contains(#[trigger] self.executor.running@[p]) by {
                            let x = self.executor.running@[p];
                            assert(self.executor.running@.contains(x));
                            assert(running_before.contains(x));
                            let q = choose|q: int|
                                0 <= q < running_before.len() && #[trigger] running_before[q] == x;
                        };
                        assert forall|x: TaskId|
                            old(self).executor.running@.contains(x)
                                && !self.executor.running@.contains(x) implies self.mesh.has_task(
                            x,
                        ) && (#[trigger] self.mesh.status_of(x)).spec_kind()
                            == StatusKind::Cancelled by {
                            if x == id {
                                lemma_has_task_preserved(mesh_before, self.mesh, id);
                                assert(self.mesh.status_of(id).spec_kind()
                                    == StatusKind::Cancelled);
                            } else if running_before.contains(x) {
                                assert(self.executor.running@.contains(x));
                                assert(false);
                            } else {
                                assert(mesh_before.has_task(x) && mesh_before.status_of(
                                    x,
                                ).spec_kind() == StatusKind::Cancelled);
                                assert(self.mesh.status_of(x) == mesh_before.status_of(x));
                                lemma_has_task_preserved(mesh_before, self.mesh, x);
                            }
                        };
                        assert(self.executor.running@.len() < running_before.len());
                    },
                    Err(e) => {
                        // Unreachable: every running task is registered.
                        assert(mesh_before.has_task(id));
                        assert(false);
                    },
                }
            }
        }
        let state = self.collect_system_state();
        let cp = self.engine.checkpoint_now(state, "final checkpoint".to_owned(), now_ms);
        self.checkpoint_store.push(cp);
        self.status = OrchestratorStatus::Stopped;
    }

    /// Submits a task: it is registered in the mesh and enqueued with
    /// the scheduler.
    pub fn submit(&mut self, task: Task) -> (r: Result<TaskId, OrchestratorError>)
        requires
            old(self).wf(),
        ensures
            final(self).wf(),
            r matches Ok(id) ==> {
                &&& id == task.id
                &&& final(self).mesh.has_task(id)
                &&& !old(self).mesh.has_task(id)
                &&& final(self).mesh.nodes@.len() == old(self).mesh.nodes@.len() + 1
                &&& final(self).mesh.completed_count == old(self).mesh.completed_count
            },
            r matches Err(e) ==> *final(self) == *old(self) && (old(self).mesh.has_task(task.id)
                || exists|j: int|
                0 <= j < task.dependencies@.len() && !old(self).mesh.has_task(
                    #[trigger] task.dependencies@[j],
                )),
    {
        let ghost mesh_before = self.mesh;
        let sched_info = (
            task.priority,
            task.created_at_ms,
            task.timeout_ms,
            clone_definition_kind(&task.definition),
        );
        let tid = task.id;
        match self.mesh.add_task(task) {
            Ok(id) => {
                proof {
                    assert forall|p: int|
                        0 <= p < self.executor.running@.len() implies self.mesh.has_task(
                        #[trigger] self.executor.running@[p],
                    ) && self.mesh.status_of(self.executor.running@[p]).spec_kind()
                        == StatusKind::Running by {
                        let x = self.executor.running@[p];
                        assert(mesh_before.has_task(x));
                        let j = choose|j: int|
                            0 <= j < mesh_before.nodes@.len()
                                && #[trigger] mesh_before.nodes@[j].task.id == x;
                        assert(self.mesh.nodes@[j] == mesh_before.nodes@[j]);
                        assert(self.mesh.nodes@[j].task.id == x);
                        self.mesh.lemma_idx_unique(x, j);
                        mesh_before.lemma_idx_unique(x, j);
                    };
                }
                let stub = Task {
                    id: tid,
                    name: String::new(),
                    definition: sched_info.3,
                    dependencies: Vec::new(),
                    priority: sched_info.0,
                    metadata: Vec::new(),
                    created_at_ms: sched_info.1,
                    timeout_ms: sched_info.2,
                    max_retries: 0,
                    tags: Vec::new(),
                };
                self.scheduler.schedule_task(&stub);
                Ok(id)
            },
            Err(e) => Err(e),
        }
    }

    /// Cancels a task cooperatively; cancelling an already cancelled
    /// task changes nothing.
    pub fn cancel(&mut self, id: TaskId, now_ms: u64) -> (r: Result<bool, OrchestratorError>)
        requires
            old(self).wf(),
        ensures
            final(self).wf(),
            r matches Ok(changed) ==> {
                &&& old(self).mesh.has_task(id)
                &&& (old(self).mesh.status_of(id).spec_kind() == StatusKind::Cancelled
                    ==> !changed)
                &&& (changed ==> final(self).mesh.status_of(id).spec_kind()
                    == StatusKind::Cancelled)
                &&& (!changed ==> final(self).mesh == old(self).mesh)
            },
            r matches Err(OrchestratorError::TaskNotFound(d)) ==> d == id && !old(self).mesh.has_task(id),
            r is Err ==> r matches Err(OrchestratorError::TaskNotFound(_)),
    {
        let ghost mesh_before = self.mesh;
        let r = self.executor.cancel(&mut self.mesh, id, "cancelled by user".to_owned(), now_ms);
        match r {
            Ok(changed) => {
                proof {
                    assert forall|p: int|
                        0 <= p < self.executor.running@.len() implies self.mesh.has_task(
                        #[trigger] self.executor.running@[p],
                    ) && self.mesh.status_of(self.executor.running@[p]).spec_kind()
                        == StatusKind::Running by {
                        let x = self.executor.running@[p];
                        assert(self.executor.running@.contains(x));
                        assert(old(self).executor.running@.contains(x) && x != id);
                        let q = choose|q: int|
                            0 <= q < old(self).executor.running@.len() && #[trigger] old(
                                self,
                            ).executor.running@[q] == x;
                        lemma_has_task_preserved(mesh_before, self.mesh, x);
                    };
                }
                Ok(changed)
            },
            Err(e) => Err(e),
        }
    }

    /// Records a successful task run: the task completes, dependents
    /// are promoted, the engine counts the completion exactly when it
    /// is the task's first, and a checkpoint may fire.
    pub fn handle_success(
        &mut self,
        id: TaskId,
        worker: usize,
        result: TaskResult,
        started_at_ms: u64,
        now_ms: u64,
    ) -> (r: Result<Option<Checkpoint>, OrchestratorError>)
        requires
            old(self).wf(),
            worker < old(self).executor.pool.workers@.len(),
        ensures
            final(self).wf(),
            (r is Ok) <==> (old(self).mesh.has_task(id) && old(self).mesh.status_of(
                id,
            ).spec_kind() == StatusKind::Running),
            r is Err ==> *final(self) == *old(self),
            match r {
                Ok(cp) => {
                    &&& final(self).mesh.status_of(id).spec_kind() == StatusKind::Completed
                    &&& final(self).engine.completed_tasks_count
                        == final(self).mesh.completed_count
                    &&& final(self).mesh.completed_count == old(self).mesh.completed_count + (
                    if old(self).mesh.node_of(id).ever_completed {
                        0int
                    } else {
                        1int
                    })
                    &&& ((cp is Some) <==> (!old(self).mesh.node_of(id).ever_completed
                        && (old(self).mesh.completed_count + 1) % (
                        old(self).engine.checkpoint_config.tasks_per_checkpoint as int) == 0))
                    &&& (cp matches Some(c) ==> {
                        &&& c.task_count == final(self).mesh.completed_count
                        &&& c.last_completed_task == Some(id)
                        &&& c.timestamp_ms == now_ms
                        &&& final(self).checkpoint_store@.map_values(
                            |k: Checkpoint| checkpoint_view(k),
                        ) == (if old(self).engine.checkpoint_config.auto_cleanup {
                            spec_prune_checkpoints(
                                old(self).checkpoint_store@.map_values(
                                    |k: Checkpoint| checkpoint_view(k),
                                ).push(checkpoint_view(c)),
                                spec_checkpoint_cutoff(
                                    old(self).engine.checkpoint_config.retention_days,
                                    now_ms,
                                ),
                            )
                        } else {
                            old(self).checkpoint_store@.map_values(
                                |k: Checkpoint| checkpoint_view(k),
                            ).push(checkpoint_view(c))
                        })
                    })
                    &&& (cp is None ==> final(self).checkpoint_store@
                        == old(self).checkpoint_store@)
                    &&& final(self).snapshot_store@ == old(self).snapshot_store@
                    &&& final(self).status == old(self).status
                    &&& final(self).config == old(self).config
                    &&& final(self).breakers@ == old(self).breakers@
                },
                Err(OrchestratorError::TaskNotFound(d)) => d == id && !old(self).mesh.has_task(id),
                Err(OrchestratorError::InvalidState(_)) => old(self).mesh.has_task(id)
                    && old(self).mesh.status_of(id).spec_kind() != StatusKind::Running,
                Err(_) => false,
            },
    {
        let first = match self.mesh.ever_completed_of(id) {
            Some(b) => !b,
            None => {
                return Err(OrchestratorError::TaskNotFound(id));
            },
        };
        let ghost mesh_before = self.mesh;
        let r = self.executor.complete(&mut self.mesh, id, worker, result, started_at_ms, now_ms);
        match r {
            Ok(()) => {},
            Err(e) => {
                return Err(e);
            },
        }
        proof {
            assert forall|p: int|
                0 <= p < self.executor.running@.len() implies self.mesh.has_task(
                #[trigger] self.executor.running@[p],
            ) && self.mesh.status_of(self.executor.running@[p]).spec_kind()
                == StatusKind::Running by {
                let x = self.executor.running@[p];
                assert(self.executor.running@.contains(x));
                assert(old(self).executor.running@.contains(x) && x != id);
                let q = choose|q: int|
                    0 <= q < old(self).executor.running@.len() && #[trigger] old(
                        self,
                    ).executor.running@[q] == x;
                lemma_has_task_preserved(mesh_before, self.mesh, x);
            };
        }
        if first {
            let state = self.collect_system_state();
            let cp = self.engine.on_task_completed(
                id,
                state,
                "completion checkpoint".to_owned(),
                now_ms,
            );
            match cp {
                Some(c) => {
                    let ghost store0 = self.checkpoint_store@;
                    let c2 = clone_checkpoint(&c);
                    self.checkpoint_store.push(c2);
                    proof {
                        assert(self.checkpoint_store@.map_values(
                            |k: Checkpoint| checkpoint_view(k),
                        ) =~= store0.map_values(|k: Checkpoint| checkpoint_view(k)).push(
                            checkpoint_view(c),
                        ));
                    }
                    if self.engine.checkpoint_config.auto_cleanup {
                        let days = self.engine.checkpoint_config.retention_days;
                        prune_checkpoints(&mut self.checkpoint_store, days, now_ms);
                    }
                    Ok(Some(c))
                },
                None => Ok(None),
            }
        } else {
            Ok(None)
        }
    }

    /// Records a failed task run and arbitrates the retry: the task is
    /// retried exactly when its failure class is recoverable and the
    /// attempt count is below its budget; the backoff delay follows the
    /// configured exponential schedule.
    pub fn handle_failure(
        &mut self,
        id: TaskId,
        worker: usize,
        error: String,
        class: ErrorClass,
        attempt: u32,
        now_ms: u64,
    ) -> (r: Result<RetryDecision, OrchestratorError>)
        requires
            old(self).wf(),
            worker < old(self).executor.pool.workers@.len(),
            attempt >= 1,
        ensures
            final(self).wf(),
            (r is Ok) <==> (old(self).mesh.has_task(id) && old(self).mesh.status_of(
                id,
            ).spec_kind() == StatusKind::Running),
            r is Err ==> *final(self) == *old(self),
            match r {
                Err(OrchestratorError::TaskNotFound(d)) => d == id && !old(self).mesh.has_task(id),
                Err(OrchestratorError::InvalidState(_)) => old(self).mesh.has_task(id)
                    && old(self).mesh.status_of(id).spec_kind() != StatusKind::Running,
                Err(_) => false,
                Ok(_) => true,
            },
            r is Ok ==> final(self).checkpoint_store@ == old(self).checkpoint_store@
                && final(self).snapshot_store@ == old(self).snapshot_store@ && final(self).status
                == old(self).status && final(self).config == old(self).config
                && final(self).breakers@ == old(self).breakers@ && final(self).engine
                == old(self).engine,
            r matches Ok(d) ==> {
                &&& old(self).mesh.has_task(id)
                &&& final(self).mesh.status_of(id) == (TaskStatus::Failed {
                    error,
                    class,
                    attempt,
                    failed_at_ms: now_ms,
                })
                &&& ((d is Retry) <==> (class.spec_recoverable() && attempt < old(self).mesh.node_of(id).task.max_retries))
                &&& ((d is Retry) ==> retry_delay(d) as nat == spec_retry_delay_for(
                    old(self).config.retry,
                    attempt as nat,
                ))
                &&& ((d is Retry) ==> retry_next(d) == (if now_ms + retry_delay(d) > u64::MAX {
                    u64::MAX as int
                } else {
                    now_ms + retry_delay(d)
                }))
            },
    {
        let budget = match self.mesh.get_task(id) {
            Some(t) => t.max_retries,
            None => {
                return Err(OrchestratorError::TaskNotFound(id));
            },
        };
        let ghost mesh_before = self.mesh;
        let r = self.executor.fail(&mut self.mesh, id, worker, error, class, attempt, now_ms);
        match r {
            Ok(()) => {},
            Err(e) => {
                return Err(e);
            },
        }
        proof {
            assert forall|p: int|
                0 <= p < self.executor.running@.len() implies self.mesh.has_task(
                #[trigger] self.executor.running@[p],
            ) && self.mesh.status_of(self.executor.running@[p]).spec_kind()
                == StatusKind::Running by {
                let x = self.executor.running@[p];
                assert(self.executor.running@.contains(x));
                assert(old(self).executor.running@.contains(x) && x != id);
                let q = choose|q: int|
                    0 <= q < old(self).executor.running@.len() && #[trigger] old(
                        self,
                    ).executor.running@[q] == x;
                lemma_has_task_preserved(mesh_before, self.mesh, x);
            };
        }
        if class.recoverable() && attempt < budget {
            let policy = crate::retry::RetryPolicy {
                max_attempts: budget,
                backoff_strategy: crate::types::BackoffStrategy::Exponential {
                    initial_delay_ms: self.config.retry.base_delay_ms,
                    max_delay_ms: 300_000,
                    multiplier: self.config.retry.multiplier,
                },
                retry_conditions: Vec::new(),
            };
            let delay = policy.delay_for_attempt(attempt);
            let next = if now_ms > u64::MAX - delay {
                u64::MAX
            } else {
                now_ms + delay
            };
            Ok(RetryDecision::Retry { next_eligible_ms: next, delay_ms: delay })
        } else {
            Ok(RetryDecision::GiveUp)
        }
    }

    /// Re-arms a failed task for another attempt: the transition to
    /// `Ready` succeeds exactly when the task exists and its current
    /// status admits it.
    pub fn rearm(&mut self, id: TaskId) -> (r: Result<(), OrchestratorError>)
        requires
            old(self).wf(),
        ensures
            final(self).wf(),
            final(self).executor == old(self).executor,
            final(self).engine == old(self).engine,
            final(self).config == old(self).config,
            final(self).status == old(self).status,
            final(self).scheduler == old(self).scheduler,
            final(self).breakers == old(self).breakers,
            final(self).snapshot_store == old(self).snapshot_store,
            final(self).checkpoint_store == old(self).checkpoint_store,
            (r is Ok) <==> (old(self).mesh.has_task(id) && valid_transition(
                old(self).mesh.status_of(id),
                TaskStatus::Ready,
                old(self).mesh.node_of(id).task.max_retries,
            )),
            match r {
                Ok(()) => {
                    &&& final(self).mesh.status_of(id) == TaskStatus::Ready
                    &&& final(self).mesh.nodes@.len() == old(self).mesh.nodes@.len()
                    &&& forall|x: TaskId|
                        x != id && old(self).mesh.has_task(x) ==> final(self).mesh.has_task(x)
                            && #[trigger] final(self).mesh.status_of(x) == old(self).mesh.status_of(
                            x,
                        )
                    &&& final(self).mesh.completed_count == old(self).mesh.completed_count
                    &&& final(self).mesh.edges@ == old(self).mesh.edges@
                },
                Err(OrchestratorError::TaskNotFound(d)) => d == id && !old(self).mesh.has_task(id)
                    && *final(self) == *old(self),
                Err(OrchestratorError::InvalidTransition { from, to }) => {
                    &&& old(self).mesh.has_task(id)
                    &&& from == old(self).mesh.status_of(id).spec_kind()
                    &&& to == StatusKind::Ready
                    &&& *final(self) == *old(self)
                },
                Err(_) => false,
            },
    {
        let ghost mesh_before = self.mesh;
        let r = self.mesh.set_status(id, TaskStatus::Ready);
        match r {
            Ok(()) => {
                proof {
                    crate::mesh::lemma_update_preserves_ids(mesh_before, self.mesh, id);
                    assert forall|x: TaskId| x != id && mesh_before.has_task(x)
                        implies self.mesh.has_task(x) && #[trigger] self.mesh.status_of(x)
                        == mesh_before.status_of(x) by {
                        lemma_has_task_preserved(mesh_before, self.mesh, x);
                        crate::mesh::lemma_other_status_preserved(mesh_before, self.mesh, id, x);
                    };
                    assert forall|p: int|
                        0 <= p < self.executor.running@.len() implies self.mesh.has_task(
                        #[trigger] self.executor.running@[p],
                    ) && self.mesh.status_of(self.executor.running@[p]).spec_kind()
                        == StatusKind::Running by {
                        let x = self.executor.running@[p];
                        assert(self.executor.running@.contains(x));
                        lemma_has_task_preserved(mesh_before, self.mesh, x);
                        if x == id {
                            // A running task admits no transition to
                            // `Ready`, so the update cannot have touched
                            // a running entry.
                            assert(mesh_before.status_of(id).spec_kind() == StatusKind::Running);
                            assert(false);
                        } else {
                            crate::mesh::lemma_other_status_preserved(
                                mesh_before,
                                self.mesh,
                                id,
                                x,
                            );
                        }
                    };
                }
                Ok(())
            },
            Err(e) => Err(e),
        }
    }

    /// Asks the breaker of a backend to admit one call; an open
    /// breaker sheds the load and the caller fails fast with
    /// `ExternalUnavailable`.
    pub fn backend_gate(&mut self, layer: &ExecutionLayer, now_ms: u64) -> (r: Result<
        (),
        OrchestratorError,
    >)
        requires
            old(self).wf(),
        ensures
            final(self).wf(),
            final(self).mesh == old(self).mesh,
            final(self).executor == old(self).executor,
            r is Ok <==> crate::breaker::breaker_admits(
                old(self).breakers@[spec_layer_index(*layer)],
                now_ms,
            ),
    {
        let idx = layer_index(layer);
        let admitted = self.breakers[idx].try_acquire(now_ms);
        proof {
            crate::breaker::lemma_breaker_admission(old(self).breakers@[idx as int], now_ms);
        }
        if admitted {
            Ok(())
        } else {
            Err(
                OrchestratorError::ExternalUnavailable {
                    service: self.breakers[idx].name.clone(),
                    open: true,
                },
            )
        }
    }

    /// Reports a backend call's outcome to its breaker: the breaker of
    /// the named backend takes exactly one success or failure step, the
    /// others are untouched.
    pub fn report_backend_outcome(&mut self, layer: &ExecutionLayer, success: bool, now_ms: u64)
        requires
            old(self).wf(),
        ensures
            final(self).wf(),
            final(self).mesh == old(self).mesh,
            final(self).executor == old(self).executor,
            final(self).scheduler == old(self).scheduler,
            final(self).engine == old(self).engine,
            final(self).config == old(self).config,
            final(self).status == old(self).status,
            final(self).snapshot_store == old(self).snapshot_store,
            final(self).checkpoint_store == old(self).checkpoint_store,
            final(self).breakers@.len() == old(self).breakers@.len(),
            forall|i: int|
                0 <= i < old(self).breakers@.len() && i != spec_layer_index(*layer)
                    ==> #[trigger] final(self).breakers@[i] == old(self).breakers@[i],
            success ==> final(self).breakers@[spec_layer_index(*layer)]
                == crate::breaker::spec_record_success(
                old(self).breakers@[spec_layer_index(*layer)],
                now_ms,
            ),
            !success ==> final(self).breakers@[spec_layer_index(*layer)]
                == crate::breaker::spec_record_failure(
                old(self).breakers@[spec_layer_index(*layer)],
                now_ms,
            ),
    {
        let idx = layer_index(layer);
        if success {
            self.breakers[idx].record_success(now_ms);
        } else {
            self.breakers[idx].record_failure(now_ms);
        }
    }

    /// Counts the tasks of the mesh by status.
    pub fn stats(&self) -> (r: TaskMeshStatistics)
        requires
            self.wf(),
            self.mesh.nodes@.len() <= u64::MAX,
        ensures
            r.total_tasks == self.mesh.nodes@.len(),
            r.total_dependencies == self.mesh.edges@.len(),
            r.pending == count_status(self.mesh.nodes@, StatusKind::Pending),
            r.ready == count_status(self.mesh.nodes@, StatusKind::Ready),
            r.running == count_status(self.mesh.nodes@, StatusKind::Running),
            r.completed == count_status(self.mesh.nodes@, StatusKind::Completed),
            r.failed == count_status(self.mesh.nodes@, StatusKind::Failed),
            r.cancelled == count_status(self.mesh.nodes@, StatusKind::Cancelled),
            r.paused == count_status(self.mesh.nodes@, StatusKind::Paused),
    {
        self.mesh.statistics()
    }

    /// The registered task identifiers.
    pub fn list_tasks(&self) -> (r: Vec<TaskId>)
        requires
            self.wf(),
        ensures
            r@.len() == self.mesh.nodes@.len(),
            forall|j: int|
                0 <= j < r@.len() ==> #[trigger] r@[j] == self.mesh.nodes@[j].task.id,
    {
        let mut out: Vec<TaskId> = Vec::new();
        let mut i: usize = 0;
        while i < self.mesh.nodes.len()
            invariant
                i <= self.mesh.nodes@.len(),
                out@.len() == i,
                forall|j: int|
                    0 <= j < i ==> #[trigger] out@[j] == self.mesh.nodes@[j].task.id,
            decreases self.mesh.nodes@.len() - i,
        {
            out.push(self.mesh.nodes[i].task.id);
            i = i + 1;
        }
        out
    }

    /// The content a snapshot taken of `m` at `now_ms` shows, apart
    /// from its freshly drawn identifier `sid`.
    pub open spec fn spec_snapshot_view(
        m: TaskMesh,
        metrics: SystemMetricsRecord,
        sid: u128,
        now_ms: u64,
    ) -> SnapshotView {
        SnapshotView {
            id: sid,
            timestamp_ms: now_ms,
            version: "0.1.0"@,
            mesh_bytes: enc_mesh_payload(nodes_view(m.nodes@), m.edges@, m.completed_count),
            metrics: metrics,
            metadata: SnapshotMetadata {
                total_tasks: m.nodes@.len() as u64,
                completed_tasks: count_status(m.nodes@, StatusKind::Completed) as u64,
                failed_tasks: count_status(m.nodes@, StatusKind::Failed) as u64,
                running_tasks: count_status(m.nodes@, StatusKind::Running) as u64,
                size_bytes: enc_mesh_payload(
                    nodes_view(m.nodes@),
                    m.edges@,
                    m.completed_count,
                ).len() as u64,
                compression_permille: None,
            },
        }
    }

    /// The object key a snapshot is stored under.
    pub open spec fn spec_snapshot_key(
        prefix: Seq<char>,
        now_ms: u64,
        sid: u128,
        compressed: bool,
    ) -> Seq<char> {
        prefix + "/snapshot_"@ + timestamp_code_of(now_ms as int) + "_"@ + uuid_text_of(sid)
            + ".json"@ + if compressed {
            ".gz"@
        } else {
            Seq::<char>::empty()
        }
    }

    /// Builds the serialized, optionally compressed snapshot of the
    /// current mesh together with its object key.
    #[verifier::rlimit(100)]
    fn build_stored_snapshot(&mut self, metrics: SystemMetricsRecord, now_ms: u64) -> (r: (
        String,
        Vec<u8>,
    ))
        requires
            old(self).mesh.nodes@.len() <= u64::MAX,
            now_ms < 100_000_000_000_000,
            !old(self).engine.snapshotting,
        ensures
            final(self).mesh == old(self).mesh,
            final(self).scheduler == old(self).scheduler,
            final(self).executor == old(self).executor,
            final(self).config == old(self).config,
            final(self).status == old(self).status,
            final(self).breakers@ == old(self).breakers@,
            final(self).snapshot_store@ == old(self).snapshot_store@,
            final(self).checkpoint_store@ == old(self).checkpoint_store@,
            !final(self).engine.snapshotting,
            final(self).engine.completed_tasks_count == old(self).engine.completed_tasks_count,
            final(self).engine.snapshot_config == old(self).engine.snapshot_config,
            final(self).engine.checkpoint_config == old(self).engine.checkpoint_config,
            exists|sid: u128|
                {
                    &&& r.0@ == Self::spec_snapshot_key(
                        old(self).config.backup.snapshot_config.snapshot_prefix@,
                        now_ms,
                        sid,
                        old(self).config.backup.snapshot_config.compression_enabled,
                    )
                    &&& r.1@ == (if old(self).config.backup.snapshot_config.compression_enabled {
                        gzip_of(
                            enc_snapshot(
                                Self::spec_snapshot_view(old(self).mesh, metrics, sid, now_ms),
                            ),
                        )
                    } else {
                        enc_snapshot(Self::spec_snapshot_view(old(self).mesh, metrics, sid, now_ms))
                    })
                },
    {
        let snap = self.engine.build_snapshot(
            &self.mesh,
            metrics,
            "0.1.0".to_owned(),
            now_ms,
        );
        let compressed = self.config.backup.snapshot_config.compression_enabled;
        let key = crate::snapshot::build_snapshot_key(
            self.config.backup.snapshot_config.snapshot_prefix.as_str(),
            now_ms,
            snap.id,
            compressed,
        );
        let payload = crate::snapshot::encode_snapshot(&snap);
        let ghost payload_bytes = payload@;
        let stored = if compressed {
            crate::trusted::gzip_bytes(&payload)
        } else {
            payload
        };
        proof {
            let sv = Self::spec_snapshot_view(old(self).mesh, metrics, snap.id, now_ms);
            let av = crate::snapshot::snapshot_view(snap);
            assert(av.id == sv.id);
            assert(av.timestamp_ms == sv.timestamp_ms);
            assert(av.version == sv.version);
            assert(av.mesh_bytes == sv.mesh_bytes);
            assert(av.metrics == sv.metrics);
            assert(av.metadata.size_bytes == sv.metadata.size_bytes);
            assert(av.metadata =~= sv.metadata);
            assert(av =~= sv);
            assert(payload_bytes == enc_snapshot(sv));
            assert(key@ == Self::spec_snapshot_key(
                old(self).config.backup.snapshot_config.snapshot_prefix@,
                now_ms,
                snap.id,
                old(self).config.backup.snapshot_config.compression_enabled,
            ));
            assert(stored@ == (if old(self).config.backup.snapshot_config.compression_enabled {
                gzip_of(enc_snapshot(sv))
            } else {
                enc_snapshot(sv)
            }));
        }
        (key, stored)
    }

    /// Takes a full snapshot now: the serialized mesh is stored under
    /// its object key, optionally compressed, and old snapshots beyond
    /// the retention limit are dropped from the front.
    #[verifier::rlimit(100)]
    pub fn snapshot_now(&mut self, metrics: SystemMetricsRecord, now_ms: u64) -> (r: Result<
        String,
        OrchestratorError,
    >)
        requires
            old(self).wf(),
            old(self).mesh.nodes@.len() <= u64::MAX,
            now_ms < 100_000_000_000_000,
            !old(self).engine.snapshotting,
            old(self).engine.snapshot_config.max_snapshots >= 1,
        ensures
            final(self).wf(),
            final(self).mesh == old(self).mesh,
            r is Ok ==> final(self).snapshot_store@.len() == (
            if old(self).snapshot_store@.len() + 1 > old(self).engine.snapshot_config.max_snapshots {
                old(self).engine.snapshot_config.max_snapshots as int
            } else {
                old(self).snapshot_store@.len() + 1int
            }),
            r matches Ok(key) ==> exists|sid: u128|
                {
                    &&& key@ == Self::spec_snapshot_key(
                        old(self).config.backup.snapshot_config.snapshot_prefix@,
                        now_ms,
                        sid,
                        old(self).config.backup.snapshot_config.compression_enabled,
                    )
                    &&& final(self).snapshot_store@.len() >= 1
                    &&& final(self).snapshot_store@.last().0@ == key@
                    &&& final(self).snapshot_store@.last().1@ == (
                    if old(self).config.backup.snapshot_config.compression_enabled {
                        gzip_of(
                            enc_snapshot(
                                Self::spec_snapshot_view(old(self).mesh, metrics, sid, now_ms),
                            ),
                        )
                    } else {
                        enc_snapshot(Self::spec_snapshot_view(old(self).mesh, metrics, sid, now_ms))
                    })
                },
            r is Ok ==> forall|i: int|
                0 <= i < final(self).snapshot_store@.len() - 1
                    ==> #[trigger] final(self).snapshot_store@[i] == old(self).snapshot_store@[i + (
                old(self).snapshot_store@.len() + 1 - final(self).snapshot_store@.len())],
    {
        let (key, stored) = self.build_stored_snapshot(metrics, now_ms);
        let key_copy = key.clone();
        let max = self.engine.snapshot_config.max_snapshots as usize;
        store_with_retention(&mut self.snapshot_store, key_copy, stored, max);
        Ok(key)
    }
}

/// A stripped definition of the same kind, for estimate classification.
fn clone_definition_kind(d: &TaskDefinition) -> (r: TaskDefinition)
    ensures
        match d {
            TaskDefinition::Command(_) => r matches TaskDefinition::Command(_),
            TaskDefinition::PythonScript { .. } => r matches TaskDefinition::PythonScript { .. },
            TaskDefinition::RustFunction { .. } => r matches TaskDefinition::RustFunction { .. },
            TaskDefinition::HttpRequest { .. } => r matches TaskDefinition::HttpRequest { .. },
            TaskDefinition::Workflow { .. } => r matches TaskDefinition::Workflow { .. },
        },
{
    match d {
        TaskDefinition::Command(_) => TaskDefinition::Command(String::new()),
        TaskDefinition::PythonScript { .. } => TaskDefinition::PythonScript {
            script: String::new(),
            args: Vec::new(),
            env: Vec::new(),
        },
        TaskDefinition::RustFunction { .. } => TaskDefinition::RustFunction {
            function_name: String::new(),
            args: String::new(),
        },
        TaskDefinition::HttpRequest { .. } => TaskDefinition::HttpRequest {
            method: String::new(),
            url: String::new(),
            headers: Vec::new(),
            body: None,
        },
        TaskDefinition::Workflow { .. } => TaskDefinition::Workflow {
            tasks: Vec::new(),
            execution_strategy: WorkflowStrategy::Sequential,
        },
    }
}

/// Appends one stored snapshot and drops the oldest entries beyond
/// `max`, keeping the newest `max` in order.
fn store_with_retention(store: &mut Vec<(String, Vec<u8>)>, key: String, stored: Vec<u8>, max: usize)
    requires
        max >= 1,
    ensures
        final(store)@.len() == (if old(store)@.len() + 1 > max {
            max as int
        } else {
            old(store)@.len() + 1int
        }),
        final(store)@.len() >= 1,
        final(store)@.last().0@ == key@,
        final(store)@.last().1@ == stored@,
        forall|i: int|
            0 <= i < final(store)@.len() - 1 ==> #[trigger] final(store)@[i] == old(store)@[i + (
            old(store)@.len() + 1 - final(store)@.len())],
{
    store.push((key, stored));
    let ghost pushed_seq = store@;
    let ghost pushed_len = store@.len();
    while store.len() > max
        invariant
            max >= 1,
            pushed_len > max ==> max <= store@.len() <= pushed_len,
            pushed_len <= max ==> store@.len() == pushed_len,
            store@.len() >= 1,
            forall|j: int|
                0 <= j < store@.len() ==> #[trigger] store@[j] == pushed_seq[j + (pushed_len
                    - store@.len())],
        decreases store@.len(),
    {
        let ghost pre = store@;
        store.remove(0);
        proof {
            assert forall|j: int| 0 <= j < store@.len() implies #[trigger] store@[j]
                == pushed_seq[j + (pushed_len - store@.len())] by {
                assert(store@[j] == pre[j + 1]);
            };
        }
    }
    proof {
        let fl = store@.len() as int;
        assert(store@[fl - 1] == pushed_seq[pushed_len - 1]);
        assert(store@.last() == pushed_seq.last());
        assert forall|i: int| 0 <= i < fl - 1 implies #[trigger] store@[i] == old(store)@[i + (old(
            store,
        )@.len() + 1 - fl)] by {
            assert(store@[i] == pushed_seq[i + (pushed_len - fl)]);
        };
    }
}

/// A mesh whose node identifiers are unchanged per index keeps every
/// registered task registered.
pub proof fn lemma_has_task_preserved(before: TaskMesh, after: TaskMesh, id: TaskId)
    requires
        before.has_task(id),
        after.nodes@.len() == before.nodes@.len(),
        forall|j: int|
            0 <= j < before.nodes@.len() ==> (#[trigger] after.nodes@[j]).task.id
                == before.nodes@[j].task.id,
    ensures
        after.has_task(id),
{
    let j = choose|j: int|
        0 <= j < before.nodes@.len() && #[trigger] before.nodes@[j].task.id == id;
    assert(after.nodes@[j].task.id == id);
}

/// Status views determine the status kind.
proof fn lemma_kind_from_view(x: TaskStatus, y: TaskStatus)
    requires
        crate::wire::status_view(x) == crate::wire::status_view(y),
    ensures
        x.spec_kind() == y.spec_kind(),
{
}

/// Node views determine the count of ever-completed nodes.
proof fn lemma_count_ever_from_views(a: Seq<MeshNode>, b: Seq<MeshNode>)
    requires
        nodes_view(a) == nodes_view(b),
    ensures
        crate::mesh::count_ever_completed(a) == crate::mesh::count_ever_completed(b),
    decreases a.len(),
{
    assert(nodes_view(a).len() == a.len());
    assert(nodes_view(b).len() == b.len());
    if a.len() > 0 {
        assert(nodes_view(a.drop_last()) =~= nodes_view(a).drop_last());
        assert(nodes_view(b.drop_last()) =~= nodes_view(b).drop_last());
        lemma_count_ever_from_views(a.drop_last(), b.drop_last());
        assert(nodes_view(a).last() == crate::wire::node_view(a.last()));
        assert(nodes_view(b).last() == crate::wire::node_view(b.last()));
    }
}

/// Two meshes showing the same node views, edges and counter are
/// equally well-formed: well-formedness reads nothing beyond the view.
pub proof fn lemma_wf_from_views(a: TaskMesh, b: TaskMesh)
    requires
        nodes_view(a.nodes@) == nodes_view(b.nodes@),
        a.edges@ == b.edges@,
        a.completed_count == b.completed_count,
        a.wf(),
    ensures
        b.wf(),
{
    assert(nodes_view(a.nodes@).len() == a.nodes@.len());
    assert(nodes_view(b.nodes@).len() == b.nodes@.len());
    assert forall|i: int| 0 <= i < a.nodes@.len() implies (#[trigger] b.nodes@[i]).task.id
        == a.nodes@[i].task.id && b.nodes@[i].status.spec_kind() == a.nodes@[i].status.spec_kind()
        && b.nodes@[i].ever_completed == a.nodes@[i].ever_completed by {
        assert(nodes_view(a.nodes@)[i] == crate::wire::node_view(a.nodes@[i]));
        assert(nodes_view(b.nodes@)[i] == crate::wire::node_view(b.nodes@[i]));
        lemma_kind_from_view(a.nodes@[i].status, b.nodes@[i].status);
    };
    assert(b.ids() =~= a.ids());
    assert forall|id: TaskId| #[trigger] b.has_task(id) <==> a.has_task(id) by {
        if a.has_task(id) {
            let i = choose|i: int|
                0 <= i < a.nodes@.len() && #[trigger] a.nodes@[i].task.id == id;
            assert(b.nodes@[i].task.id == id);
        }
        if b.has_task(id) {
            let i = choose|i: int|
                0 <= i < b.nodes@.len() && #[trigger] b.nodes@[i].task.id == id;
            assert(a.nodes@[i].task.id == id);
        }
    };
    lemma_count_ever_from_views(a.nodes@, b.nodes@);
}

impl OrchestratorCore {
    /// Collects the recoverable system state: running, pending and
    /// failed task identifiers with the configuration version.
    pub fn collect_system_state(&self) -> (r: SystemState)
        ensures
            r.active_tasks@ == self.executor.running@,
            r.pending_tasks@ == spec_pending_ids(self.mesh.nodes@),
            r.failed_tasks@ == spec_failed_ids(self.mesh.nodes@),
            r.configuration_hash@ == self.config.general.version@,
    {
        let mut pending: Vec<TaskId> = Vec::new();
        let mut failed: Vec<TaskId> = Vec::new();
        let mut i: usize = 0;
        while i < self.mesh.nodes.len()
            invariant
                i <= self.mesh.nodes@.len(),
                pending@ == spec_pending_ids(self.mesh.nodes@.take(i as int)),
                failed@ == spec_failed_ids(self.mesh.nodes@.take(i as int)),
            decreases self.mesh.nodes@.len() - i,
        {
            proof {
                assert(self.mesh.nodes@.take(i as int + 1).drop_last() =~= self.mesh.nodes@.take(
                    i as int,
                ));
                assert(self.mesh.nodes@.take(i as int + 1).last() == self.mesh.nodes@[i as int]);
            }
            let k = self.mesh.nodes[i].status.kind();
            if k == StatusKind::Pending || k == StatusKind::Ready {
                pending.push(self.mesh.nodes[i].task.id);
            } else if k == StatusKind::Failed {
                failed.push(self.mesh.nodes[i].task.id);
            }
            i = i + 1;
        }
        proof {
            assert(self.mesh.nodes@.take(self.mesh.nodes@.len() as int) =~= self.mesh.nodes@);
        }
        SystemState {
            active_tasks: clone_ids(&self.executor.running),
            pending_tasks: pending,
            failed_tasks: failed,
            configuration_hash: self.config.general.version.clone(),
        }
    }

    /// Whether the stored snapshot and checkpoint records describe the
    /// mesh `m`: the newest snapshot payload is the (optionally
    /// compressed, as its key says) encoding of a snapshot of `m`, and
    /// the newest checkpoint, if any, counts what `m` counts.
    pub open spec fn spec_restorable(
        store: Seq<(String, Vec<u8>)>,
        cpstore: Seq<Checkpoint>,
        m: TaskMesh,
        sid: u128,
        ts: u64,
        ver: Seq<char>,
        met: SystemMetricsRecord,
        md: SnapshotMetadata,
    ) -> bool {
        let sv = SnapshotView {
            id: sid,
            timestamp_ms: ts,
            version: ver,
            mesh_bytes: enc_mesh_payload(nodes_view(m.nodes@), m.edges@, m.completed_count),
            metrics: met,
            metadata: md,
        };
        &&& store.len() > 0
        &&& m.wf()
        &&& nodes_ok(nodes_view(m.nodes@))
        &&& crate::wire::fits_len(m.edges@.len())
        &&& crate::snapshot::snapshot_ok(sv)
        &&& store.last().1@ == (if crate::strutil::contains_sub(
            vstd::utf8::encode_utf8(store.last().0@),
            vstd::utf8::encode_utf8(".gz"@),
        ) {
            gzip_of(enc_snapshot(sv))
        } else {
            enc_snapshot(sv)
        })
        &&& (cpstore.len() > 0 ==> cpstore.last().task_count == m.completed_count)
    }

    /// Restores the mesh and the completion counter from the most
    /// recent stored snapshot and checkpoint, as on boot. Returns which
    /// of the two were found. The restored mesh is admitted only if it
    /// is well-formed; a checkpoint whose counter disagrees with the
    /// restored snapshot is rejected. Without a snapshot the checkpoint
    /// alone cannot rebuild the mesh, so its counter is reported but
    /// never adopted.
    pub fn restore_latest(&mut self) -> (r: Result<(bool, bool), OrchestratorError>)
        requires
            old(self).wf(),
            old(self).executor.running@.len() == 0,
        ensures
            final(self).wf(),
            final(self).executor == old(self).executor,
            final(self).status == old(self).status,
            final(self).config == old(self).config,
            final(self).scheduler == old(self).scheduler,
            final(self).breakers@ == old(self).breakers@,
            final(self).snapshot_store@ == old(self).snapshot_store@,
            final(self).checkpoint_store@ == old(self).checkpoint_store@,
            r matches Ok(f) ==> f.0 == (old(self).snapshot_store@.len() > 0) && f.1 == (old(
                self,
            ).checkpoint_store@.len() > 0),
            old(self).snapshot_store@.len() == 0 ==> r is Ok && final(self).mesh == old(self).mesh
                && final(self).engine == old(self).engine,
            r is Err ==> final(self).mesh == old(self).mesh && final(self).engine == old(
                self,
            ).engine,
            forall|m: TaskMesh, sid: u128, ts: u64, ver: Seq<char>, met: SystemMetricsRecord, md: SnapshotMetadata|
                #[trigger] Self::spec_restorable(
                    old(self).snapshot_store@,
                    old(self).checkpoint_store@,
                    m,
                    sid,
                    ts,
                    ver,
                    met,
                    md,
                ) ==> r is Ok && nodes_view(final(self).mesh.nodes@) == nodes_view(m.nodes@)
                    && final(self).mesh.edges@ == m.edges@ && final(self).mesh.completed_count
                    == m.completed_count && final(self).engine.completed_tasks_count
                    == m.completed_count,
    {
        let ghost store0 = self.snapshot_store@;
        let ghost cpstore0 = self.checkpoint_store@;
        let cp_found = self.checkpoint_store.len() > 0;
        if self.snapshot_store.len() == 0 {
            return Ok((false, cp_found));
        }
        let idx = self.snapshot_store.len() - 1;
        let compressed = {
            let entry = &self.snapshot_store[idx];
            is_gz_key(&entry.0)
        };
        let rawopt = if compressed {
            crate::trusted::gunzip_bytes(&self.snapshot_store[idx].1)
        } else {
            Some(clone_bytes(&self.snapshot_store[idx].1))
        };
        let raw = match rawopt {
            Some(v) => v,
            None => {
                proof {
                    assert forall|m: TaskMesh, sid: u128, ts: u64, ver: Seq<char>, met: SystemMetricsRecord, md: SnapshotMetadata|
                        !Self::spec_restorable(store0, cpstore0, m, sid, ts, ver, met, md) by {
                        if Self::spec_restorable(store0, cpstore0, m, sid, ts, ver, met, md) {
                            assert(false);
                        }
                    };
                }
                return Err(
                    OrchestratorError::PersistFailed("snapshot payload is corrupt".to_owned()),
                );
            },
        };
        let ghost raw_bytes = raw@;
        let snapopt = crate::snapshot::decode_snapshot(&raw);
        let snap = match snapopt {
            Some(s) => s,
            None => {
                proof {
                    assert forall|m: TaskMesh, sid: u128, ts: u64, ver: Seq<char>, met: SystemMetricsRecord, md: SnapshotMetadata|
                        !Self::spec_restorable(store0, cpstore0, m, sid, ts, ver, met, md) by {
                        if Self::spec_restorable(store0, cpstore0, m, sid, ts, ver, met, md) {
                            assert(false);
                        }
                    };
                }
                return Err(
                    OrchestratorError::PersistFailed("snapshot payload is corrupt".to_owned()),
                );
            },
        };
        let meshopt = restore_mesh(&snap.mesh_bytes);
        let mesh = match meshopt {
            Some(m) => m,
            None => {
                proof {
                    assert forall|m: TaskMesh, sid: u128, ts: u64, ver: Seq<char>, met: SystemMetricsRecord, md: SnapshotMetadata|
                        !Self::spec_restorable(store0, cpstore0, m, sid, ts, ver, met, md) by {
                        if Self::spec_restorable(store0, cpstore0, m, sid, ts, ver, met, md) {
                            assert(false);
                        }
                    };
                }
                return Err(OrchestratorError::PersistFailed("mesh payload is corrupt".to_owned()));
            },
        };
        if !mesh.check_wf() {
            proof {
                assert forall|m: TaskMesh, sid: u128, ts: u64, ver: Seq<char>, met: SystemMetricsRecord, md: SnapshotMetadata|
                    !Self::spec_restorable(store0, cpstore0, m, sid, ts, ver, met, md) by {
                    if Self::spec_restorable(store0, cpstore0, m, sid, ts, ver, met, md) {
                        lemma_wf_from_views(m, mesh);
                        assert(false);
                    }
                };
            }
            return Err(
                OrchestratorError::PersistFailed("restored mesh is inconsistent".to_owned()),
            );
        }
        if cp_found {
            let cidx = self.checkpoint_store.len() - 1;
            if self.checkpoint_store[cidx].task_count != mesh.completed_count {
                proof {
                    assert forall|m: TaskMesh, sid: u128, ts: u64, ver: Seq<char>, met: SystemMetricsRecord, md: SnapshotMetadata|
                        !Self::spec_restorable(store0, cpstore0, m, sid, ts, ver, met, md) by {
                        if Self::spec_restorable(store0, cpstore0, m, sid, ts, ver, met, md) {
                            assert(false);
                        }
                    };
                }
                return Err(
                    OrchestratorError::PersistFailed(
                        "checkpoint counter disagrees with the snapshot".to_owned(),
                    ),
                );
            }
        }
        let count = mesh.completed_count;
        self.mesh = mesh;
        self.engine.restore_counter(count);
        Ok((true, cp_found))
    }
}

/// Copies a vector of identifiers.
fn clone_ids(v: &Vec<TaskId>) -> (r: Vec<TaskId>)
    ensures
        r@ == v@,
{
    let mut out: Vec<TaskId> = Vec::new();
    let mut i: usize = 0;
    while i < v.len()
        invariant
            i <= v@.len(),
            out@ == v@.take(i as int),
        decreases v@.len() - i,
    {
        out.push(v[i]);
        proof {
            assert(out@ =~= v@.take(i + 1));
        }
        i = i + 1;
    }
    proof {
        assert(v@.take(v@.len() as int) =~= v@);
    }
    out
}

/// Copies a byte vector.
fn clone_bytes(v: &Vec<u8>) -> (r: Vec<u8>)
    ensures
        r@ == v@,
{
    let mut out: Vec<u8> = Vec::new();
    let mut i: usize = 0;
    while i < v.len()
        invariant
            i <= v@.len(),
            out@ == v@.take(i as int),
        decreases v@.len() - i,
    {
        out.push(v[i]);
        proof {
            assert(out@ =~= v@.take(i + 1));
        }
        i = i + 1;
    }
    proof {
        assert(v@.take(v@.len() as int) =~= v@);
    }
    out
}

/// Whether a key names a compressed payload.
fn is_gz_key(key: &String) -> (r: bool)
    ensures
        r == crate::strutil::contains_sub(
            vstd::utf8::encode_utf8(key@),
            vstd::utf8::encode_utf8(".gz"@),
        ),
{
    crate::strutil::str_contains(key.as_str(), ".gz")
}

} // verus!
