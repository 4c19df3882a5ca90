//! Core data model: tasks, task definitions, statuses, workers, and the
//! small enumerations shared across the orchestrator.

use vstd::prelude::*;
use crate::errors::ErrorClass;

verus! {

/// Opaque 128-bit task identifier.
pub type TaskId = u128;

/// Task priority in the range 0..=100, where 100 is the most urgent.
pub type Priority = u8;

/// The kind of a task status, without its payload.
#[derive(Debug, Clone, Copy, PartialEq, Eq, Structural)]
pub enum StatusKind {
    Pending,
    Ready,
    Running,
    Completed,
    Failed,
    Cancelled,
    Paused,
}

/// Coarse priority classes derived from the numeric priority.
#[derive(Debug, Clone, Copy, PartialEq, Eq, Structural)]
pub enum TaskPriority {
    Low,
    Medium,
    High,
    Critical,
}

impl TaskPriority {
    /// Classifies a numeric priority into a coarse class.
    pub fn from_numeric(p: u8) -> (r: TaskPriority)
        ensures
            r == Self::spec_from_numeric(p),
    {
        if p >= 90 {
            TaskPriority::Critical
        } else if p >= 70 {
            TaskPriority::High
        } else if p >= 30 {
            TaskPriority::Medium
        } else {
            TaskPriority::Low
        }
    }

    pub open spec fn spec_from_numeric(p: u8) -> TaskPriority {
        if p >= 90 {
            TaskPriority::Critical
        } else if p >= 70 {
            TaskPriority::High
        } else if p >= 30 {
            TaskPriority::Medium
        } else {
            TaskPriority::Low
        }
    }
}

/// Size classes for tasks, by estimated effort.
#[derive(Debug, Clone, Copy, PartialEq, Eq, Structural)]
pub enum TaskType {
    Small,
    Medium,
    Large,
    ExtraLarge,
}

/// The kind of a dependency edge. Only `Hard` edges participate in the
/// readiness predicate; the others annotate scheduling order.
#[derive(Debug, Clone, Copy, PartialEq, Eq, Structural)]
pub enum DependencyType {
    Hard,
    Soft,
    Resource,
    Data,
}

/// Execution status reported by a backend for a single run.
#[derive(Debug, Clone, Copy, PartialEq, Eq, Structural)]
pub enum TaskExecutionStatus {
    Started,
    InProgress,
    Success,
    Failed,
    Cancelled,
    Timeout,
}

/// The execution backends known to the orchestrator.
#[derive(Debug, Clone, Copy, PartialEq, Eq, Structural, Hash)]
pub enum ExecutionLayer {
    Local,
    Cluster,
    QuantumSim,
}

/// Health of a backend.
#[derive(Debug, Clone, Copy, PartialEq, Eq, Structural)]
pub enum HealthStatus {
    Healthy,
    Degraded,
    Unhealthy,
    Unknown,
}

/// Status of a cluster node.
#[derive(Debug, Clone, Copy, PartialEq, Eq, Structural)]
pub enum NodeStatus {
    Active,
    Inactive,
    Maintenance,
    Failed,
}

/// Load balancing strategies for the cluster backend.
#[derive(Debug, Clone, Copy, PartialEq, Eq, Structural)]
pub enum LoadBalancingStrategy {
    RoundRobin,
    LeastConnections,
    ResourceBased,
    Custom,
}

/// Load balancer settings for the cluster backend.
#[derive(Debug, Clone)]
pub struct LoadBalancerConfig {
    pub strategy: LoadBalancingStrategy,
    pub health_check_interval: u64,
}

/// Fault tolerance settings for the cluster backend.
#[derive(Debug, Clone)]
pub struct FaultToleranceConfig {
    pub max_retries: u32,
    pub retry_delay_ms: u64,
    pub failover_enabled: bool,
}

/// Strategies for driving a composite workflow.
#[derive(Debug, Clone, Copy, PartialEq, Eq, Structural)]
pub enum WorkflowStrategy {
    Sequential,
    Parallel,
    DAG,
}

/// Backoff strategies between retry attempts.
#[derive(Debug, Clone, PartialEq)]
pub enum BackoffStrategy {
    Fixed { delay_ms: u64 },
    Linear { initial_delay_ms: u64, increment_ms: u64, max_delay_ms: u64 },
    Exponential { initial_delay_ms: u64, max_delay_ms: u64, multiplier: u32 },
}

/// Conditions under which a failed run may be retried.
#[derive(Debug, Clone, PartialEq)]
pub enum RetryCondition {
    ExitCode(Vec<i32>),
    Timeout,
    ResourceUnavailable,
    NetworkError,
    StderrContains(Vec<String>),
}

/// Kinds of system events recorded by the store.
#[derive(Debug, Clone, Copy, PartialEq, Eq, Structural)]
pub enum EventType {
    TaskSubmitted,
    TaskScheduled,
    TaskStarted,
    TaskCompleted,
    TaskFailed,
    TaskCancelled,
    CheckpointCreated,
    CheckpointRestored,
    WorkerStarted,
    WorkerStopped,
    SystemStarted,
    SystemStopped,
}

/// Status of a worker lease.
#[derive(Debug, Clone, Copy, PartialEq, Eq, Structural)]
pub enum WorkerStatus {
    Idle,
    Busy,
    Unavailable,
    Stopped,
}

/// Cumulative statistics of one worker.
#[derive(Debug, Clone, PartialEq)]
pub struct WorkerStats {
    pub tasks_completed: u64,
    pub tasks_failed: u64,
    pub total_execution_time_ms: u64,
    pub average_task_time_ms: u64,
    pub last_error: Option<String>,
}

impl WorkerStats {
    /// A fresh worker has no history.
    pub fn new() -> (r: WorkerStats)
        ensures
            r.tasks_completed == 0,
            r.tasks_failed == 0,
            r.total_execution_time_ms == 0,
            r.average_task_time_ms == 0,
            r.last_error is None,
    {
        WorkerStats {
            tasks_completed: 0,
            tasks_failed: 0,
            total_execution_time_ms: 0,
            average_task_time_ms: 0,
            last_error: None,
        }
    }
}

/// Information about a single worker lease.
#[derive(Debug, Clone)]
pub struct WorkerInfo {
    pub id: u64,
    pub status: WorkerStatus,
    pub current_task: Option<TaskId>,
    pub stats: WorkerStats,
    pub last_heartbeat_ms: u64,
}

/// The durable store bindings the orchestrator can be configured with.
#[derive(Debug, Clone, PartialEq)]
pub enum StorageBackend {
    SQLite(String),
    PostgreSQL(String),
    Redis(String),
    Memory,
}

/// Resources granted to one task execution. CPU is measured in
/// milli-cores to avoid fractional arithmetic.
#[derive(Debug, Clone, PartialEq)]
pub struct ResourceAllocation {
    pub cpu_millicores: u64,
    pub memory_bytes: u64,
    pub time_limit_ms: Option<u64>,
    pub scheduling_priority: Priority,
}

impl ResourceAllocation {
    /// The standard grant: one core, one gibibyte, one hour.
    pub fn standard() -> (r: ResourceAllocation)
        ensures
            r.cpu_millicores == 1000,
            r.memory_bytes == 0x4000_0000,
            r.time_limit_ms == Some(3_600_000u64),
            r.scheduling_priority == 50,
    {
        ResourceAllocation {
            cpu_millicores: 1000,
            memory_bytes: 0x4000_0000,
            time_limit_ms: Some(3_600_000),
            scheduling_priority: 50,
        }
    }
}

/// Measured resource use of a finished execution. Percentages are
/// stored in per-mille to stay within integer arithmetic.
#[derive(Debug, Clone, PartialEq)]
pub struct ExecutionMetrics {
    pub execution_time_ms: u64,
    pub cpu_permille: u32,
    pub memory_usage: u64,
    pub network_read: u64,
    pub network_write: u64,
    pub disk_read: u64,
    pub disk_write: u64,
}

impl ExecutionMetrics {
    /// Metrics of a run that has not measured anything.
    pub fn zero() -> (r: ExecutionMetrics)
        ensures
            r.execution_time_ms == 0,
            r.cpu_permille == 0,
            r.memory_usage == 0,
            r.network_read == 0 && r.network_write == 0,
            r.disk_read == 0 && r.disk_write == 0,
    {
        ExecutionMetrics {
            execution_time_ms: 0,
            cpu_permille: 0,
            memory_usage: 0,
            network_read: 0,
            network_write: 0,
            disk_read: 0,
            disk_write: 0,
        }
    }
}

/// Outcome of one task execution: exit status, captured output and
/// structured output, plus the measured metrics.
#[derive(Debug, Clone, PartialEq)]
pub struct TaskResult {
    pub exit_code: i32,
    pub stdout: String,
    pub stderr: String,
    pub output_data: Option<String>,
    pub metrics: ExecutionMetrics,
}

/// One step of a nested workflow: a named shell command.
#[derive(Debug, Clone, PartialEq)]
pub struct SubTask {
    pub name: String,
    pub command: String,
}

/// What a task does: one of the supported definition variants.
#[derive(Debug, Clone, PartialEq)]
pub enum TaskDefinition {
    /// A shell command line.
    Command(String),
    /// A script with arguments and extra environment entries.
    PythonScript { script: String, args: Vec<String>, env: Vec<(String, String)> },
    /// A typed function call with JSON-encoded arguments.
    RustFunction { function_name: String, args: String },
    /// An HTTP request.
    HttpRequest { method: String, url: String, headers: Vec<(String, String)>, body: Option<String> },
    /// A nested workflow of tasks driven by a strategy.
    Workflow { tasks: Vec<SubTask>, execution_strategy: WorkflowStrategy },
}

/// Execution status of a task inside the mesh.
#[derive(Debug, Clone, PartialEq)]
pub enum TaskStatus {
    /// Registered, dependencies not yet satisfied.
    Pending,
    /// All hard predecessors completed; eligible for dispatch.
    Ready,
    /// Dispatched to a worker.
    Running { worker: u64, started_at_ms: u64 },
    /// Finished successfully.
    Completed { started_at_ms: u64, completed_at_ms: u64, result: TaskResult },
    /// Finished unsuccessfully on the recorded attempt.
    Failed { error: String, class: ErrorClass, attempt: u32, failed_at_ms: u64 },
    /// Cancelled cooperatively.
    Cancelled { reason: String, cancelled_at_ms: u64 },
    /// Paused temporarily.
    Paused { reason: String, paused_at_ms: u64 },
}

impl TaskStatus {
    /// The kind of this status, without payload.
    pub open spec fn spec_kind(self) -> StatusKind {
        match self {
            TaskStatus::Pending => StatusKind::Pending,
            TaskStatus::Ready => StatusKind::Ready,
            TaskStatus::Running { .. } => StatusKind::Running,
            TaskStatus::Completed { .. } => StatusKind::Completed,
            TaskStatus::Failed { .. } => StatusKind::Failed,
            TaskStatus::Cancelled { .. } => StatusKind::Cancelled,
            TaskStatus::Paused { .. } => StatusKind::Paused,
        }
    }

    /// Returns the kind of this status.
    pub fn kind(&self) -> (r: StatusKind)
        ensures
            r == self.spec_kind(),
    {
        match self {
            TaskStatus::Pending => StatusKind::Pending,
            TaskStatus::Ready => StatusKind::Ready,
            TaskStatus::Running { .. } => StatusKind::Running,
            TaskStatus::Completed { .. } => StatusKind::Completed,
            TaskStatus::Failed { .. } => StatusKind::Failed,
            TaskStatus::Cancelled { .. } => StatusKind::Cancelled,
            TaskStatus::Paused { .. } => StatusKind::Paused,
        }
    }

    /// Whether this status can never change again. A `Failed` status is
    /// only absorbing once its retry budget is exhausted, which is
    /// decided by the mesh; here `Failed` counts as final in the sense
    /// of "the run has ended".
    pub open spec fn spec_is_final(self) -> bool {
        match self {
            TaskStatus::Completed { .. } => true,
            TaskStatus::Failed { .. } => true,
            TaskStatus::Cancelled { .. } => true,
            _ => false,
        }
    }

    /// Whether the task run has ended (completed, failed or cancelled).
    pub fn is_final(&self) -> (r: bool)
        ensures
            r == self.spec_is_final(),
    {
        match self {
            TaskStatus::Completed { .. } => true,
            TaskStatus::Failed { .. } => true,
            TaskStatus::Cancelled { .. } => true,
            _ => false,
        }
    }

    /// Whether the task is currently running.
    pub fn is_active(&self) -> (r: bool)
        ensures
            r == (self.spec_kind() == StatusKind::Running),
    {
        match self {
            TaskStatus::Running { .. } => true,
            _ => false,
        }
    }

    /// Whether the task may be dispatched from this status.
    pub fn can_execute(&self) -> (r: bool)
        ensures
            r == (self.spec_kind() == StatusKind::Ready || self.spec_kind() == StatusKind::Paused),
    {
        match self {
            TaskStatus::Ready => true,
            TaskStatus::Paused { .. } => true,
            _ => false,
        }
    }
}

/// A unit of work with its declared predecessors and execution limits.
#[derive(Debug, Clone, PartialEq)]
pub struct Task {
    pub id: TaskId,
    pub name: String,
    pub definition: TaskDefinition,
    pub dependencies: Vec<TaskId>,
    pub priority: Priority,
    pub metadata: Vec<(String, String)>,
    pub created_at_ms: u64,
    pub timeout_ms: Option<u64>,
    pub max_retries: u32,
    pub tags: Vec<String>,
}

impl Task {
    /// Creates a task with a fresh identifier, medium priority and a
    /// default retry budget of three attempts.
    pub fn new(name: String, definition: TaskDefinition, dependencies: Vec<TaskId>) -> (r: Task)
        ensures
            r.name == name,
            r.definition == definition,
            r.dependencies == dependencies,
            r.priority == 50,
            r.metadata@ =~= Seq::<(String, String)>::empty(),
            r.timeout_ms is None,
            r.max_retries == 3,
            r.tags@ =~= Seq::<String>::empty(),
    {
        Task {
            id: crate::trusted::fresh_id(),
            name,
            definition,
            dependencies,
            priority: 50,
            metadata: Vec::new(),
            created_at_ms: crate::trusted::now_millis(),
            timeout_ms: None,
            max_retries: 3,
            tags: Vec::new(),
        }
    }

    /// Sets the priority, clamped to the supported range.
    pub fn with_priority(self, priority: Priority) -> (r: Task)
        ensures
            r == (Task { priority: if priority > 100 { 100u8 } else { priority }, ..self }),
    {
        let p: u8 = if priority > 100 { 100 } else { priority };
        Task { priority: p, ..self }
    }

    /// Sets the execution timeout.
    pub fn with_timeout(self, timeout_ms: u64) -> (r: Task)
        ensures
            r == (Task { timeout_ms: Some(timeout_ms), ..self }),
    {
        Task { timeout_ms: Some(timeout_ms), ..self }
    }

    /// Sets the maximum number of attempts.
    pub fn with_max_retries(self, max_retries: u32) -> (r: Task)
        ensures
            r == (Task { max_retries, ..self }),
    {
        Task { max_retries, ..self }
    }

    /// Appends one metadata entry.
    pub fn with_metadata(self, key: String, value: String) -> (r: Task)
        ensures
            r.metadata@ == self.metadata@.push((key, value)),
            r.id == self.id && r.name == self.name && r.definition == self.definition
                && r.dependencies == self.dependencies && r.priority == self.priority
                && r.created_at_ms == self.created_at_ms && r.timeout_ms == self.timeout_ms
                && r.max_retries == self.max_retries && r.tags == self.tags,
    {
        let mut t = self;
        t.metadata.push((key, value));
        t
    }

    /// Appends tags.
    pub fn with_tags(self, tags: Vec<String>) -> (r: Task)
        ensures
            r.tags@ == self.tags@ + tags@,
            r.id == self.id && r.name == self.name && r.definition == self.definition
                && r.dependencies == self.dependencies && r.priority == self.priority
                && r.created_at_ms == self.created_at_ms && r.timeout_ms == self.timeout_ms
                && r.max_retries == self.max_retries && r.metadata == self.metadata,
    {
        let mut t = self;
        let mut rest = tags;
        let mut i: usize = 0;
        let ghost added = rest@;
        while i < rest.len()
            invariant
                i <= rest.len(),
                rest@ == added,
                t.tags@ == self.tags@ + added.take(i as int),
                t.id == self.id && t.name == self.name && t.definition == self.definition
                    && t.dependencies == self.dependencies && t.priority == self.priority
                    && t.created_at_ms == self.created_at_ms && t.timeout_ms == self.timeout_ms
                    && t.max_retries == self.max_retries && t.metadata == self.metadata,
            decreases rest.len() - i,
        {
            let tag = rest[i].clone();
            assert(tag == added[i as int]);
            t.tags.push(tag);
            proof {
                assert(added.take(i as int).push(added[i as int]) =~= added.take(i as int + 1));
            }
            i = i + 1;
        }
        proof {
            assert(added.take(rest@.len() as int) =~= added);
        }
        t
    }

    /// Whether some declared predecessor is not in the given resolved set.
    pub fn has_unresolved_dependencies(&self, resolved_tasks: &Vec<TaskId>) -> (r: bool)
        ensures
            r == exists|i: int|
                0 <= i < self.dependencies@.len() && !resolved_tasks@.contains(
                    self.dependencies@[i],
                ),
    {
        let mut i: usize = 0;
        while i < self.dependencies.len()
            invariant
                i <= self.dependencies@.len(),
                forall|j: int|
                    0 <= j < i ==> resolved_tasks@.contains(self.dependencies@[j]),
            decreases self.dependencies@.len() - i,
        {
            if !contains_id(resolved_tasks, self.dependencies[i]) {
                return true;
            }
            i = i + 1;
        }
        false
    }
}

/// Whether the vector contains the given identifier.
pub fn contains_id(ids: &Vec<TaskId>, id: TaskId) -> (r: bool)
    ensures
        r == ids@.contains(id),
{
    let mut i: usize = 0;
    while i < ids.len()
        invariant
            i <= ids@.len(),
            forall|j: int| 0 <= j < i ==> ids@[j] != id,
        decreases ids@.len() - i,
    {
        if ids[i] == id {
            return true;
        }
        i = i + 1;
    }
    false
}

/// A recorded system event.
#[derive(Debug, Clone, PartialEq)]
pub struct SystemEvent {
    pub timestamp_ms: u64,
    pub event_type: EventType,
    pub task_id: Option<TaskId>,
    pub data: String,
}

/// Search filters over registered tasks. Every filter left as `None`
/// accepts all tasks.
#[derive(Debug, Clone)]
pub struct SearchCriteria {
    pub name_pattern: Option<String>,
    pub tags: Option<Vec<String>>,
    pub min_priority: Option<Priority>,
    pub max_priority: Option<Priority>,
    pub no_dependencies: Option<bool>,
    pub created_after_ms: Option<u64>,
    pub created_before_ms: Option<u64>,
}

impl SearchCriteria {
    /// Criteria that accept every task.
    pub fn any() -> (r: SearchCriteria)
        ensures
            r.name_pattern is None,
            r.tags is None,
            r.min_priority is None,
            r.max_priority is None,
            r.no_dependencies is None,
            r.created_after_ms is None,
            r.created_before_ms is None,
    {
        SearchCriteria {
            name_pattern: None,
            tags: None,
            min_priority: None,
            max_priority: None,
            no_dependencies: None,
            created_after_ms: None,
            created_before_ms: None,
        }
    }
}

} // verus!
