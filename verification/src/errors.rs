//! The error taxonomy of the orchestrator: error classes with their
//! recovery semantics, structured error kinds, and error values carrying
//! context.

use vstd::prelude::*;
use crate::types::{ExecutionLayer, StatusKind, TaskId};

verus! {

/// The coarse classes of the error taxonomy. Recovery decisions are
/// made on the class alone.
#[derive(Debug, Clone, Copy, PartialEq, Eq, Structural)]
pub enum ErrorClass {
    /// Malformed input; never retried.
    Validation,
    /// A component failed while handling a task; retriable.
    Runtime,
    /// A backend or object-store failure; retriable subject to the
    /// breaker and the retry budget.
    External,
    /// A deadline elapsed; retriable.
    Timeout,
    /// Cooperative cancellation; terminal for the task.
    Cancel,
    /// A durable write was exhausted; surfaced.
    Persist,
    /// A process-level failure; trips global stop.
    Fatal,
}

impl ErrorClass {
    /// Whether a failure of this class may be retried.
    pub open spec fn spec_recoverable(self) -> bool {
        match self {
            ErrorClass::Runtime => true,
            ErrorClass::External => true,
            ErrorClass::Timeout => true,
            _ => false,
        }
    }

    /// Returns whether a failure of this class may be retried.
    pub fn recoverable(&self) -> (r: bool)
        ensures
            r == self.spec_recoverable(),
    {
        match self {
            ErrorClass::Runtime => true,
            ErrorClass::External => true,
            ErrorClass::Timeout => true,
            _ => false,
        }
    }
}

/// Structured error kinds carrying the offending detail.
#[derive(Debug, Clone, PartialEq)]
pub enum ErrorKind {
    Validation { field: String, rule: String, value: String },
    Runtime { component: String, operation: String, cause: String },
    External { service: String, endpoint: String, status_code: Option<u16> },
    Panic { reason: String, stack_trace: String, recovery_suggestion: String },
}

/// Severity levels of an error, from informational to critical.
#[derive(Debug, Clone, Copy, PartialEq, Eq, Structural)]
pub enum ErrorSeverity {
    Info,
    Warning,
    Error,
    Critical,
}

impl ErrorKind {
    /// Whether an error of this kind may be retried.
    pub fn is_recoverable(&self) -> (r: bool)
        ensures
            r == (self matches ErrorKind::Runtime { .. } || self matches ErrorKind::External {
                ..
            }),
    {
        match self {
            ErrorKind::Validation { .. } => false,
            ErrorKind::Runtime { .. } => true,
            ErrorKind::External { .. } => true,
            ErrorKind::Panic { .. } => false,
        }
    }

    /// The severity associated with this kind.
    pub fn severity(&self) -> (r: ErrorSeverity)
        ensures
            r == match self {
                ErrorKind::Validation { .. } => ErrorSeverity::Warning,
                ErrorKind::Runtime { .. } => ErrorSeverity::Error,
                ErrorKind::External { .. } => ErrorSeverity::Warning,
                ErrorKind::Panic { .. } => ErrorSeverity::Critical,
            },
    {
        match self {
            ErrorKind::Validation { .. } => ErrorSeverity::Warning,
            ErrorKind::Runtime { .. } => ErrorSeverity::Error,
            ErrorKind::External { .. } => ErrorSeverity::Warning,
            ErrorKind::Panic { .. } => ErrorSeverity::Critical,
        }
    }

    /// The telemetry category under which this kind is reported.
    pub fn telemetry_category(&self) -> (r: &'static str)
        ensures
            r@ == match self {
                ErrorKind::Validation { .. } => "symbiotic.validation"@,
                ErrorKind::Runtime { .. } => "symbiotic.runtime"@,
                ErrorKind::External { .. } => "symbiotic.external"@,
                ErrorKind::Panic { .. } => "symbiotic.panic"@,
            },
    {
        match self {
            ErrorKind::Validation { .. } => "symbiotic.validation",
            ErrorKind::Runtime { .. } => "symbiotic.runtime",
            ErrorKind::External { .. } => "symbiotic.external",
            ErrorKind::Panic { .. } => "symbiotic.panic",
        }
    }
}

/// How a component failure is to be recovered from.
#[derive(Debug, Clone, PartialEq)]
pub enum RecoveryStrategy {
    Restart { component: String, graceful: bool },
    Fallback { primary_system: String, fallback_system: String },
    Isolate { component: String, reason: String },
    Escalate { priority: String, contact: String },
}

/// Categories used to group errors in reports.
#[derive(Debug, Clone, Copy, PartialEq, Eq, Structural)]
pub enum ErrorCategory {
    NotFound,
    Logic,
    Resource,
    Infrastructure,
    Data,
    Configuration,
    System,
    Network,
    Database,
    Security,
    Performance,
    External,
}

/// Errors surfaced by the orchestrator.
#[derive(Debug, Clone, PartialEq)]
pub enum OrchestratorError {
    /// The named task is not registered.
    TaskNotFound(TaskId),
    /// Accepting the edge would make the task graph cyclic.
    CyclicDependency,
    /// The requested status change is not a legal transition.
    InvalidTransition { from: StatusKind, to: StatusKind },
    /// Malformed input.
    ValidationError { field: String, message: String },
    /// The configuration is rejected.
    ConfigurationError(String),
    /// A resource limit was exceeded.
    ResourceLimitExceeded(String),
    /// The cluster has no active node.
    NoActiveNodes,
    /// The named execution layer is not registered.
    LayerNotAvailable(ExecutionLayer),
    /// A breaker rejected the call without attempting it.
    ExternalUnavailable { service: String, open: bool },
    /// A backend or object-store call failed.
    ExternalError { service: String, message: String },
    /// A durable write was exhausted.
    PersistFailed(String),
    /// The named checkpoint does not exist.
    CheckpointNotFound(String),
    /// A deadline elapsed.
    Timeout(String),
    /// The operation is not legal in the current state.
    InvalidState(String),
    /// The task was cancelled.
    Cancelled(String),
    /// An internal invariant failed.
    InternalError(String),
}

impl OrchestratorError {
    /// The taxonomy class of this error.
    pub open spec fn spec_class(self) -> ErrorClass {
        match self {
            OrchestratorError::TaskNotFound(_) => ErrorClass::Validation,
            OrchestratorError::CyclicDependency => ErrorClass::Validation,
            OrchestratorError::InvalidTransition { .. } => ErrorClass::Validation,
            OrchestratorError::ValidationError { .. } => ErrorClass::Validation,
            OrchestratorError::ConfigurationError(_) => ErrorClass::Validation,
            OrchestratorError::ResourceLimitExceeded(_) => ErrorClass::Runtime,
            OrchestratorError::NoActiveNodes => ErrorClass::External,
            OrchestratorError::LayerNotAvailable(_) => ErrorClass::External,
            OrchestratorError::ExternalUnavailable { .. } => ErrorClass::External,
            OrchestratorError::ExternalError { .. } => ErrorClass::External,
            OrchestratorError::PersistFailed(_) => ErrorClass::Persist,
            OrchestratorError::CheckpointNotFound(_) => ErrorClass::Validation,
            OrchestratorError::Timeout(_) => ErrorClass::Timeout,
            OrchestratorError::InvalidState(_) => ErrorClass::Validation,
            OrchestratorError::Cancelled(_) => ErrorClass::Cancel,
            OrchestratorError::InternalError(_) => ErrorClass::Runtime,
        }
    }

    /// Returns the taxonomy class of this error.
    pub fn class(&self) -> (r: ErrorClass)
        ensures
            r == self.spec_class(),
    {
        match self {
            OrchestratorError::TaskNotFound(_) => ErrorClass::Validation,
            OrchestratorError::CyclicDependency => ErrorClass::Validation,
            OrchestratorError::InvalidTransition { .. } => ErrorClass::Validation,
            OrchestratorError::ValidationError { .. } => ErrorClass::Validation,
            OrchestratorError::ConfigurationError(_) => ErrorClass::Validation,
            OrchestratorError::ResourceLimitExceeded(_) => ErrorClass::Runtime,
            OrchestratorError::NoActiveNodes => ErrorClass::External,
            OrchestratorError::LayerNotAvailable(_) => ErrorClass::External,
            OrchestratorError::ExternalUnavailable { .. } => ErrorClass::External,
            OrchestratorError::ExternalError { .. } => ErrorClass::External,
            OrchestratorError::PersistFailed(_) => ErrorClass::Persist,
            OrchestratorError::CheckpointNotFound(_) => ErrorClass::Validation,
            OrchestratorError::Timeout(_) => ErrorClass::Timeout,
            OrchestratorError::InvalidState(_) => ErrorClass::Validation,
            OrchestratorError::Cancelled(_) => ErrorClass::Cancel,
            OrchestratorError::InternalError(_) => ErrorClass::Runtime,
        }
    }

    /// Whether the error may be retried.
    pub fn is_recoverable(&self) -> (r: bool)
        ensures
            r == self.spec_class().spec_recoverable(),
    {
        self.class().recoverable()
    }

    /// A stable identifier for the error variant.
    pub fn error_code(&self) -> (r: &'static str)
        ensures
            r@ == match self {
                OrchestratorError::TaskNotFound(_) => "TASK_NOT_FOUND"@,
                OrchestratorError::CyclicDependency => "CYCLIC_DEPENDENCY"@,
                OrchestratorError::InvalidTransition { .. } => "INVALID_TRANSITION"@,
                OrchestratorError::ValidationError { .. } => "VALIDATION_ERROR"@,
                OrchestratorError::ConfigurationError(_) => "CONFIGURATION_ERROR"@,
                OrchestratorError::ResourceLimitExceeded(_) => "RESOURCE_LIMIT_EXCEEDED"@,
                OrchestratorError::NoActiveNodes => "NO_ACTIVE_NODES"@,
                OrchestratorError::LayerNotAvailable(_) => "LAYER_NOT_AVAILABLE"@,
                OrchestratorError::ExternalUnavailable { .. } => "EXTERNAL_UNAVAILABLE"@,
                OrchestratorError::ExternalError { .. } => "EXTERNAL_ERROR"@,
                OrchestratorError::PersistFailed(_) => "PERSIST_FAILED"@,
                OrchestratorError::CheckpointNotFound(_) => "CHECKPOINT_NOT_FOUND"@,
                OrchestratorError::Timeout(_) => "TIMEOUT"@,
                OrchestratorError::InvalidState(_) => "INVALID_STATE"@,
                OrchestratorError::Cancelled(_) => "CANCELLED"@,
                OrchestratorError::InternalError(_) => "INTERNAL_ERROR"@,
            },
    {
        match self {
            OrchestratorError::TaskNotFound(_) => "TASK_NOT_FOUND",
            OrchestratorError::CyclicDependency => "CYCLIC_DEPENDENCY",
            OrchestratorError::InvalidTransition { .. } => "INVALID_TRANSITION",
            OrchestratorError::ValidationError { .. } => "VALIDATION_ERROR",
            OrchestratorError::ConfigurationError(_) => "CONFIGURATION_ERROR",
            OrchestratorError::ResourceLimitExceeded(_) => "RESOURCE_LIMIT_EXCEEDED",
            OrchestratorError::NoActiveNodes => "NO_ACTIVE_NODES",
            OrchestratorError::LayerNotAvailable(_) => "LAYER_NOT_AVAILABLE",
            OrchestratorError::ExternalUnavailable { .. } => "EXTERNAL_UNAVAILABLE",
            OrchestratorError::ExternalError { .. } => "EXTERNAL_ERROR",
            OrchestratorError::PersistFailed(_) => "PERSIST_FAILED",
            OrchestratorError::CheckpointNotFound(_) => "CHECKPOINT_NOT_FOUND",
            OrchestratorError::Timeout(_) => "TIMEOUT",
            OrchestratorError::InvalidState(_) => "INVALID_STATE",
            OrchestratorError::Cancelled(_) => "CANCELLED",
            OrchestratorError::InternalError(_) => "INTERNAL_ERROR",
        }
    }

    /// The report category of this error.
    pub fn category(&self) -> (r: ErrorCategory)
        ensures
            r == match self {
                OrchestratorError::TaskNotFound(_) => ErrorCategory::NotFound,
                OrchestratorError::CyclicDependency => ErrorCategory::Logic,
                OrchestratorError::InvalidTransition { .. } => ErrorCategory::Logic,
                OrchestratorError::ValidationError { .. } => ErrorCategory::Logic,
                OrchestratorError::ConfigurationError(_) => ErrorCategory::Configuration,
                OrchestratorError::ResourceLimitExceeded(_) => ErrorCategory::Resource,
                OrchestratorError::NoActiveNodes => ErrorCategory::Infrastructure,
                OrchestratorError::LayerNotAvailable(_) => ErrorCategory::Infrastructure,
                OrchestratorError::ExternalUnavailable { .. } => ErrorCategory::External,
                OrchestratorError::ExternalError { .. } => ErrorCategory::External,
                OrchestratorError::PersistFailed(_) => ErrorCategory::Database,
                OrchestratorError::CheckpointNotFound(_) => ErrorCategory::NotFound,
                OrchestratorError::Timeout(_) => ErrorCategory::Performance,
                OrchestratorError::InvalidState(_) => ErrorCategory::Logic,
                OrchestratorError::Cancelled(_) => ErrorCategory::Logic,
                OrchestratorError::InternalError(_) => ErrorCategory::System,
            },
    {
        match self {
            OrchestratorError::TaskNotFound(_) => ErrorCategory::NotFound,
            OrchestratorError::CyclicDependency => ErrorCategory::Logic,
            OrchestratorError::InvalidTransition { .. } => ErrorCategory::Logic,
            OrchestratorError::ValidationError { .. } => ErrorCategory::Logic,
            OrchestratorError::ConfigurationError(_) => ErrorCategory::Configuration,
            OrchestratorError::ResourceLimitExceeded(_) => ErrorCategory::Resource,
            OrchestratorError::NoActiveNodes => ErrorCategory::Infrastructure,
            OrchestratorError::LayerNotAvailable(_) => ErrorCategory::Infrastructure,
            OrchestratorError::ExternalUnavailable { .. } => ErrorCategory::External,
            OrchestratorError::ExternalError { .. } => ErrorCategory::External,
            OrchestratorError::PersistFailed(_) => ErrorCategory::Database,
            OrchestratorError::CheckpointNotFound(_) => ErrorCategory::NotFound,
            OrchestratorError::Timeout(_) => ErrorCategory::Performance,
            OrchestratorError::InvalidState(_) => ErrorCategory::Logic,
            OrchestratorError::Cancelled(_) => ErrorCategory::Logic,
            OrchestratorError::InternalError(_) => ErrorCategory::System,
        }
    }
}

/// Context attached to an error for observability.
#[derive(Debug, Clone, PartialEq)]
pub struct ErrorContext {
    pub operation: String,
    pub component: String,
    pub timestamp_ms: u64,
    pub metadata: Vec<(String, String)>,
    pub trace_id: u128,
    pub span_id: Option<u128>,
    pub user_id: Option<String>,
    pub request_id: Option<String>,
}

impl ErrorContext {
    /// Creates a context for the given operation and component, with a
    /// freshly drawn trace identifier.
    pub fn new(operation: &str, component: &str) -> (r: ErrorContext)
        ensures
            r.operation@ == operation@,
            r.component@ == component@,
            r.metadata@ =~= Seq::<(String, String)>::empty(),
            r.span_id is None,
            r.user_id is None,
            r.request_id is None,
    {
        ErrorContext {
            operation: operation.to_owned(),
            component: component.to_owned(),
            timestamp_ms: crate::trusted::now_millis(),
            metadata: Vec::new(),
            trace_id: crate::trusted::fresh_id(),
            span_id: None,
            user_id: None,
            request_id: None,
        }
    }

    /// Appends one metadata entry.
    pub fn with_metadata(self, key: &str, value: &str) -> (r: ErrorContext)
        ensures
            r.metadata@.len() == self.metadata@.len() + 1,
            r.metadata@[self.metadata@.len() as int].0@ == key@,
            r.metadata@[self.metadata@.len() as int].1@ == value@,
            forall|i: int| 0 <= i < self.metadata@.len() ==> r.metadata@[i] == self.metadata@[i],
            r.operation == self.operation && r.component == self.component
                && r.timestamp_ms == self.timestamp_ms && r.trace_id == self.trace_id
                && r.span_id == self.span_id && r.user_id == self.user_id
                && r.request_id == self.request_id,
    {
        let mut c = self;
        c.metadata.push((key.to_owned(), value.to_owned()));
        c
    }

    /// Replaces the trace identifiers.
    pub fn with_trace(self, trace_id: u128, span_id: Option<u128>) -> (r: ErrorContext)
        ensures
            r == (ErrorContext { trace_id, span_id, ..self }),
    {
        ErrorContext { trace_id, span_id, ..self }
    }

    /// Sets the user attribution.
    pub fn with_user(self, user_id: String) -> (r: ErrorContext)
        ensures
            r == (ErrorContext { user_id: Some(user_id), ..self }),
    {
        ErrorContext { user_id: Some(user_id), ..self }
    }

    /// Sets the request attribution.
    pub fn with_request(self, request_id: String) -> (r: ErrorContext)
        ensures
            r == (ErrorContext { request_id: Some(request_id), ..self }),
    {
        ErrorContext { request_id: Some(request_id), ..self }
    }

    /// Whether the metadata holds an entry with the given key.
    pub fn has_metadata_key(&self, key: &str) -> (r: bool)
        ensures
            r == exists|i: int| 0 <= i < self.metadata@.len() && self.metadata@[i].0@ == key@,
    {
        let mut i: usize = 0;
        while i < self.metadata.len()
            invariant
                i <= self.metadata@.len(),
                forall|j: int| 0 <= j < i ==> self.metadata@[j].0@ != key@,
            decreases self.metadata@.len() - i,
        {
            let eq = crate::strutil::str_eq(self.metadata[i].0.as_str(), key);
            if eq {
                return true;
            }
            i = i + 1;
        }
        false
    }
}

/// The result type of orchestrator operations.
pub type OrchResult<T> = Result<T, OrchestratorError>;

/// Attaches a context to a failed result; the context is recorded for
/// observability and the result value itself is passed through.
pub fn with_context<T>(r: OrchResult<T>, context: ErrorContext) -> (res: (
    OrchResult<T>,
    ErrorContext,
))
    ensures
        res.0 == r,
        res.1 == context,
{
    (r, context)
}

} // verus!
