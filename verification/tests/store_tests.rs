//! Tests of the in-memory state store and the workflow drivers.

use task_mesh::store::MemoryStateStore;
use task_mesh::types::{
    EventType, ExecutionMetrics, StatusKind, SystemEvent, Task, TaskDefinition, TaskStatus,
    WorkflowStrategy,
};
use task_mesh::workflow::{combine_workflow_results, workflow_next, WorkflowAction};

fn sample_task(name: &str) -> Task {
    Task::new(
        name.to_string(),
        TaskDefinition::Command("echo hello".to_string()),
        vec![],
    )
}

fn result_with(stdout: &str, stderr: &str) -> task_mesh::types::TaskResult {
    task_mesh::types::TaskResult {
        exit_code: 0,
        stdout: stdout.to_string(),
        stderr: stderr.to_string(),
        output_data: None,
        metrics: ExecutionMetrics::zero(),
    }
}

#[test]
fn test_memory_state_store() {
    let mut store = MemoryStateStore::new();

    let task = sample_task("test_task");
    let task_id = task.id;

    store.store_task(task);

    let retrieved_task = store.get_task(task_id);
    assert!(retrieved_task.is_some());

    store.update_task_status(
        task_id,
        TaskStatus::Running {
            worker: 1,
            started_at_ms: 0,
        },
    );

    let status = store.get_task_status(task_id);
    assert!(status.kind() == StatusKind::Running);

    store.remove_task(task_id);

    let removed_task = store.get_task(task_id);
    assert!(removed_task.is_none());
}

#[test]
fn test_checkpoint_creation() {
    let mut store = MemoryStateStore::new();

    let task = sample_task("test_task");
    let task_id = task.id;

    store.store_task(task);

    store.create_checkpoint("test_checkpoint".to_string());

    let checkpoints = store.list_checkpoints();
    assert!(checkpoints.contains(&"test_checkpoint".to_string()));

    store.remove_task(task_id);

    store
        .restore_checkpoint(&"test_checkpoint".to_string())
        .unwrap();

    let restored_task = store.get_task(task_id);
    assert!(restored_task.is_some());
}

#[test]
fn test_store_task_upsert_replaces() {
    let mut store = MemoryStateStore::new();
    let mut task = sample_task("first");
    let id = task.id;
    store.store_task(task_mesh::store::clone_task(&task));
    task.priority = 90;
    store.store_task(task);
    assert_eq!(store.tasks.len(), 1);
    assert_eq!(store.get_task(id).unwrap().priority, 90);
}

#[test]
fn test_list_tasks_by_kind_filters() {
    let mut store = MemoryStateStore::new();
    let a = sample_task("a");
    let b = sample_task("b");
    let (ida, idb) = (a.id, b.id);
    store.store_task(a);
    store.store_task(b);
    store.update_task_status(
        ida,
        TaskStatus::Running {
            worker: 0,
            started_at_ms: 0,
        },
    );
    let running = store.list_tasks_by_kind(&vec![StatusKind::Running]);
    assert_eq!(running, vec![ida]);
    // An untracked task counts as pending.
    let pending = store.list_tasks_by_kind(&vec![StatusKind::Pending]);
    assert_eq!(pending, vec![idb]);
}

#[test]
fn test_event_log_range_query() {
    let mut store = MemoryStateStore::new();
    for (i, ts) in [5u64, 15, 25].iter().enumerate() {
        store.store_event(SystemEvent {
            timestamp_ms: *ts,
            event_type: EventType::TaskSubmitted,
            task_id: Some(i as u128),
            data: String::new(),
        });
    }
    assert_eq!(store.get_events(None, None), vec![0, 1, 2]);
    assert_eq!(store.get_events(Some(10), Some(20)), vec![1]);
    assert_eq!(store.get_events(Some(10), None), vec![1, 2]);
    assert_eq!(store.get_events(None, Some(10)), vec![0]);
}

#[test]
fn test_metrics_round_trip() {
    let mut store = MemoryStateStore::new();
    let m = ExecutionMetrics {
        execution_time_ms: 12,
        cpu_permille: 340,
        memory_usage: 56,
        network_read: 7,
        network_write: 8,
        disk_read: 9,
        disk_write: 10,
    };
    store.store_metrics(42, m.clone());
    assert_eq!(store.get_metrics(42), Some(m));
    assert_eq!(store.get_metrics(43), None);
}

#[test]
fn test_workflow_next_decisions() {
    assert_eq!(workflow_next(0, 3, false), WorkflowAction::Run(0));
    assert_eq!(workflow_next(2, 3, false), WorkflowAction::Run(2));
    assert_eq!(workflow_next(3, 3, false), WorkflowAction::Done);
    assert_eq!(workflow_next(1, 3, true), WorkflowAction::Abort);
}

#[test]
fn test_sequential_workflow_combination() {
    let results = vec![result_with("a", "x"), result_with("b", "y")];
    let combined = combine_workflow_results(&WorkflowStrategy::Sequential, &results);
    assert_eq!(combined.exit_code, 0);
    assert_eq!(combined.stdout, "a\nb\n");
    assert_eq!(combined.stderr, "x\ny\n");
    assert_eq!(
        combined.output_data.as_deref(),
        Some("{\"workflow_type\":\"sequential\",\"task_count\":2,\"results\":2}")
    );
}

#[test]
fn test_parallel_workflow_combination() {
    let results = vec![result_with("a", "x"), result_with("b", "y"), result_with("c", "z")];
    let combined = combine_workflow_results(&WorkflowStrategy::Parallel, &results);
    assert_eq!(combined.stdout, "a\nb\nc");
    assert_eq!(combined.stderr, "x\ny\nz");
    assert_eq!(
        combined.output_data.as_deref(),
        Some("{\"workflow_type\":\"parallel\",\"task_count\":3,\"results\":3}")
    );
}

#[test]
fn test_empty_workflow_combination() {
    let results: Vec<task_mesh::types::TaskResult> = Vec::new();
    let sequential = combine_workflow_results(&WorkflowStrategy::Sequential, &results);
    assert_eq!(sequential.stdout, "");
    let parallel = combine_workflow_results(&WorkflowStrategy::Parallel, &results);
    assert_eq!(parallel.stdout, "");
}
