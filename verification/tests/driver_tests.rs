//! Tests of dispatch-order, lease release, shutdown, checkpoint
//! retention, backoff accounting and restore validation.

use task_mesh::config::OrchestratorConfig;
use task_mesh::errors::{ErrorClass, OrchestratorError};
use task_mesh::mesh::TaskMesh;
use task_mesh::orchestrator::{OrchestratorCore, OrchestratorStatus};
use task_mesh::retry::RetryInfo;
use task_mesh::snapshot::{Checkpoint, SystemState};
use task_mesh::types::{Task, TaskDefinition, TaskResult, TaskStatus};

fn echo_task(name: &str, deps: Vec<u128>) -> Task {
    Task::new(name.to_string(), TaskDefinition::Command("echo test".to_string()), deps)
}

fn ok_result() -> TaskResult {
    TaskResult {
        exit_code: 0,
        stdout: String::new(),
        stderr: String::new(),
        output_data: None,
        metrics: task_mesh::types::ExecutionMetrics::zero(),
    }
}

#[test]
fn test_total_backoff_accumulates_base_delays() {
    // The jitter moves each applied delay, but the accumulated total
    // counts the unjittered schedule: 100 + 200 + 400.
    let mut info = RetryInfo::new(5);
    info.record_attempt(10_000);
    info.record_attempt(20_000);
    info.record_attempt(30_000);
    assert_eq!(info.total_backoff_ms, 700);
}

#[test]
fn test_cancel_releases_worker_lease() {
    let config = OrchestratorConfig::standard();
    let mut core = OrchestratorCore::new(config, 0).unwrap();
    core.start();

    let workers = core.executor.pool.workers.len();
    let mut ids = Vec::new();
    for i in 0..(workers + 1) {
        let t = echo_task(&format!("t{}", i), vec![]);
        ids.push(t.id);
        core.submit(t).unwrap();
    }
    // Fill every worker.
    for id in ids.iter().take(workers) {
        core.executor.dispatch(&mut core.mesh, *id, 0).unwrap();
    }
    // The pool is exhausted.
    assert!(core.executor.dispatch(&mut core.mesh, ids[workers], 1).is_err());
    // Cancelling one task returns its worker to the pool.
    assert!(core.cancel(ids[0], 2).unwrap());
    core.executor.dispatch(&mut core.mesh, ids[workers], 3).unwrap();
}

#[test]
fn test_stop_cancels_in_flight_and_checkpoints() {
    let config = OrchestratorConfig::standard();
    let mut core = OrchestratorCore::new(config, 0).unwrap();
    core.start();

    let a = echo_task("a", vec![]);
    let b = echo_task("b", vec![]);
    let (ida, idb) = (a.id, b.id);
    core.submit(a).unwrap();
    core.submit(b).unwrap();
    core.executor.dispatch(&mut core.mesh, ida, 0).unwrap();

    core.stop(1_000);
    assert_eq!(core.status, OrchestratorStatus::Stopped);
    assert_eq!(core.executor.running.len(), 0);
    assert!(matches!(core.mesh.get_status(ida).unwrap(), TaskStatus::Cancelled { .. }));
    // The undispatched task was not running, so it keeps its state.
    assert!(matches!(core.mesh.get_status(idb).unwrap(), TaskStatus::Ready));
    let last = core.checkpoint_store.last().unwrap();
    assert_eq!(last.task_count, 0);
    assert_eq!(last.timestamp_ms, 1_000);
    assert!(last.last_completed_task.is_none());
}

#[test]
fn test_checkpoint_retention_prunes_old_entries() {
    let mut config = OrchestratorConfig::standard();
    config.backup.checkpoint_config.tasks_per_checkpoint = 1;
    config.backup.checkpoint_config.retention_days = 1;
    config.backup.checkpoint_config.auto_cleanup = true;
    let mut core = OrchestratorCore::new(config, 0).unwrap();
    core.start();

    let a = echo_task("a", vec![]);
    let b = echo_task("b", vec![]);
    let (ida, idb) = (a.id, b.id);
    core.submit(a).unwrap();
    core.submit(b).unwrap();

    let w = core.executor.dispatch(&mut core.mesh, ida, 0).unwrap();
    core.handle_success(ida, w, ok_result(), 0, 10).unwrap();
    assert_eq!(core.checkpoint_store.len(), 1);

    // Two days later the first checkpoint is beyond retention and the
    // new one replaces it.
    let two_days_ms = 2 * 86_400_000;
    let w = core.executor.dispatch(&mut core.mesh, idb, two_days_ms).unwrap();
    core.handle_success(idb, w, ok_result(), two_days_ms, two_days_ms).unwrap();
    assert_eq!(core.checkpoint_store.len(), 1);
    assert_eq!(core.checkpoint_store[0].task_count, 2);
}

#[test]
fn test_ready_tasks_ordered_by_priority() {
    let mut mesh = TaskMesh::new();
    let mut low = echo_task("low", vec![]);
    low.priority = 10;
    let mut high = echo_task("high", vec![]);
    high.priority = 90;
    let mut mid = echo_task("mid", vec![]);
    mid.priority = 50;
    let (idl, idh, idm) = (low.id, high.id, mid.id);
    mesh.add_task(low).unwrap();
    mesh.add_task(high).unwrap();
    mesh.add_task(mid).unwrap();

    let ready = mesh.ready_tasks();
    assert_eq!(ready, vec![idh, idm, idl]);
}

#[test]
fn test_restore_rejects_checkpoint_counter_mismatch() {
    let config = OrchestratorConfig::standard();
    let mut core = OrchestratorCore::new(config.clone(), 0).unwrap();
    core.start();
    let t = echo_task("t", vec![]);
    core.submit(t).unwrap();
    core.snapshot_now(
        task_mesh::snapshot::SystemMetricsRecord {
            cpu_permille: 0,
            memory_bytes: 0,
            tasks_running: 0,
            uptime_ms: 0,
        },
        1_000,
    )
    .unwrap();

    let mut fresh = OrchestratorCore::new(config, 0).unwrap();
    fresh.snapshot_store = core.snapshot_store.clone();
    // A checkpoint whose counter disagrees with the snapshot must be
    // rejected rather than silently adopted.
    fresh.checkpoint_store.push(Checkpoint {
        id: 1,
        timestamp_ms: 999,
        task_count: 7,
        last_completed_task: None,
        system_state: SystemState {
            active_tasks: vec![],
            pending_tasks: vec![],
            failed_tasks: vec![],
            configuration_hash: String::new(),
        },
        recovery_data: String::new(),
    });
    let err = fresh.restore_latest().unwrap_err();
    assert!(matches!(err, OrchestratorError::PersistFailed(_)));
}

#[test]
fn test_handle_failure_reports_unknown_task() {
    let config = OrchestratorConfig::standard();
    let mut core = OrchestratorCore::new(config, 0).unwrap();
    core.start();
    let err = core
        .handle_failure(12345, 0, "boom".to_string(), ErrorClass::Runtime, 1, 0)
        .unwrap_err();
    assert!(matches!(err, OrchestratorError::TaskNotFound(12345)));
}
