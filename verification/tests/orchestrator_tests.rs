//! End-to-end tests of the orchestrator facade: configuration,
//! lifecycle, a linear chain run to completion, retry arbitration, the
//! worker-permit bound, cancellation, and snapshot restore.

use task_mesh::config::{Environment, OrchestratorConfig};
use task_mesh::errors::{ErrorClass, OrchestratorError};
use task_mesh::orchestrator::{OrchestratorCore, OrchestratorStatus, RetryDecision};
use task_mesh::scheduler::{Scheduler, SchedulingHeuristic};
use task_mesh::snapshot::SystemMetricsRecord;
use task_mesh::types::{Task, TaskDefinition, TaskResult, TaskStatus};

fn echo_task(name: &str, deps: Vec<u128>) -> Task {
    Task::new(name.to_string(), TaskDefinition::Command("echo test".to_string()), deps)
}

fn ok_result() -> TaskResult {
    TaskResult {
        exit_code: 0,
        stdout: String::new(),
        stderr: String::new(),
        output_data: None,
        metrics: task_mesh::types::ExecutionMetrics::zero(),
    }
}

fn metrics() -> SystemMetricsRecord {
    SystemMetricsRecord { cpu_permille: 100, memory_bytes: 1 << 20, tasks_running: 0, uptime_ms: 1 }
}

#[test]
fn test_default_config() {
    let config = OrchestratorConfig::standard();
    assert_eq!(config.general.instance_name, "orchestrator-core");
    assert_eq!(config.general.environment, Environment::Development);
    assert!(config.consciousness.enabled);
}

#[test]
fn test_config_validation() {
    let config = OrchestratorConfig::standard();
    assert!(config.validate().is_ok());

    let mut invalid_config = config;
    invalid_config.general.instance_name = String::new();
    assert!(invalid_config.validate().is_err());
}

#[test]
fn test_environment_configs() {
    let dev_config = OrchestratorConfig::for_environment(Environment::Development);
    assert!(dev_config.general.debug_mode);
    assert!(!dev_config.security.authentication_enabled);

    let prod_config = OrchestratorConfig::for_environment(Environment::Production);
    assert!(!prod_config.general.debug_mode);
    assert!(prod_config.security.authentication_enabled);
}

#[test]
fn test_orchestrator_lifecycle() {
    let config = OrchestratorConfig::standard();
    let mut core = OrchestratorCore::new(config, 0).unwrap();
    assert_eq!(core.status, OrchestratorStatus::Initializing);

    core.start();
    assert_eq!(core.status, OrchestratorStatus::Running);

    core.stop(100);
    assert_eq!(core.status, OrchestratorStatus::Stopped);
    assert_eq!(core.checkpoint_store.len(), 1);
}

#[test]
fn test_invalid_config_rejected() {
    let mut config = OrchestratorConfig::standard();
    config.max_workers = 0;
    let r = OrchestratorCore::new(config, 0);
    assert!(matches!(r, Err(OrchestratorError::ConfigurationError(_))));
}

#[test]
fn test_linear_chain_completes_in_order() {
    let config = OrchestratorConfig::standard();
    let mut core = OrchestratorCore::new(config, 0).unwrap();
    core.start();

    let a = echo_task("A", vec![]);
    let a_id = a.id;
    core.submit(a).unwrap();
    let b = echo_task("B", vec![a_id]);
    let b_id = b.id;
    core.submit(b).unwrap();
    let c = echo_task("C", vec![b_id]);
    let c_id = c.id;
    core.submit(c).unwrap();

    // Only A is dispatchable at first; B and C wait on predecessors.
    assert!(core.executor.dispatch(&mut core.mesh, b_id, 10).is_err());
    let wa = core.executor.dispatch(&mut core.mesh, a_id, 10).unwrap();
    core.handle_success(a_id, wa, ok_result(), 10, 20).unwrap();

    assert!(core.executor.dispatch(&mut core.mesh, c_id, 30).is_err());
    let wb = core.executor.dispatch(&mut core.mesh, b_id, 30).unwrap();
    core.handle_success(b_id, wb, ok_result(), 30, 40).unwrap();

    let wc = core.executor.dispatch(&mut core.mesh, c_id, 50).unwrap();
    core.handle_success(c_id, wc, ok_result(), 50, 60).unwrap();

    // All three are completed and their wall-clock spans are ordered.
    let mut ends = Vec::new();
    for id in [a_id, b_id, c_id] {
        match core.mesh.get_status(id).unwrap() {
            TaskStatus::Completed { started_at_ms, completed_at_ms, .. } => {
                ends.push((*started_at_ms, *completed_at_ms));
            }
            other => panic!("expected completion, found {:?}", other),
        }
    }
    assert!(ends[0].1 <= ends[1].0);
    assert!(ends[1].1 <= ends[2].0);
    assert_eq!(core.mesh.completed_count, 3);
}

#[test]
fn test_retry_succeeds_on_third_attempt() {
    let config = OrchestratorConfig::standard();
    let mut core = OrchestratorCore::new(config, 0).unwrap();
    core.start();

    let t = echo_task("flaky", vec![]);
    let id = t.id;
    core.submit(t).unwrap();

    // Attempt 1 fails with an external error: retried after about 100 ms.
    let w = core.executor.dispatch(&mut core.mesh, id, 0).unwrap();
    let d1 = core
        .handle_failure(id, w, "down".to_string(), ErrorClass::External, 1, 100)
        .unwrap();
    match d1 {
        RetryDecision::Retry { delay_ms, next_eligible_ms } => {
            assert_eq!(delay_ms, 100);
            assert_eq!(next_eligible_ms, 200);
        }
        RetryDecision::GiveUp => panic!("first failure must be retried"),
    }
    core.rearm(id).unwrap();

    // Attempt 2 fails: retried after about 200 ms.
    let w = core.executor.dispatch(&mut core.mesh, id, 200).unwrap();
    let d2 = core
        .handle_failure(id, w, "down".to_string(), ErrorClass::External, 2, 300)
        .unwrap();
    match d2 {
        RetryDecision::Retry { delay_ms, .. } => assert_eq!(delay_ms, 200),
        RetryDecision::GiveUp => panic!("second failure must be retried"),
    }
    core.rearm(id).unwrap();

    // Attempt 3 succeeds.
    let w = core.executor.dispatch(&mut core.mesh, id, 500).unwrap();
    core.handle_success(id, w, ok_result(), 500, 600).unwrap();
    assert!(matches!(
        core.mesh.get_status(id).unwrap(),
        TaskStatus::Completed { .. }
    ));
}

#[test]
fn test_retry_gives_up_at_budget() {
    let config = OrchestratorConfig::standard();
    let mut core = OrchestratorCore::new(config, 0).unwrap();
    core.start();

    let t = echo_task("doomed", vec![]).with_max_retries(1);
    let id = t.id;
    core.submit(t).unwrap();

    let w = core.executor.dispatch(&mut core.mesh, id, 0).unwrap();
    let d = core
        .handle_failure(id, w, "down".to_string(), ErrorClass::External, 1, 100)
        .unwrap();
    assert!(matches!(d, RetryDecision::GiveUp));
    assert!(matches!(core.mesh.get_status(id).unwrap(), TaskStatus::Failed { .. }));
}

#[test]
fn test_worker_permit_bound() {
    let mut config = OrchestratorConfig::standard();
    config.max_workers = 1;
    let mut core = OrchestratorCore::new(config, 0).unwrap();
    core.start();

    let a = echo_task("a", vec![]);
    let a_id = a.id;
    core.submit(a).unwrap();
    let b = echo_task("b", vec![]);
    let b_id = b.id;
    core.submit(b).unwrap();

    let wa = core.executor.dispatch(&mut core.mesh, a_id, 0).unwrap();
    // The single permit is taken: the second dispatch is refused.
    let r = core.executor.dispatch(&mut core.mesh, b_id, 1);
    assert!(matches!(r, Err(OrchestratorError::ResourceLimitExceeded(_))));
    assert_eq!(core.executor.running.len(), 1);

    core.handle_success(a_id, wa, ok_result(), 0, 5).unwrap();
    assert!(core.executor.dispatch(&mut core.mesh, b_id, 10).is_ok());
}

#[test]
fn test_cancellation_is_idempotent_and_releases_permit() {
    let config = OrchestratorConfig::standard();
    let mut core = OrchestratorCore::new(config, 0).unwrap();
    core.start();

    let t = echo_task("sleeper", vec![]);
    let id = t.id;
    core.submit(t).unwrap();
    core.executor.dispatch(&mut core.mesh, id, 0).unwrap();
    assert_eq!(core.executor.running.len(), 1);

    let first = core.cancel(id, 500).unwrap();
    assert!(first);
    assert!(matches!(
        core.mesh.get_status(id).unwrap(),
        TaskStatus::Cancelled { .. }
    ));
    // The permit is back and no completion was recorded.
    assert_eq!(core.executor.running.len(), 0);
    assert_eq!(core.mesh.completed_count, 0);

    // Cancelling again changes nothing.
    let second = core.cancel(id, 600).unwrap();
    assert!(!second);
    assert!(matches!(
        core.mesh.get_status(id).unwrap(),
        TaskStatus::Cancelled { .. }
    ));
}

#[test]
fn test_snapshot_restore_preserves_mesh_and_counter() {
    let mut config = OrchestratorConfig::standard();
    config.backup.checkpoint_config.tasks_per_checkpoint = 6;
    let mut core = OrchestratorCore::new(config.clone(), 0).unwrap();
    core.start();

    let mut ids = Vec::new();
    for i in 0..10 {
        let t = echo_task(&format!("t{}", i), vec![]);
        ids.push(t.id);
        core.submit(t).unwrap();
    }
    for id in ids.iter().take(6) {
        let w = core.executor.dispatch(&mut core.mesh, *id, 0).unwrap();
        core.handle_success(*id, w, ok_result(), 0, 5).unwrap();
    }
    assert_eq!(core.mesh.completed_count, 6);
    // The sixth completion triggered an incremental checkpoint.
    assert_eq!(core.checkpoint_store.len(), 1);
    assert_eq!(core.checkpoint_store[0].task_count, 6);

    core.snapshot_now(metrics(), 1_000).unwrap();
    assert_eq!(core.snapshot_store.len(), 1);

    // A fresh process with the same configuration restores the same
    // mesh and counter from the stored artifacts.
    let mut fresh = OrchestratorCore::new(config, 0).unwrap();
    fresh.snapshot_store = core.snapshot_store.clone();
    fresh.checkpoint_store = core.checkpoint_store.clone();
    let (snap_found, cp_found) = fresh.restore_latest().unwrap();
    assert!(snap_found);
    assert!(cp_found);

    assert_eq!(fresh.mesh.completed_count, 6);
    assert_eq!(fresh.engine.completed_tasks_count, 6);
    assert_eq!(fresh.mesh.nodes.len(), 10);
    assert_eq!(fresh.mesh.edges.len(), 0);
    for (i, id) in ids.iter().enumerate() {
        let status = fresh.mesh.get_status(*id).unwrap();
        if i < 6 {
            assert!(matches!(status, TaskStatus::Completed { .. }));
        } else {
            assert!(matches!(status, TaskStatus::Ready));
        }
    }
    for (i, node) in core.mesh.nodes.iter().enumerate() {
        assert_eq!(fresh.mesh.nodes[i].task, node.task);
        assert_eq!(fresh.mesh.nodes[i].status, node.status);
    }
}

#[test]
fn test_snapshot_retention_caps_store() {
    let mut config = OrchestratorConfig::standard();
    config.backup.snapshot_config.max_snapshots = 3;
    let mut core = OrchestratorCore::new(config, 0).unwrap();
    core.start();
    for i in 0..5 {
        core.snapshot_now(metrics(), 1_000 + i).unwrap();
    }
    assert_eq!(core.snapshot_store.len(), 3);
}

#[test]
fn test_schedule_task() {
    let mut scheduler = Scheduler::new(SchedulingHeuristic::Priority);
    let task = echo_task("test", vec![]).with_priority(80);

    scheduler.schedule_task(&task);
    assert_eq!(scheduler.queue.len(), 1);
    assert_eq!(scheduler.queue[0].task_id, task.id);
    assert_eq!(scheduler.queue[0].priority, 80);
}

#[test]
fn test_priority_scheduling() {
    let mut mesh = task_mesh::mesh::TaskMesh::new();
    let mut scheduler = Scheduler::new(SchedulingHeuristic::Priority);

    let task1 = echo_task("low", vec![]).with_priority(20);
    let task2 = echo_task("high", vec![]).with_priority(80);
    let high_id = task2.id;

    scheduler.schedule_task(&task1);
    scheduler.schedule_task(&task2);
    mesh.add_task(task1).unwrap();
    mesh.add_task(task2).unwrap();

    let next_task = scheduler.next(&mesh, 10_000, 1 << 40, 0);
    assert_eq!(next_task, Some(high_id));
    assert_eq!(scheduler.queue.len(), 1);
}

#[test]
fn test_scheduler_skips_blocked_tasks() {
    let mut mesh = task_mesh::mesh::TaskMesh::new();
    let mut scheduler = Scheduler::new(SchedulingHeuristic::Priority);

    let a = echo_task("a", vec![]).with_priority(10);
    let a_id = a.id;
    let b = echo_task("b", vec![a_id]).with_priority(90);
    let b_id = b.id;

    mesh.add_task(a).unwrap();
    let b_clone_for_queue = echo_task("b2", vec![]);
    let _ = b_clone_for_queue;
    scheduler.schedule_task(&b);
    mesh.add_task(b).unwrap();

    // The high-priority task waits on its predecessor, so it is not
    // handed out; nothing else is queued.
    let next_task = scheduler.next(&mesh, 10_000, 1 << 40, 0);
    assert_eq!(next_task, None);
    assert_eq!(scheduler.queue.len(), 1);
    let _ = b_id;
}

#[test]
fn test_execution_plan_generation() {
    let mut mesh = task_mesh::mesh::TaskMesh::new();
    let scheduler = Scheduler::new(SchedulingHeuristic::Priority);

    let task1 = echo_task("task1", vec![]).with_priority(50);
    let t1 = task1.id;
    mesh.add_task(task1).unwrap();
    let task2 = echo_task("task2", vec![t1]).with_priority(60);
    mesh.add_task(task2).unwrap();

    let plan = scheduler.generate_execution_plan(&mesh, 4);
    assert_eq!(plan.execution_order.len(), 2);
    assert_eq!(plan.execution_order[0], t1);
    assert_eq!(plan.parallel_groups.len(), 1);
    assert_eq!(plan.sync_points.len(), 1);
}

#[test]
fn test_backend_gate_sheds_load_when_open() {
    let config = OrchestratorConfig::standard();
    let mut core = OrchestratorCore::new(config, 0).unwrap();
    core.start();
    let layer = task_mesh::types::ExecutionLayer::Cluster;

    // Five consecutive failures trip the breaker (threshold five).
    for i in 0..5u64 {
        core.backend_gate(&layer, i).unwrap();
        core.report_backend_outcome(&layer, false, i);
    }
    // Subsequent calls fail fast without reaching the backend.
    let r = core.backend_gate(&layer, 10);
    assert!(matches!(
        r,
        Err(OrchestratorError::ExternalUnavailable { open: true, .. })
    ));
    // A different backend's breaker is unaffected.
    assert!(core.backend_gate(&task_mesh::types::ExecutionLayer::Local, 10).is_ok());
}
