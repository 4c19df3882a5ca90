//! Tests of the task mesh: registration, dependencies, cycle
//! rejection, readiness and the status machine.

use task_mesh::errors::{ErrorClass, OrchestratorError};
use task_mesh::graph::DependencyEdge;
use task_mesh::mesh::TaskMesh;
use task_mesh::types::{
    DependencyType, SearchCriteria, Task, TaskDefinition, TaskResult, TaskStatus,
};

fn echo_task(name: &str, deps: Vec<u128>) -> Task {
    Task::new(name.to_string(), TaskDefinition::Command("echo test".to_string()), deps)
}

fn ok_result() -> TaskResult {
    TaskResult {
        exit_code: 0,
        stdout: String::new(),
        stderr: String::new(),
        output_data: None,
        metrics: task_mesh::types::ExecutionMetrics::zero(),
    }
}

#[test]
fn test_task_creation() {
    let task = echo_task("Test Task", vec![]);
    assert_eq!(task.name, "Test Task");
    assert_eq!(task.priority, 50);
    assert_eq!(task.max_retries, 3);
}

#[test]
fn test_task_mesh_creation() {
    let mut mesh = TaskMesh::new();
    let task = echo_task("Test", vec![]);
    let task_id = task.id;

    let result = mesh.add_task(task);
    assert!(result.is_ok());
    assert_eq!(result.unwrap(), task_id);

    let retrieved_task = mesh.get_task(task_id);
    assert!(retrieved_task.is_some());
    assert_eq!(retrieved_task.unwrap().name, "Test");
}

#[test]
fn test_dependency_addition() {
    let mut mesh = TaskMesh::new();
    let task1 = echo_task("Task 1", vec![]);
    let task2 = echo_task("Task 2", vec![]);
    let task1_id = task1.id;
    let task2_id = task2.id;

    mesh.add_task(task1).unwrap();
    mesh.add_task(task2).unwrap();

    let edge = DependencyEdge::new(task1_id, task2_id, DependencyType::Hard);
    let result = mesh.add_dependency(edge);

    assert!(result.is_ok());
}

#[test]
fn test_cyclic_dependency_detection() {
    let mut mesh = TaskMesh::new();
    let task1 = echo_task("Task 1", vec![]);
    let task2 = echo_task("Task 2", vec![]);
    let task1_id = task1.id;
    let task2_id = task2.id;

    mesh.add_task(task1).unwrap();
    mesh.add_task(task2).unwrap();

    let edge1 = DependencyEdge::new(task1_id, task2_id, DependencyType::Hard);
    mesh.add_dependency(edge1).unwrap();

    let edges_before = mesh.edges.len();
    let edge2 = DependencyEdge::new(task2_id, task1_id, DependencyType::Hard);
    let result = mesh.add_dependency(edge2);

    assert!(matches!(result, Err(OrchestratorError::CyclicDependency)));
    // The mesh is unchanged by the rejected edge.
    assert_eq!(mesh.edges.len(), edges_before);
    assert_eq!(mesh.nodes.len(), 2);
}

#[test]
fn test_register_task() {
    let mut mesh = TaskMesh::new();
    let task = echo_task("test", vec![]);
    let task_id = task.id;

    let result = mesh.add_task(task);
    assert!(result.is_ok());
    assert!(mesh.get_task(task_id).is_some());
}

#[test]
fn test_circular_dependency_detection() {
    let mut mesh = TaskMesh::new();

    let task1 = echo_task("task1", vec![]);
    let task1_id = task1.id;
    mesh.add_task(task1).unwrap();

    let task2 = echo_task("task2", vec![task1_id]);
    let task2_id = task2.id;
    mesh.add_task(task2).unwrap();

    // A diamond-shaped dependency is not a cycle.
    let task3 = echo_task("task3", vec![task2_id, task1_id]);
    let result = mesh.add_task(task3);
    assert!(result.is_ok());
}

#[test]
fn test_get_ready_tasks() {
    let mut mesh = TaskMesh::new();

    let task1 = echo_task("task1", vec![]);
    let task1_id = task1.id;
    mesh.add_task(task1).unwrap();

    let task2 = echo_task("task2", vec![task1_id]);
    let task2_id = task2.id;
    mesh.add_task(task2).unwrap();

    // With nothing completed only the first task is ready.
    let ready = mesh.ready_tasks();
    assert_eq!(ready.len(), 1);
    assert_eq!(ready[0], task1_id);

    // Completing the first makes the second ready.
    mesh.set_status(task1_id, TaskStatus::Running { worker: 0, started_at_ms: 1 }).unwrap();
    mesh.set_status(
        task1_id,
        TaskStatus::Completed { started_at_ms: 1, completed_at_ms: 2, result: ok_result() },
    )
    .unwrap();
    mesh.promote_ready();
    let ready = mesh.ready_tasks();
    assert_eq!(ready.len(), 1);
    assert_eq!(ready[0], task2_id);
}

#[test]
fn test_priority_clamp() {
    let task = echo_task("p", vec![]).with_priority(250);
    assert_eq!(task.priority, 100);
    let task = echo_task("p", vec![]).with_priority(100);
    assert_eq!(task.priority, 100);
    let task = echo_task("p", vec![]).with_priority(0);
    assert_eq!(task.priority, 0);
}

#[test]
fn test_empty_predecessors_immediately_ready() {
    let mut mesh = TaskMesh::new();
    let task = echo_task("solo", vec![]);
    let id = task.id;
    mesh.add_task(task).unwrap();
    let status = mesh.get_status(id).unwrap();
    assert!(matches!(status, TaskStatus::Ready));
}

#[test]
fn test_missing_predecessor_rejected() {
    let mut mesh = TaskMesh::new();
    let ghost_dep: u128 = 424242;
    let task = echo_task("orphan", vec![ghost_dep]);
    let result = mesh.add_task(task);
    assert!(matches!(result, Err(OrchestratorError::TaskNotFound(d)) if d == ghost_dep));
    assert_eq!(mesh.nodes.len(), 0);
}

#[test]
fn test_status_transitions_follow_machine() {
    let mut mesh = TaskMesh::new();
    let task = echo_task("t", vec![]);
    let id = task.id;
    mesh.add_task(task).unwrap();

    // Ready -> Completed skips Running and is rejected.
    let bad = mesh.set_status(
        id,
        TaskStatus::Completed { started_at_ms: 0, completed_at_ms: 1, result: ok_result() },
    );
    assert!(matches!(bad, Err(OrchestratorError::InvalidTransition { .. })));

    // Ready -> Running -> Completed is accepted and counted once.
    mesh.set_status(id, TaskStatus::Running { worker: 0, started_at_ms: 1 }).unwrap();
    mesh.set_status(
        id,
        TaskStatus::Completed { started_at_ms: 1, completed_at_ms: 2, result: ok_result() },
    )
    .unwrap();
    assert_eq!(mesh.completed_count, 1);

    // Completed is absorbing.
    let again = mesh.set_status(id, TaskStatus::Ready);
    assert!(matches!(again, Err(OrchestratorError::InvalidTransition { .. })));
    assert_eq!(mesh.completed_count, 1);
}

#[test]
fn test_completed_counter_matches_completions() {
    let mut mesh = TaskMesh::new();
    let mut ids = Vec::new();
    let mut i = 0;
    while i < 5 {
        let t = echo_task("t", vec![]);
        ids.push(t.id);
        mesh.add_task(t).unwrap();
        i += 1;
    }
    for (n, id) in ids.iter().enumerate() {
        mesh.set_status(*id, TaskStatus::Running { worker: 0, started_at_ms: 1 }).unwrap();
        mesh.set_status(
            *id,
            TaskStatus::Completed { started_at_ms: 1, completed_at_ms: 2, result: ok_result() },
        )
        .unwrap();
        assert_eq!(mesh.completed_count, (n + 1) as u64);
    }
}

#[test]
fn test_failed_rearm_within_budget() {
    let mut mesh = TaskMesh::new();
    let task = echo_task("retryable", vec![]).with_max_retries(2);
    let id = task.id;
    mesh.add_task(task).unwrap();

    mesh.set_status(id, TaskStatus::Running { worker: 0, started_at_ms: 1 }).unwrap();
    mesh.set_status(
        id,
        TaskStatus::Failed {
            error: "boom".to_string(),
            class: ErrorClass::External,
            attempt: 1,
            failed_at_ms: 2,
        },
    )
    .unwrap();
    // Within budget and recoverable: the task may be re-armed.
    assert!(mesh.set_status(id, TaskStatus::Ready).is_ok());

    mesh.set_status(id, TaskStatus::Running { worker: 0, started_at_ms: 3 }).unwrap();
    mesh.set_status(
        id,
        TaskStatus::Failed {
            error: "boom".to_string(),
            class: ErrorClass::Validation,
            attempt: 2,
            failed_at_ms: 4,
        },
    )
    .unwrap();
    // A validation failure is not recoverable: re-arming is rejected.
    assert!(mesh.set_status(id, TaskStatus::Ready).is_err());
}

#[test]
fn test_dependents_and_dependencies() {
    let mut mesh = TaskMesh::new();
    let a = echo_task("a", vec![]);
    let a_id = a.id;
    mesh.add_task(a).unwrap();
    let b = echo_task("b", vec![a_id]);
    let b_id = b.id;
    mesh.add_task(b).unwrap();

    assert_eq!(mesh.dependents(a_id), vec![b_id]);
    assert_eq!(mesh.dependencies(b_id), vec![a_id]);
    assert!(mesh.dependents(b_id).is_empty());
}

#[test]
fn test_statistics_counts_by_status() {
    let mut mesh = TaskMesh::new();
    let a = echo_task("a", vec![]);
    let a_id = a.id;
    mesh.add_task(a).unwrap();
    let b = echo_task("b", vec![a_id]);
    mesh.add_task(b).unwrap();

    let stats = mesh.statistics();
    assert_eq!(stats.total_tasks, 2);
    assert_eq!(stats.total_dependencies, 1);
    assert_eq!(stats.ready, 1);
    assert_eq!(stats.pending, 1);
    assert_eq!(stats.completed, 0);
}

#[test]
fn test_check_wf_accepts_mesh_and_rejects_bad_counter() {
    let mut mesh = TaskMesh::new();
    let task = echo_task("t", vec![]);
    mesh.add_task(task).unwrap();
    assert!(mesh.check_wf());

    mesh.completed_count = 7;
    assert!(!mesh.check_wf());
}

#[test]
fn test_search_by_tag() {
    let mut mesh = TaskMesh::new();
    let task = echo_task("test", vec![]).with_tags(vec!["test-tag".to_string()]);

    mesh.add_task(task).unwrap();

    let tasks = mesh.tasks_by_tag("test-tag");
    assert_eq!(tasks.len(), 1);
    assert!(mesh.tasks_by_tag("absent").is_empty());
}

#[test]
fn test_generate_stats() {
    let mut mesh = TaskMesh::new();

    let task1 = echo_task("task1", vec![])
        .with_priority(80)
        .with_tags(vec!["high-priority".to_string()]);
    let task2 = echo_task("task2", vec![])
        .with_priority(20)
        .with_tags(vec!["low-priority".to_string()]);

    mesh.add_task(task1).unwrap();
    mesh.add_task(task2).unwrap();

    let stats = mesh.generate_stats();
    assert_eq!(stats.total_tasks, 2);
    assert_eq!(stats.priority_distribution.len(), 2);
    assert_eq!(stats.popular_tags.len(), 2);
    assert_eq!(stats.detected_cycles, 0);
}

#[test]
fn test_topological_order_respects_edges() {
    let mut mesh = TaskMesh::new();
    let a = echo_task("a", vec![]);
    let a_id = a.id;
    mesh.add_task(a).unwrap();
    let b = echo_task("b", vec![a_id]);
    let b_id = b.id;
    mesh.add_task(b).unwrap();
    let c = echo_task("c", vec![a_id, b_id]);
    let c_id = c.id;
    mesh.add_task(c).unwrap();

    let order = mesh.topological_order();
    assert_eq!(order.len(), 3);
    let pos = |id: u128| order.iter().position(|x| *x == id).unwrap();
    assert!(pos(a_id) < pos(b_id));
    assert!(pos(b_id) < pos(c_id));
}

#[test]
fn test_search_tasks_by_criteria() {
    let mut mesh = TaskMesh::new();
    let t1 = echo_task("build kernel", vec![])
        .with_priority(90)
        .with_tags(vec!["build".to_string()]);
    let t1_id = t1.id;
    mesh.add_task(t1).unwrap();
    let t2 = echo_task("run tests", vec![t1_id]).with_priority(30);
    mesh.add_task(t2).unwrap();

    // Everything matches the empty criteria.
    assert_eq!(mesh.search_tasks(&SearchCriteria::any()).len(), 2);

    // Filter by name substring.
    let mut c = SearchCriteria::any();
    c.name_pattern = Some("kernel".to_string());
    let found = mesh.search_tasks(&c);
    assert_eq!(found, vec![t1_id]);

    // Filter by minimum priority.
    let mut c = SearchCriteria::any();
    c.min_priority = Some(50);
    assert_eq!(mesh.search_tasks(&c), vec![t1_id]);

    // Filter to tasks without declared predecessors.
    let mut c = SearchCriteria::any();
    c.no_dependencies = Some(true);
    assert_eq!(mesh.search_tasks(&c), vec![t1_id]);

    // Filter by tag.
    let mut c = SearchCriteria::any();
    c.tags = Some(vec!["build".to_string()]);
    assert_eq!(mesh.search_tasks(&c), vec![t1_id]);
}
