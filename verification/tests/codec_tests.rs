//! Round-trip tests of the wire format: tasks, statuses, snapshots and
//! checkpoints decode back to what was encoded, byte for byte.

use task_mesh::errors::ErrorClass;
use task_mesh::mesh::{MeshNode, TaskMesh};
use task_mesh::snapshot::{
    decode_checkpoint, decode_snapshot, encode_checkpoint, encode_snapshot, mesh_payload,
    restore_mesh, Checkpoint, Snapshot, SnapshotMetadata, SystemMetricsRecord, SystemState,
};
use task_mesh::types::{
    ExecutionMetrics, SubTask, Task, TaskDefinition, TaskResult, TaskStatus, WorkflowStrategy,
};
use task_mesh::wire::{decode_status, decode_task, encode_status, encode_task};

fn sample_task() -> Task {
    Task {
        id: 0x0123_4567_89ab_cdef_0011_2233_4455_6677,
        name: "render frames".to_string(),
        definition: TaskDefinition::PythonScript {
            script: "print('ok')".to_string(),
            args: vec!["--fast".to_string(), "--deep".to_string()],
            env: vec![("HOME".to_string(), "/tmp".to_string())],
        },
        dependencies: vec![1, 2, 3],
        priority: 77,
        metadata: vec![("team".to_string(), "render".to_string())],
        created_at_ms: 1_700_000_000_000,
        timeout_ms: Some(30_000),
        max_retries: 5,
        tags: vec!["gpu".to_string(), "nightly".to_string()],
    }
}

#[test]
fn test_task_codec_round_trip() {
    let task = sample_task();
    let bytes = encode_task(&task);
    let back = decode_task(&bytes).expect("the encoding of a task must decode");
    assert_eq!(back, task);
}

#[test]
fn test_task_codec_round_trip_all_definitions() {
    let defs = vec![
        TaskDefinition::Command("echo hi".to_string()),
        TaskDefinition::RustFunction {
            function_name: "frob".to_string(),
            args: "{\"n\":3}".to_string(),
        },
        TaskDefinition::HttpRequest {
            method: "POST".to_string(),
            url: "http://localhost/x".to_string(),
            headers: vec![("accept".to_string(), "text/plain".to_string())],
            body: Some("payload".to_string()),
        },
        TaskDefinition::Workflow {
            tasks: vec![SubTask { name: "step".to_string(), command: "echo s".to_string() }],
            execution_strategy: WorkflowStrategy::Parallel,
        },
    ];
    for def in defs {
        let mut task = sample_task();
        task.definition = def;
        let bytes = encode_task(&task);
        let back = decode_task(&bytes).unwrap();
        assert_eq!(back, task);
    }
}

#[test]
fn test_status_codec_round_trip() {
    let statuses = vec![
        TaskStatus::Pending,
        TaskStatus::Ready,
        TaskStatus::Running { worker: 3, started_at_ms: 10 },
        TaskStatus::Completed {
            started_at_ms: 10,
            completed_at_ms: 20,
            result: TaskResult {
                exit_code: -7,
                stdout: "out".to_string(),
                stderr: "err".to_string(),
                output_data: Some("{\"k\":1}".to_string()),
                metrics: ExecutionMetrics {
                    execution_time_ms: 10,
                    cpu_permille: 120,
                    memory_usage: 4096,
                    network_read: 1,
                    network_write: 2,
                    disk_read: 3,
                    disk_write: 4,
                },
            },
        },
        TaskStatus::Failed {
            error: "exploded".to_string(),
            class: ErrorClass::External,
            attempt: 2,
            failed_at_ms: 30,
        },
        TaskStatus::Cancelled { reason: "user".to_string(), cancelled_at_ms: 40 },
        TaskStatus::Paused { reason: "waiting".to_string(), paused_at_ms: 50 },
    ];
    for status in statuses {
        let bytes = encode_status(&status);
        let back = decode_status(&bytes).unwrap();
        assert_eq!(back, status);
    }
}

#[test]
fn test_garbage_does_not_decode() {
    let garbage = vec![255u8, 254, 253];
    assert!(decode_task(&garbage).is_none());
    let garbage = vec![99u8];
    assert!(decode_status(&garbage).is_none());
}

#[test]
fn test_mesh_payload_round_trip() {
    let mut mesh = TaskMesh::new();
    let a = Task::new("a".to_string(), TaskDefinition::Command("echo a".to_string()), vec![]);
    let a_id = a.id;
    mesh.add_task(a).unwrap();
    let b = Task::new(
        "b".to_string(),
        TaskDefinition::Command("echo b".to_string()),
        vec![a_id],
    );
    mesh.add_task(b).unwrap();

    let bytes = mesh_payload(&mesh);
    let restored = restore_mesh(&bytes).expect("a serialized mesh must restore");
    assert!(restored.check_wf());
    assert_eq!(restored.nodes.len(), mesh.nodes.len());
    assert_eq!(restored.edges.len(), mesh.edges.len());
    assert_eq!(restored.completed_count, mesh.completed_count);
    for (i, node) in mesh.nodes.iter().enumerate() {
        let r: &MeshNode = &restored.nodes[i];
        assert_eq!(r.task, node.task);
        assert_eq!(r.status, node.status);
        assert_eq!(r.ever_completed, node.ever_completed);
    }
}

#[test]
fn test_snapshot_codec_round_trip() {
    let snap = Snapshot {
        id: 42,
        timestamp_ms: 1_700_000_000_123,
        version: "0.1.0".to_string(),
        mesh_bytes: vec![1, 2, 3, 4, 5],
        metrics: SystemMetricsRecord {
            cpu_permille: 250,
            memory_bytes: 1 << 30,
            tasks_running: 2,
            uptime_ms: 60_000,
        },
        metadata: SnapshotMetadata {
            total_tasks: 10,
            completed_tasks: 6,
            failed_tasks: 1,
            running_tasks: 2,
            size_bytes: 5,
            compression_permille: Some(512),
        },
    };
    let bytes = encode_snapshot(&snap);
    let back = decode_snapshot(&bytes).unwrap();
    assert_eq!(back, snap);
}

#[test]
fn test_checkpoint_codec_round_trip() {
    let cp = Checkpoint {
        id: 77,
        timestamp_ms: 1_700_000_000_456,
        task_count: 6,
        last_completed_task: Some(99),
        system_state: SystemState {
            active_tasks: vec![1, 2],
            pending_tasks: vec![3],
            failed_tasks: vec![],
            configuration_hash: "cafe".to_string(),
        },
        recovery_data: "resume after six".to_string(),
    };
    let bytes = encode_checkpoint(&cp);
    let back = decode_checkpoint(&bytes).unwrap();
    assert_eq!(back, cp);
}

#[test]
fn test_gzip_round_trip() {
    let data: Vec<u8> = (0u16..2000).map(|x| (x % 251) as u8).collect();
    let compressed = task_mesh::trusted::gzip_bytes(&data);
    assert_ne!(compressed, data);
    let back = task_mesh::trusted::gunzip_bytes(&compressed).unwrap();
    assert_eq!(back, data);
}

#[test]
fn test_snapshot_key_shape() {
    let key = task_mesh::snapshot::build_snapshot_key("snapshots", 0, 1, true);
    assert!(key.starts_with("snapshots/snapshot_19700101_000000_"));
    assert!(key.ends_with(".json.gz"));
    let key = task_mesh::snapshot::build_snapshot_key("snapshots", 0, 1, false);
    assert!(key.ends_with(".json"));
}
