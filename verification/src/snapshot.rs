//! The snapshot and checkpoint engine: full snapshots of the mesh as a
//! deterministically serialized payload, incremental checkpoints keyed
//! on the completed-task counter, object-store keys, retention, and a
//! verified restore path.

use vstd::prelude::*;
use crate::codec::{dec_len, enc_le, lemma_dec_len_round, lemma_enc_le_len, lemma_starts_with_concat, starts_with};
use crate::config::{CheckpointConfig, SnapshotConfig};
use crate::graph::DependencyEdge;
use crate::mesh::{count_mesh_status, count_status, MeshNode, TaskMesh};
use crate::trusted::{timestamp_code_of, uuid_text_of};
use crate::types::{StatusKind, TaskId};
use crate::wire::{
    dec_bytes, dec_edges, dec_ids, dec_nodes, dec_opt_u128, dec_opt_u64, dec_str, enc_bytes,
    enc_edges, enc_ids, enc_nodes, enc_opt_u128, enc_opt_u64, enc_str, fits_len,
    lemma_dec_bytes_round, lemma_dec_edges_round, lemma_dec_ids_round, lemma_dec_nodes_round,
    lemma_dec_opt_u128_round, lemma_dec_opt_u64_round, lemma_dec_str_round, nodes_ok, nodes_view,
    read_bytes, read_edges, read_ids, read_nodes, read_opt_u128, read_opt_u64, read_str, read_u128,
    read_u64, write_bytes, write_edges, write_ids, write_nodes, write_opt_u128, write_opt_u64,
    write_str, write_u128, write_u64, NodeView,
};

verus! {

broadcast use vstd::seq_lib::group_seq_properties;

/// A record of system metrics captured alongside a snapshot.
#[derive(Debug, Clone, PartialEq)]
pub struct SystemMetricsRecord {
    pub cpu_permille: u64,
    pub memory_bytes: u64,
    pub tasks_running: u64,
    pub uptime_ms: u64,
}

/// Counts and sizes describing a snapshot.
#[derive(Debug, Clone, PartialEq)]
pub struct SnapshotMetadata {
    pub total_tasks: u64,
    pub completed_tasks: u64,
    pub failed_tasks: u64,
    pub running_tasks: u64,
    pub size_bytes: u64,
    pub compression_permille: Option<u64>,
}

/// A full snapshot: the serialized mesh plus metrics and metadata.
#[derive(Debug, Clone, PartialEq)]
pub struct Snapshot {
    pub id: u128,
    pub timestamp_ms: u64,
    pub version: String,
    pub mesh_bytes: Vec<u8>,
    pub metrics: SystemMetricsRecord,
    pub metadata: SnapshotMetadata,
}

/// The recoverable system state carried by a checkpoint.
#[derive(Debug, Clone, PartialEq)]
pub struct SystemState {
    pub active_tasks: Vec<TaskId>,
    pub pending_tasks: Vec<TaskId>,
    pub failed_tasks: Vec<TaskId>,
    pub configuration_hash: String,
}

/// An incremental checkpoint keyed on the completed-task counter.
#[derive(Debug, Clone, PartialEq)]
pub struct Checkpoint {
    pub id: u128,
    pub timestamp_ms: u64,
    pub task_count: u64,
    pub last_completed_task: Option<TaskId>,
    pub system_state: SystemState,
    pub recovery_data: String,
}

// === Mesh payload ==========================================================

/// The deterministic serialization of a mesh: its nodes, edges and
/// completed counter.
pub open spec fn enc_mesh_payload(nv: Seq<NodeView>, es: Seq<DependencyEdge>, cc: u64) -> Seq<u8> {
    enc_nodes(nv) + enc_edges(es) + enc_le(cc as nat, 8)
}

/// The mirrored decoder for a mesh payload.
pub open spec fn dec_mesh_payload(b: Seq<u8>, p: int) -> Option<
    ((Seq<NodeView>, Seq<DependencyEdge>, u64), int),
> {
    match dec_nodes(b, p) {
        None => None,
        Some((nv, p1)) => match dec_edges(b, p1) {
            None => None,
            Some((es, p2)) => match dec_len(b, p2, 8) {
                None => None,
                Some((cc, p3)) => Some(((nv, es, cc as u64), p3)),
            },
        },
    }
}

/// Decoding inverts mesh-payload encoding: restoring the serialized
/// form of any mesh yields its tasks, edges, statuses and counter back.
#[verifier::rlimit(100)]
pub proof fn lemma_mesh_payload_round(b: Seq<u8>, p: int, nv: Seq<NodeView>, es: Seq<DependencyEdge>, cc: u64)
    requires
        starts_with(b, p, enc_mesh_payload(nv, es, cc)),
        nodes_ok(nv),
        fits_len(es.len()),
    ensures
        dec_mesh_payload(b, p) == Some(
            ((nv, es, cc), p + enc_mesh_payload(nv, es, cc).len() as int),
        ),
{
    crate::codec::lemma_pow256_8();
    let e1 = enc_nodes(nv);
    let e2 = enc_edges(es);
    let e3 = enc_le(cc as nat, 8);
    assert(enc_mesh_payload(nv, es, cc) =~= e1 + (e2 + e3));
    lemma_starts_with_concat(b, p, e1, e2 + e3);
    lemma_dec_nodes_round(b, p, nv);
    let p1 = p + e1.len();
    lemma_starts_with_concat(b, p1, e2, e3);
    lemma_dec_edges_round(b, p1, es);
    let p2 = p1 + e2.len();
    lemma_dec_len_round(b, p2, cc as nat, 8);
    lemma_enc_le_len(cc as nat, 8);
}

/// Serializes the mesh deterministically.
pub fn mesh_payload(mesh: &TaskMesh) -> (r: Vec<u8>)
    ensures
        r@ == enc_mesh_payload(nodes_view(mesh.nodes@), mesh.edges@, mesh.completed_count),
        nodes_ok(nodes_view(mesh.nodes@)),
        fits_len(mesh.edges@.len()),
{
    let mut out: Vec<u8> = Vec::new();
    write_nodes(&mut out, &mesh.nodes);
    write_edges(&mut out, &mesh.edges);
    write_u64(&mut out, mesh.completed_count);
    proof {
        assert(out@ =~= enc_mesh_payload(
            nodes_view(mesh.nodes@),
            mesh.edges@,
            mesh.completed_count,
        ));
    }
    out
}

/// A payload that fails to decode is not the serialization of any
/// mesh.
proof fn lemma_restore_none(b: Seq<u8>)
    requires
        dec_mesh_payload(b, 0) is None,
    ensures
        forall|nv: Seq<NodeView>, es: Seq<DependencyEdge>, cc: u64|
            !(b == enc_mesh_payload(nv, es, cc) && nodes_ok(nv) && fits_len(es.len())),
{
    assert forall|nv: Seq<NodeView>, es: Seq<DependencyEdge>, cc: u64|
        !(b == enc_mesh_payload(nv, es, cc) && nodes_ok(nv) && fits_len(es.len())) by {
        if b == enc_mesh_payload(nv, es, cc) && nodes_ok(nv) && fits_len(es.len()) {
            assert(b.subrange(0, enc_mesh_payload(nv, es, cc).len() as int) =~= b);
            lemma_mesh_payload_round(b, 0, nv, es, cc);
        }
    };
}

/// Rebuilds a mesh from a serialized payload. On the payload of any
/// mesh it returns nodes, edges and counter equal to the original's.
pub fn restore_mesh(buf: &Vec<u8>) -> (r: Option<TaskMesh>)
    ensures
        r matches Some(m) ==> (dec_mesh_payload(buf@, 0) matches Some(q) && nodes_view(m.nodes@)
            == q.0.0 && m.edges@ == q.0.1 && m.completed_count == q.0.2),
        forall|nv: Seq<NodeView>, es: Seq<DependencyEdge>, cc: u64|
            (buf@ == enc_mesh_payload(nv, es, cc) && nodes_ok(nv) && fits_len(es.len())) ==> (
            r matches Some(m) && nodes_view(m.nodes@) == nv && m.edges@ == es
                && m.completed_count == cc),
{
    let r0 = read_nodes(buf, 0);
    let (nodes, p1) = match r0 {
        Some(v) => v,
        None => {
            proof {
                lemma_restore_none(buf@);
            }
            return None;
        },
    };
    let r1 = read_edges(buf, p1);
    let (edges, p2) = match r1 {
        Some(v) => v,
        None => {
            proof {
                lemma_restore_none(buf@);
            }
            return None;
        },
    };
    let r2 = read_u64(buf, p2);
    let (cc, _p3) = match r2 {
        Some(v) => v,
        None => {
            proof {
                lemma_restore_none(buf@);
            }
            return None;
        },
    };
    let m = TaskMesh { nodes, edges, completed_count: cc };
    proof {
        assert forall|nv: Seq<NodeView>, es: Seq<DependencyEdge>, cc2: u64|
            (buf@ == enc_mesh_payload(nv, es, cc2) && nodes_ok(nv) && fits_len(es.len()))
                implies (nodes_view(m.nodes@) == nv && m.edges@ == es && m.completed_count
                == cc2) by {
            assert(buf@.subrange(0, enc_mesh_payload(nv, es, cc2).len() as int) =~= buf@);
            lemma_mesh_payload_round(buf@, 0, nv, es, cc2);
        };
    }
    Some(m)
}

// === The engine ============================================================

/// The snapshot and checkpoint engine: serial snapshots, a monotone
/// completed-task counter, and checkpoint triggering every
/// `tasks_per_checkpoint` completions.
#[derive(Debug, Clone, PartialEq)]
pub struct SnapshotEngine {
    pub snapshot_config: SnapshotConfig,
    pub checkpoint_config: CheckpointConfig,
    pub completed_tasks_count: u64,
    pub last_snapshot_ms: Option<u64>,
    pub last_checkpoint_ms: Option<u64>,
    pub snapshotting: bool,
}

impl SnapshotEngine {
    /// Creates an idle engine with a zero counter.
    pub fn new(snapshot_config: SnapshotConfig, checkpoint_config: CheckpointConfig) -> (r:
        SnapshotEngine)
        requires
            checkpoint_config.tasks_per_checkpoint > 0,
        ensures
            r.snapshot_config == snapshot_config,
            r.checkpoint_config == checkpoint_config,
            r.completed_tasks_count == 0,
            r.last_snapshot_ms is None,
            r.last_checkpoint_ms is None,
            !r.snapshotting,
    {
        SnapshotEngine {
            snapshot_config,
            checkpoint_config,
            completed_tasks_count: 0,
            last_snapshot_ms: None,
            last_checkpoint_ms: None,
            snapshotting: false,
        }
    }

    /// Records one task completion. The counter grows by exactly one;
    /// a checkpoint is produced exactly when the new count is a
    /// multiple of `tasks_per_checkpoint`.
    pub fn on_task_completed(
        &mut self,
        task_id: TaskId,
        system_state: SystemState,
        recovery_data: String,
        now_ms: u64,
    ) -> (r: Option<Checkpoint>)
        requires
            old(self).completed_tasks_count < u64::MAX,
            old(self).checkpoint_config.tasks_per_checkpoint > 0,
        ensures
            final(self).completed_tasks_count == old(self).completed_tasks_count + 1,
            final(self).snapshot_config == old(self).snapshot_config,
            final(self).checkpoint_config == old(self).checkpoint_config,
            final(self).snapshotting == old(self).snapshotting,
            final(self).last_snapshot_ms == old(self).last_snapshot_ms,
            r is Some <==> final(self).completed_tasks_count % (
            old(self).checkpoint_config.tasks_per_checkpoint as u64) == 0,
            r matches Some(cp) ==> {
                &&& cp.task_count == final(self).completed_tasks_count
                &&& cp.last_completed_task == Some(task_id)
                &&& cp.timestamp_ms == now_ms
                &&& cp.system_state == system_state
                &&& cp.recovery_data == recovery_data
                &&& final(self).last_checkpoint_ms == Some(now_ms)
            },
            r is None ==> final(self).last_checkpoint_ms == old(self).last_checkpoint_ms,
    {
        self.completed_tasks_count = self.completed_tasks_count + 1;
        let per = self.checkpoint_config.tasks_per_checkpoint as u64;
        if self.completed_tasks_count % per == 0 {
            self.last_checkpoint_ms = Some(now_ms);
            Some(
                Checkpoint {
                    id: crate::trusted::fresh_id(),
                    timestamp_ms: now_ms,
                    task_count: self.completed_tasks_count,
                    last_completed_task: Some(task_id),
                    system_state,
                    recovery_data,
                },
            )
        } else {
            None
        }
    }

    /// Produces a checkpoint immediately, regardless of the trigger
    /// count, as happens on shutdown.
    pub fn checkpoint_now(
        &mut self,
        system_state: SystemState,
        recovery_data: String,
        now_ms: u64,
    ) -> (r: Checkpoint)
        ensures
            final(self).completed_tasks_count == old(self).completed_tasks_count,
            final(self).snapshot_config == old(self).snapshot_config,
            final(self).checkpoint_config == old(self).checkpoint_config,
            final(self).snapshotting == old(self).snapshotting,
            final(self).last_snapshot_ms == old(self).last_snapshot_ms,
            final(self).last_checkpoint_ms == Some(now_ms),
            r.task_count == old(self).completed_tasks_count,
            r.timestamp_ms == now_ms,
            r.last_completed_task is None,
            r.system_state == system_state,
            r.recovery_data == recovery_data,
    {
        self.last_checkpoint_ms = Some(now_ms);
        Checkpoint {
            id: crate::trusted::fresh_id(),
            timestamp_ms: now_ms,
            task_count: self.completed_tasks_count,
            last_completed_task: None,
            system_state,
            recovery_data,
        }
    }

    /// Resets the counter from a restored checkpoint.
    pub fn restore_counter(&mut self, count: u64)
        ensures
            final(self).completed_tasks_count == count,
            final(self).snapshot_config == old(self).snapshot_config,
            final(self).checkpoint_config == old(self).checkpoint_config,
            final(self).snapshotting == old(self).snapshotting,
            final(self).last_snapshot_ms == old(self).last_snapshot_ms,
            final(self).last_checkpoint_ms == old(self).last_checkpoint_ms,
    {
        self.completed_tasks_count = count;
    }

    /// Builds a full snapshot of the mesh: the serialized payload plus
    /// metrics and counts by status.
    pub fn build_snapshot(
        &mut self,
        mesh: &TaskMesh,
        metrics: SystemMetricsRecord,
        version: String,
        now_ms: u64,
    ) -> (r: Snapshot)
        requires
            old(self).snapshotting == false,
            mesh.nodes@.len() <= u64::MAX,
        ensures
            final(self).snapshotting == false,
            final(self).last_snapshot_ms == Some(now_ms),
            final(self).completed_tasks_count == old(self).completed_tasks_count,
            final(self).snapshot_config == old(self).snapshot_config,
            final(self).checkpoint_config == old(self).checkpoint_config,
            final(self).last_checkpoint_ms == old(self).last_checkpoint_ms,
            r.timestamp_ms == now_ms,
            r.version == version,
            r.mesh_bytes@ == enc_mesh_payload(
                nodes_view(mesh.nodes@),
                mesh.edges@,
                mesh.completed_count,
            ),
            r.metrics == metrics,
            r.metadata.total_tasks == mesh.nodes@.len(),
            r.metadata.completed_tasks == count_status(mesh.nodes@, StatusKind::Completed),
            r.metadata.failed_tasks == count_status(mesh.nodes@, StatusKind::Failed),
            r.metadata.running_tasks == count_status(mesh.nodes@, StatusKind::Running),
            r.metadata.size_bytes == r.mesh_bytes@.len(),
            r.metadata.compression_permille is None,
    {
        self.snapshotting = true;
        let bytes = mesh_payload(mesh);
        let completed = count_mesh_status(mesh, StatusKind::Completed);
        let failed = count_mesh_status(mesh, StatusKind::Failed);
        let running = count_mesh_status(mesh, StatusKind::Running);
        let size = bytes.len() as u64;
        let snap = Snapshot {
            id: crate::trusted::fresh_id(),
            timestamp_ms: now_ms,
            version,
            mesh_bytes: bytes,
            metrics,
            metadata: SnapshotMetadata {
                total_tasks: mesh.nodes.len() as u64,
                completed_tasks: completed,
                failed_tasks: failed,
                running_tasks: running,
                size_bytes: size,
                compression_permille: None,
            },
        };
        self.last_snapshot_ms = Some(now_ms);
        self.snapshotting = false;
        snap
    }

    /// How many snapshots exceed the retention limit and are to be
    /// deleted, oldest first.
    pub fn retention_excess(&self, stored: usize) -> (r: usize)
        ensures
            r == if stored > self.snapshot_config.max_snapshots as usize {
                stored - self.snapshot_config.max_snapshots as usize
            } else {
                0int
            },
    {
        let max = self.snapshot_config.max_snapshots as usize;
        if stored > max {
            stored - max
        } else {
            0
        }
    }
}

/// Builds the object-store key of a snapshot:
/// `{prefix}/snapshot_{timestamp}_{id}.json`, with `.gz` appended for
/// compressed payloads. The key follows the configured store layout;
/// the payload stored under it is this crate's binary snapshot
/// encoding, and the store treats it as opaque bytes.
pub fn build_snapshot_key(prefix: &str, now_ms: u64, id: u128, compressed: bool) -> (r: String)
    requires
        now_ms < 100_000_000_000_000,
    ensures
        r@ == prefix@ + "/snapshot_"@ + timestamp_code_of(now_ms as int) + "_"@ + uuid_text_of(id)
            + ".json"@ + if compressed {
            ".gz"@
        } else {
            Seq::<char>::empty()
        },
{
    let mut key = prefix.to_owned();
    key.append("/snapshot_");
    let code = crate::trusted::timestamp_code(now_ms);
    key.append(code.as_str());
    key.append("_");
    let idtext = crate::trusted::uuid_text(id);
    key.append(idtext.as_str());
    key.append(".json");
    if compressed {
        key.append(".gz");
    }
    key
}

// === Snapshot and checkpoint wire format ===================================

/// The observable content of a snapshot.
pub struct SnapshotView {
    pub id: u128,
    pub timestamp_ms: u64,
    pub version: Seq<char>,
    pub mesh_bytes: Seq<u8>,
    pub metrics: SystemMetricsRecord,
    pub metadata: SnapshotMetadata,
}

/// The view of a snapshot.
pub open spec fn snapshot_view(s: Snapshot) -> SnapshotView {
    SnapshotView {
        id: s.id,
        timestamp_ms: s.timestamp_ms,
        version: s.version@,
        mesh_bytes: s.mesh_bytes@,
        metrics: s.metrics,
        metadata: s.metadata,
    }
}

/// Whether a snapshot view fits the wire format.
pub open spec fn snapshot_ok(sv: SnapshotView) -> bool {
    crate::wire::str_ok(sv.version) && fits_len(sv.mesh_bytes.len())
}

/// The encoding of a snapshot.
pub open spec fn enc_snapshot(sv: SnapshotView) -> Seq<u8> {
    enc_le(sv.id as nat, 16) + enc_le(sv.timestamp_ms as nat, 8) + enc_str(sv.version) + enc_bytes(
        sv.mesh_bytes,
    ) + enc_le(sv.metrics.cpu_permille as nat, 8) + enc_le(sv.metrics.memory_bytes as nat, 8)
        + enc_le(sv.metrics.tasks_running as nat, 8) + enc_le(sv.metrics.uptime_ms as nat, 8)
        + enc_le(sv.metadata.total_tasks as nat, 8) + enc_le(sv.metadata.completed_tasks as nat, 8)
        + enc_le(sv.metadata.failed_tasks as nat, 8) + enc_le(sv.metadata.running_tasks as nat, 8)
        + enc_le(sv.metadata.size_bytes as nat, 8) + enc_opt_u64(sv.metadata.compression_permille)
}

/// The mirrored decoder for a snapshot.
pub open spec fn dec_snapshot(b: Seq<u8>, p: int) -> Option<(SnapshotView, int)> {
    match dec_len(b, p, 16) {
        None => None,
        Some((id, p1)) => match dec_len(b, p1, 8) {
            None => None,
            Some((ts, p2)) => match dec_str(b, p2) {
                None => None,
                Some((ver, p3)) => match dec_bytes(b, p3) {
                    None => None,
                    Some((mb, p4)) => match dec_len(b, p4, 8) {
                        None => None,
                        Some((cpu, p5)) => match dec_len(b, p5, 8) {
                            None => None,
                            Some((mem, p6)) => match dec_len(b, p6, 8) {
                                None => None,
                                Some((run, p7)) => match dec_len(b, p7, 8) {
                                    None => None,
                                    Some((up, p8)) => match dec_len(b, p8, 8) {
                                        None => None,
                                        Some((tt, p9)) => match dec_len(b, p9, 8) {
                                            None => None,
                                            Some((ct, p10)) => match dec_len(b, p10, 8) {
                                                None => None,
                                                Some((ft, p11)) => match dec_len(b, p11, 8) {
                                                    None => None,
                                                    Some((rt, p12)) => match dec_len(b, p12, 8) {
                                                        None => None,
                                                        Some((sz, p13)) => match dec_opt_u64(
                                                            b,
                                                            p13,
                                                        ) {
                                                            None => None,
                                                            Some((cr, p14)) => Some(
                                                                (
                                                                    SnapshotView {
                                                                        id: id as u128,
                                                                        timestamp_ms: ts as u64,
                                                                        version: ver,
                                                                        mesh_bytes: mb,
                                                                        metrics:
                                                                            SystemMetricsRecord {
                                                                            cpu_permille: cpu
                                                                                as u64,
                                                                            memory_bytes: mem
                                                                                as u64,
                                                                            tasks_running: run
                                                                                as u64,
                                                                            uptime_ms: up as u64,
                                                                        },
                                                                        metadata:
                                                                            SnapshotMetadata {
                                                                            total_tasks: tt
                                                                                as u64,
                                                                            completed_tasks: ct
                                                                                as u64,
                                                                            failed_tasks: ft
                                                                                as u64,
                                                                            running_tasks: rt
                                                                                as u64,
                                                                            size_bytes: sz as u64,
                                                                            compression_permille:
                                                                                cr,
                                                                        },
                                                                    },
                                                                    p14,
                                                                ),
                                                            ),
                                                        },
                                                    },
                                                },
                                            },
                                        },
                                    },
                                },
                            },
                        },
                    },
                },
            },
        },
    }
}

/// Decoding inverts snapshot encoding.
#[verifier::rlimit(100)]
pub proof fn lemma_dec_snapshot_round(b: Seq<u8>, p: int, sv: SnapshotView)
    requires
        starts_with(b, p, enc_snapshot(sv)),
        snapshot_ok(sv),
    ensures
        dec_snapshot(b, p) == Some((sv, p + enc_snapshot(sv).len() as int)),
{
    crate::codec::lemma_pow256_8();
    crate::codec::lemma_pow256_16();
    let e1 = enc_le(sv.id as nat, 16);
    let e2 = enc_le(sv.timestamp_ms as nat, 8);
    let e3 = enc_str(sv.version);
    let e4 = enc_bytes(sv.mesh_bytes);
    let e5 = enc_le(sv.metrics.cpu_permille as nat, 8);
    let e6 = enc_le(sv.metrics.memory_bytes as nat, 8);
    let e7 = enc_le(sv.metrics.tasks_running as nat, 8);
    let e8 = enc_le(sv.metrics.uptime_ms as nat, 8);
    let e9 = enc_le(sv.metadata.total_tasks as nat, 8);
    let e10 = enc_le(sv.metadata.completed_tasks as nat, 8);
    let e11 = enc_le(sv.metadata.failed_tasks as nat, 8);
    let e12 = enc_le(sv.metadata.running_tasks as nat, 8);
    let e13 = enc_le(sv.metadata.size_bytes as nat, 8);
    let e14 = enc_opt_u64(sv.metadata.compression_permille);
    assert(enc_snapshot(sv) =~= e1 + (e2 + (e3 + (e4 + (e5 + (e6 + (e7 + (e8 + (e9 + (e10 + (e11
        + (e12 + (e13 + e14)))))))))))));
    lemma_starts_with_concat(
        b,
        p,
        e1,
        e2 + (e3 + (e4 + (e5 + (e6 + (e7 + (e8 + (e9 + (e10 + (e11 + (e12 + (e13 + e14))))))))))),
    );
    lemma_dec_len_round(b, p, sv.id as nat, 16);
    lemma_enc_le_len(sv.id as nat, 16);
    let p1 = p + 16;
    lemma_starts_with_concat(
        b,
        p1,
        e2,
        e3 + (e4 + (e5 + (e6 + (e7 + (e8 + (e9 + (e10 + (e11 + (e12 + (e13 + e14)))))))))),
    );
    lemma_dec_len_round(b, p1, sv.timestamp_ms as nat, 8);
    lemma_enc_le_len(sv.timestamp_ms as nat, 8);
    let p2 = p1 + 8;
    lemma_starts_with_concat(
        b,
        p2,
        e3,
        e4 + (e5 + (e6 + (e7 + (e8 + (e9 + (e10 + (e11 + (e12 + (e13 + e14))))))))),
    );
    lemma_dec_str_round(b, p2, sv.version);
    let p3 = p2 + e3.len();
    lemma_starts_with_concat(
        b,
        p3,
        e4,
        e5 + (e6 + (e7 + (e8 + (e9 + (e10 + (e11 + (e12 + (e13 + e14)))))))),
    );
    lemma_dec_bytes_round(b, p3, sv.mesh_bytes);
    let p4 = p3 + e4.len();
    lemma_starts_with_concat(b, p4, e5, e6 + (e7 + (e8 + (e9 + (e10 + (e11 + (e12 + (e13 + e14))))))));
    lemma_dec_len_round(b, p4, sv.metrics.cpu_permille as nat, 8);
    lemma_enc_le_len(sv.metrics.cpu_permille as nat, 8);
    let p5 = p4 + 8;
    lemma_starts_with_concat(b, p5, e6, e7 + (e8 + (e9 + (e10 + (e11 + (e12 + (e13 + e14)))))));
    lemma_dec_len_round(b, p5, sv.metrics.memory_bytes as nat, 8);
    lemma_enc_le_len(sv.metrics.memory_bytes as nat, 8);
    let p6 = p5 + 8;
    lemma_starts_with_concat(b, p6, e7, e8 + (e9 + (e10 + (e11 + (e12 + (e13 + e14))))));
    lemma_dec_len_round(b, p6, sv.metrics.tasks_running as nat, 8);
    lemma_enc_le_len(sv.metrics.tasks_running as nat, 8);
    let p7 = p6 + 8;
    lemma_starts_with_concat(b, p7, e8, e9 + (e10 + (e11 + (e12 + (e13 + e14)))));
    lemma_dec_len_round(b, p7, sv.metrics.uptime_ms as nat, 8);
    lemma_enc_le_len(sv.metrics.uptime_ms as nat, 8);
    let p8 = p7 + 8;
    lemma_starts_with_concat(b, p8, e9, e10 + (e11 + (e12 + (e13 + e14))));
    lemma_dec_len_round(b, p8, sv.metadata.total_tasks as nat, 8);
    lemma_enc_le_len(sv.metadata.total_tasks as nat, 8);
    let p9 = p8 + 8;
    lemma_starts_with_concat(b, p9, e10, e11 + (e12 + (e13 + e14)));
    lemma_dec_len_round(b, p9, sv.metadata.completed_tasks as nat, 8);
    lemma_enc_le_len(sv.metadata.completed_tasks as nat, 8);
    let p10 = p9 + 8;
    lemma_starts_with_concat(b, p10, e11, e12 + (e13 + e14));
    lemma_dec_len_round(b, p10, sv.metadata.failed_tasks as nat, 8);
    lemma_enc_le_len(sv.metadata.failed_tasks as nat, 8);
    let p11 = p10 + 8;
    lemma_starts_with_concat(b, p11, e12, e13 + e14);
    lemma_dec_len_round(b, p11, sv.metadata.running_tasks as nat, 8);
    lemma_enc_le_len(sv.metadata.running_tasks as nat, 8);
    let p12 = p11 + 8;
    lemma_starts_with_concat(b, p12, e13, e14);
    lemma_dec_len_round(b, p12, sv.metadata.size_bytes as nat, 8);
    lemma_enc_le_len(sv.metadata.size_bytes as nat, 8);
    let p13 = p12 + 8;
    lemma_dec_opt_u64_round(b, p13, sv.metadata.compression_permille);
}

/// Encodes one snapshot as a byte vector.
pub fn encode_snapshot(s: &Snapshot) -> (r: Vec<u8>)
    ensures
        r@ == enc_snapshot(snapshot_view(*s)),
        snapshot_ok(snapshot_view(*s)),
{
    let mut out: Vec<u8> = Vec::new();
    write_u128(&mut out, s.id);
    write_u64(&mut out, s.timestamp_ms);
    write_str(&mut out, s.version.as_str());
    write_bytes(&mut out, &s.mesh_bytes);
    write_u64(&mut out, s.metrics.cpu_permille);
    write_u64(&mut out, s.metrics.memory_bytes);
    write_u64(&mut out, s.metrics.tasks_running);
    write_u64(&mut out, s.metrics.uptime_ms);
    write_u64(&mut out, s.metadata.total_tasks);
    write_u64(&mut out, s.metadata.completed_tasks);
    write_u64(&mut out, s.metadata.failed_tasks);
    write_u64(&mut out, s.metadata.running_tasks);
    write_u64(&mut out, s.metadata.size_bytes);
    write_opt_u64(&mut out, &s.metadata.compression_permille);
    proof {
        assert(out@ =~= enc_snapshot(snapshot_view(*s)));
    }
    out
}

/// Decodes one snapshot from a byte vector. On the encoding of any
/// snapshot it returns that snapshot back.
pub fn decode_snapshot(buf: &Vec<u8>) -> (r: Option<Snapshot>)
    ensures
        r matches Some(s) ==> (dec_snapshot(buf@, 0) matches Some(q) && snapshot_view(s) == q.0),
        forall|sv: SnapshotView|
            (buf@ == enc_snapshot(sv) && snapshot_ok(sv)) ==> (r matches Some(s)
                && snapshot_view(s) == sv),
{
    let res = read_snapshot(buf, 0);
    proof {
        assert forall|sv: SnapshotView| buf@ == enc_snapshot(sv) && snapshot_ok(sv) implies (
        res matches Some(pr) && snapshot_view(pr.0) == sv) by {
            assert(buf@.subrange(0, enc_snapshot(sv).len() as int) =~= buf@);
            lemma_dec_snapshot_round(buf@, 0, sv);
        };
    }
    match res {
        Some((s, _)) => Some(s),
        None => None,
    }
}

/// Reads a snapshot at a position.
pub fn read_snapshot(buf: &Vec<u8>, pos: usize) -> (rr: Option<(Snapshot, usize)>)
    ensures
        rr is None ==> dec_snapshot(buf@, pos as int) is None,
        rr matches Some(p) ==> (dec_snapshot(buf@, pos as int) matches Some(q) && snapshot_view(
            p.0,
        ) == q.0 && p.1 as int == q.1),
{
    let (id, p1) = match read_u128(buf, pos) {
            Some(v) => v,
            None => {
                return None;
            },
        };
        let (ts, p2) = match read_u64(buf, p1) {
            Some(v) => v,
            None => {
                return None;
            },
        };
        let (ver, p3) = match read_str(buf, p2) {
            Some(v) => v,
            None => {
                return None;
            },
        };
        let (mb, p4) = match read_bytes(buf, p3) {
            Some(v) => v,
            None => {
                return None;
            },
        };
        let (cpu, p5) = match read_u64(buf, p4) {
            Some(v) => v,
            None => {
                return None;
            },
        };
        let (mem, p6) = match read_u64(buf, p5) {
            Some(v) => v,
            None => {
                return None;
            },
        };
        let (run, p7) = match read_u64(buf, p6) {
            Some(v) => v,
            None => {
                return None;
            },
        };
        let (up, p8) = match read_u64(buf, p7) {
            Some(v) => v,
            None => {
                return None;
            },
        };
        let (tt, p9) = match read_u64(buf, p8) {
            Some(v) => v,
            None => {
                return None;
            },
        };
        let (ct, p10) = match read_u64(buf, p9) {
            Some(v) => v,
            None => {
                return None;
            },
        };
        let (ft, p11) = match read_u64(buf, p10) {
            Some(v) => v,
            None => {
                return None;
            },
        };
        let (rt, p12) = match read_u64(buf, p11) {
            Some(v) => v,
            None => {
                return None;
            },
        };
        let (sz, p13) = match read_u64(buf, p12) {
            Some(v) => v,
            None => {
                return None;
            },
        };
        let (cr, p14) = match read_opt_u64(buf, p13) {
            Some(v) => v,
            None => {
                return None;
            },
        };
        Some(
            (
                Snapshot {
                    id,
                    timestamp_ms: ts,
                    version: ver,
                    mesh_bytes: mb,
                    metrics: SystemMetricsRecord {
                        cpu_permille: cpu,
                        memory_bytes: mem,
                        tasks_running: run,
                        uptime_ms: up,
                    },
                    metadata: SnapshotMetadata {
                        total_tasks: tt,
                        completed_tasks: ct,
                        failed_tasks: ft,
                        running_tasks: rt,
                        size_bytes: sz,
                        compression_permille: cr,
                    },
                },
                p14,
            ),
        )
}

/// The observable content of a checkpoint.
pub struct CheckpointView {
    pub id: u128,
    pub timestamp_ms: u64,
    pub task_count: u64,
    pub last_completed_task: Option<u128>,
    pub active_tasks: Seq<u128>,
    pub pending_tasks: Seq<u128>,
    pub failed_tasks: Seq<u128>,
    pub configuration_hash: Seq<char>,
    pub recovery_data: Seq<char>,
}

/// The view of a checkpoint.
pub open spec fn checkpoint_view(c: Checkpoint) -> CheckpointView {
    CheckpointView {
        id: c.id,
        timestamp_ms: c.timestamp_ms,
        task_count: c.task_count,
        last_completed_task: c.last_completed_task,
        active_tasks: c.system_state.active_tasks@,
        pending_tasks: c.system_state.pending_tasks@,
        failed_tasks: c.system_state.failed_tasks@,
        configuration_hash: c.system_state.configuration_hash@,
        recovery_data: c.recovery_data@,
    }
}

/// A field-wise copy of a checkpoint; the copy shows the same view.
pub fn clone_checkpoint(c: &Checkpoint) -> (r: Checkpoint)
    ensures
        checkpoint_view(r) == checkpoint_view(*c),
{
    let r = Checkpoint {
        id: c.id,
        timestamp_ms: c.timestamp_ms,
        task_count: c.task_count,
        last_completed_task: c.last_completed_task,
        system_state: SystemState {
            active_tasks: clone_id_vec(&c.system_state.active_tasks),
            pending_tasks: clone_id_vec(&c.system_state.pending_tasks),
            failed_tasks: clone_id_vec(&c.system_state.failed_tasks),
            configuration_hash: c.system_state.configuration_hash.clone(),
        },
        recovery_data: c.recovery_data.clone(),
    };
    r
}

/// An element-wise copy of an identifier vector.
pub fn clone_id_vec(v: &Vec<TaskId>) -> (r: Vec<TaskId>)
    ensures
        r@ == v@,
{
    let mut out: Vec<TaskId> = Vec::new();
    let mut i: usize = 0;
    while i < v.len()
        invariant
            i <= v@.len(),
            out@ == v@.take(i as int),
        decreases v@.len() - i,
    {
        out.push(v[i]);
        i = i + 1;
    }
    proof {
        assert(out@ =~= v@);
    }
    out
}

/// The retention cutoff: checkpoints stamped before
/// `now - retention_days` (in milliseconds) are discarded.
pub open spec fn spec_checkpoint_cutoff(retention_days: u32, now_ms: u64) -> u64 {
    if now_ms >= retention_days * 86_400_000 {
        (now_ms - retention_days * 86_400_000) as u64
    } else {
        0u64
    }
}

/// The checkpoint views that retention keeps: those stamped at or
/// after the cutoff, in their stored order.
pub open spec fn spec_prune_checkpoints(s: Seq<CheckpointView>, cutoff: u64) -> Seq<CheckpointView>
    decreases s.len(),
{
    if s.len() == 0 {
        Seq::empty()
    } else {
        spec_prune_checkpoints(s.drop_last(), cutoff) + (if s.last().timestamp_ms >= cutoff {
            seq![s.last()]
        } else {
            Seq::<CheckpointView>::empty()
        })
    }
}

/// Drops every stored checkpoint older than the retention window,
/// keeping the rest in order.
pub fn prune_checkpoints(store: &mut Vec<Checkpoint>, retention_days: u32, now_ms: u64)
    ensures
        final(store)@.map_values(|c: Checkpoint| checkpoint_view(c)) == spec_prune_checkpoints(
            old(store)@.map_values(|c: Checkpoint| checkpoint_view(c)),
            spec_checkpoint_cutoff(retention_days, now_ms),
        ),
{
    proof {
        assert(retention_days * 86_400_000 <= u32::MAX * 86_400_000) by (nonlinear_arith)
            requires
                retention_days <= u32::MAX,
        ;
    }
    let span = (retention_days as u64) * 86_400_000u64;
    let cutoff = if now_ms >= span {
        now_ms - span
    } else {
        0u64
    };
    let ghost cut = spec_checkpoint_cutoff(retention_days, now_ms);
    let mut kept: Vec<Checkpoint> = Vec::new();
    let mut i: usize = 0;
    while i < store.len()
        invariant
            cutoff == spec_checkpoint_cutoff(retention_days, now_ms),
            i <= store@.len(),
            store@ == old(store)@,
            kept@.map_values(|c: Checkpoint| checkpoint_view(c)) == spec_prune_checkpoints(
                store@.take(i as int).map_values(|c: Checkpoint| checkpoint_view(c)),
                cutoff,
            ),
        decreases store@.len() - i,
    {
        let ghost pre = store@.take(i as int).map_values(|c: Checkpoint| checkpoint_view(c));
        let ghost cur = store@.take(i as int + 1).map_values(|c: Checkpoint| checkpoint_view(c));
        proof {
            assert(store@.take(i as int + 1).drop_last() =~= store@.take(i as int));
            assert(cur.drop_last() =~= pre);
            assert(cur.last() == checkpoint_view(store@[i as int]));
            assert(cur.len() > 0);
        }
        if store[i].timestamp_ms >= cutoff {
            kept.push(clone_checkpoint(&store[i]));
            proof {
                assert(kept@.map_values(|c: Checkpoint| checkpoint_view(c))
                    =~= spec_prune_checkpoints(pre, cutoff) + seq![cur.last()]);
                assert(spec_prune_checkpoints(cur, cutoff) == spec_prune_checkpoints(pre, cutoff)
                    + seq![cur.last()]);
            }
        } else {
            proof {
                assert(spec_prune_checkpoints(cur, cutoff) =~= spec_prune_checkpoints(
                    pre,
                    cutoff,
                ));
            }
        }
        i = i + 1;
    }
    proof {
        assert(store@.take(store@.len() as int) =~= store@);
    }
    *store = kept;
}

/// Whether a checkpoint view fits the wire format.
pub open spec fn checkpoint_ok(cv: CheckpointView) -> bool {
    &&& fits_len(cv.active_tasks.len())
    &&& fits_len(cv.pending_tasks.len())
    &&& fits_len(cv.failed_tasks.len())
    &&& crate::wire::str_ok(cv.configuration_hash)
    &&& crate::wire::str_ok(cv.recovery_data)
}

/// The encoding of a checkpoint.
pub open spec fn enc_checkpoint(cv: CheckpointView) -> Seq<u8> {
    enc_le(cv.id as nat, 16) + enc_le(cv.timestamp_ms as nat, 8) + enc_le(cv.task_count as nat, 8)
        + enc_opt_u128(cv.last_completed_task) + enc_ids(cv.active_tasks) + enc_ids(
        cv.pending_tasks,
    ) + enc_ids(cv.failed_tasks) + enc_str(cv.configuration_hash) + enc_str(cv.recovery_data)
}

/// The mirrored decoder for a checkpoint.
pub open spec fn dec_checkpoint(b: Seq<u8>, p: int) -> Option<(CheckpointView, int)> {
    match dec_len(b, p, 16) {
        None => None,
        Some((id, p1)) => match dec_len(b, p1, 8) {
            None => None,
            Some((ts, p2)) => match dec_len(b, p2, 8) {
                None => None,
                Some((tc, p3)) => match dec_opt_u128(b, p3) {
                    None => None,
                    Some((lt, p4)) => match dec_ids(b, p4) {
                        None => None,
                        Some((act, p5)) => match dec_ids(b, p5) {
                            None => None,
                            Some((pen, p6)) => match dec_ids(b, p6) {
                                None => None,
                                Some((fai, p7)) => match dec_str(b, p7) {
                                    None => None,
                                    Some((ch, p8)) => match dec_str(b, p8) {
                                        None => None,
                                        Some((rd, p9)) => Some(
                                            (
                                                CheckpointView {
                                                    id: id as u128,
                                                    timestamp_ms: ts as u64,
                                                    task_count: tc as u64,
                                                    last_completed_task: lt,
                                                    active_tasks: act,
                                                    pending_tasks: pen,
                                                    failed_tasks: fai,
                                                    configuration_hash: ch,
                                                    recovery_data: rd,
                                                },
                                                p9,
                                            ),
                                        ),
                                    },
                                },
                            },
                        },
                    },
                },
            },
        },
    }
}

/// Decoding inverts checkpoint encoding.
#[verifier::rlimit(100)]
pub proof fn lemma_dec_checkpoint_round(b: Seq<u8>, p: int, cv: CheckpointView)
    requires
        starts_with(b, p, enc_checkpoint(cv)),
        checkpoint_ok(cv),
    ensures
        dec_checkpoint(b, p) == Some((cv, p + enc_checkpoint(cv).len() as int)),
{
    crate::codec::lemma_pow256_8();
    crate::codec::lemma_pow256_16();
    let e1 = enc_le(cv.id as nat, 16);
    let e2 = enc_le(cv.timestamp_ms as nat, 8);
    let e3 = enc_le(cv.task_count as nat, 8);
    let e4 = enc_opt_u128(cv.last_completed_task);
    let e5 = enc_ids(cv.active_tasks);
    let e6 = enc_ids(cv.pending_tasks);
    let e7 = enc_ids(cv.failed_tasks);
    let e8 = enc_str(cv.configuration_hash);
    let e9 = enc_str(cv.recovery_data);
    assert(enc_checkpoint(cv) =~= e1 + (e2 + (e3 + (e4 + (e5 + (e6 + (e7 + (e8 + e9))))))));
    lemma_starts_with_concat(b, p, e1, e2 + (e3 + (e4 + (e5 + (e6 + (e7 + (e8 + e9)))))));
    lemma_dec_len_round(b, p, cv.id as nat, 16);
    lemma_enc_le_len(cv.id as nat, 16);
    let p1 = p + 16;
    lemma_starts_with_concat(b, p1, e2, e3 + (e4 + (e5 + (e6 + (e7 + (e8 + e9))))));
    lemma_dec_len_round(b, p1, cv.timestamp_ms as nat, 8);
    lemma_enc_le_len(cv.timestamp_ms as nat, 8);
    let p2 = p1 + 8;
    lemma_starts_with_concat(b, p2, e3, e4 + (e5 + (e6 + (e7 + (e8 + e9)))));
    lemma_dec_len_round(b, p2, cv.task_count as nat, 8);
    lemma_enc_le_len(cv.task_count as nat, 8);
    let p3 = p2 + 8;
    lemma_starts_with_concat(b, p3, e4, e5 + (e6 + (e7 + (e8 + e9))));
    lemma_dec_opt_u128_round(b, p3, cv.last_completed_task);
    let p4 = p3 + e4.len();
    lemma_starts_with_concat(b, p4, e5, e6 + (e7 + (e8 + e9)));
    lemma_dec_ids_round(b, p4, cv.active_tasks);
    let p5 = p4 + e5.len();
    lemma_starts_with_concat(b, p5, e6, e7 + (e8 + e9));
    lemma_dec_ids_round(b, p5, cv.pending_tasks);
    let p6 = p5 + e6.len();
    lemma_starts_with_concat(b, p6, e7, e8 + e9);
    lemma_dec_ids_round(b, p6, cv.failed_tasks);
    let p7 = p6 + e7.len();
    lemma_starts_with_concat(b, p7, e8, e9);
    lemma_dec_str_round(b, p7, cv.configuration_hash);
    let p8 = p7 + e8.len();
    lemma_dec_str_round(b, p8, cv.recovery_data);
}

/// Encodes one checkpoint as a byte vector.
pub fn encode_checkpoint(c: &Checkpoint) -> (r: Vec<u8>)
    ensures
        r@ == enc_checkpoint(checkpoint_view(*c)),
        checkpoint_ok(checkpoint_view(*c)),
{
    let mut out: Vec<u8> = Vec::new();
    write_u128(&mut out, c.id);
    write_u64(&mut out, c.timestamp_ms);
    write_u64(&mut out, c.task_count);
    write_opt_u128(&mut out, &c.last_completed_task);
    write_ids(&mut out, &c.system_state.active_tasks);
    write_ids(&mut out, &c.system_state.pending_tasks);
    write_ids(&mut out, &c.system_state.failed_tasks);
    write_str(&mut out, c.system_state.configuration_hash.as_str());
    write_str(&mut out, c.recovery_data.as_str());
    proof {
        assert(out@ =~= enc_checkpoint(checkpoint_view(*c)));
    }
    out
}

/// Decodes one checkpoint from a byte vector. On the encoding of any
/// checkpoint it returns that checkpoint back.
pub fn decode_checkpoint(buf: &Vec<u8>) -> (r: Option<Checkpoint>)
    ensures
        r matches Some(c) ==> (dec_checkpoint(buf@, 0) matches Some(q) && checkpoint_view(c)
            == q.0),
        forall|cv: CheckpointView|
            (buf@ == enc_checkpoint(cv) && checkpoint_ok(cv)) ==> (r matches Some(c)
                && checkpoint_view(c) == cv),
{
    let res = read_checkpoint(buf, 0);
    proof {
        assert forall|cv: CheckpointView| buf@ == enc_checkpoint(cv) && checkpoint_ok(cv) implies (
        res matches Some(pr) && checkpoint_view(pr.0) == cv) by {
            assert(buf@.subrange(0, enc_checkpoint(cv).len() as int) =~= buf@);
            lemma_dec_checkpoint_round(buf@, 0, cv);
        };
    }
    match res {
        Some((c, _)) => Some(c),
        None => None,
    }
}

/// Reads a checkpoint at a position.
pub fn read_checkpoint(buf: &Vec<u8>, pos: usize) -> (rr: Option<(Checkpoint, usize)>)
    ensures
        rr is None ==> dec_checkpoint(buf@, pos as int) is None,
        rr matches Some(p) ==> (dec_checkpoint(buf@, pos as int) matches Some(q)
            && checkpoint_view(p.0) == q.0 && p.1 as int == q.1),
{
    let (id, p1) = match read_u128(buf, pos) {
            Some(v) => v,
            None => {
                return None;
            },
        };
        let (ts, p2) = match read_u64(buf, p1) {
            Some(v) => v,
            None => {
                return None;
            },
        };
        let (tc, p3) = match read_u64(buf, p2) {
            Some(v) => v,
            None => {
                return None;
            },
        };
        let (lt, p4) = match read_opt_u128(buf, p3) {
            Some(v) => v,
            None => {
                return None;
            },
        };
        let (act, p5) = match read_ids(buf, p4) {
            Some(v) => v,
            None => {
                return None;
            },
        };
        let (pen, p6) = match read_ids(buf, p5) {
            Some(v) => v,
            None => {
                return None;
            },
        };
        let (fai, p7) = match read_ids(buf, p6) {
            Some(v) => v,
            None => {
                return None;
            },
        };
        let (ch, p8) = match read_str(buf, p7) {
            Some(v) => v,
            None => {
                return None;
            },
        };
        let (rd, p9) = match read_str(buf, p8) {
            Some(v) => v,
            None => {
                return None;
            },
        };
        Some(
            (
                Checkpoint {
                    id,
                    timestamp_ms: ts,
                    task_count: tc,
                    last_completed_task: lt,
                    system_state: SystemState {
                        active_tasks: act,
                        pending_tasks: pen,
                        failed_tasks: fai,
                        configuration_hash: ch,
                    },
                    recovery_data: rd,
                },
                p9,
            ),
        )
}

} // verus!
