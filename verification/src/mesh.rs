//! The task mesh: a directed acyclic graph of tasks with per-task
//! status, dependency-aware readiness, and a completed-task counter that
//! always equals the number of tasks that have ever completed.

use vstd::prelude::*;
use crate::errors::OrchestratorError;
use crate::graph::{
    acyclic, lemma_acyclic_push, lemma_cyclic_push, lemma_exists_source_free,
    lemma_no_out_edges_reach, reach_n, reachable, reaches, DependencyEdge,
};
use crate::types::{DependencyType, SearchCriteria, StatusKind, Task, TaskId, TaskStatus};

verus! {

broadcast use vstd::seq_lib::group_seq_properties;

/// One task inside the mesh, with its current status and whether it has
/// ever entered the completed state.
#[derive(Debug, Clone)]
pub struct MeshNode {
    pub task: Task,
    pub status: TaskStatus,
    pub ever_completed: bool,
}

/// How many nodes have ever completed.
pub open spec fn count_ever_completed(nodes: Seq<MeshNode>) -> int
    decreases nodes.len(),
{
    if nodes.len() == 0 {
        0
    } else {
        count_ever_completed(nodes.drop_last()) + if nodes.last().ever_completed {
            1int
        } else {
            0int
        }
    }
}

/// Whether a status change is a legal transition of the task state
/// machine. `Completed` and `Cancelled` are absorbing; `Failed` may be
/// re-armed to `Ready` only while the failure class is recoverable and
/// the attempt count is within the retry budget.
pub open spec fn valid_transition(from: TaskStatus, to: TaskStatus, max_retries: u32) -> bool {
    match from {
        TaskStatus::Pending => to.spec_kind() == StatusKind::Ready || to.spec_kind()
            == StatusKind::Cancelled || to.spec_kind() == StatusKind::Paused,
        TaskStatus::Ready => to.spec_kind() == StatusKind::Running || to.spec_kind()
            == StatusKind::Cancelled || to.spec_kind() == StatusKind::Paused,
        TaskStatus::Running { .. } => to.spec_kind() == StatusKind::Completed || to.spec_kind()
            == StatusKind::Failed || to.spec_kind() == StatusKind::Cancelled,
        TaskStatus::Failed { class, attempt, .. } => (to.spec_kind() == StatusKind::Ready
            || to.spec_kind() == StatusKind::Cancelled) && class.spec_recoverable() && attempt
            <= max_retries,
        TaskStatus::Cancelled { .. } => false,
        TaskStatus::Completed { .. } => false,
        TaskStatus::Paused { .. } => to.spec_kind() == StatusKind::Ready || to.spec_kind()
            == StatusKind::Cancelled,
    }
}

/// Decides `valid_transition` executably.
pub fn check_transition(from: &TaskStatus, to: &TaskStatus, max_retries: u32) -> (r: bool)
    ensures
        r == valid_transition(*from, *to, max_retries),
{
    let tk = to.kind();
    match from {
        TaskStatus::Pending => tk == StatusKind::Ready || tk == StatusKind::Cancelled || tk
            == StatusKind::Paused,
        TaskStatus::Ready => tk == StatusKind::Running || tk == StatusKind::Cancelled || tk
            == StatusKind::Paused,
        TaskStatus::Running { .. } => tk == StatusKind::Completed || tk == StatusKind::Failed || tk
            == StatusKind::Cancelled,
        TaskStatus::Failed { class, attempt, .. } => (tk == StatusKind::Ready || tk
            == StatusKind::Cancelled) && class.recoverable() && *attempt <= max_retries,
        TaskStatus::Cancelled { .. } => false,
        TaskStatus::Completed { .. } => false,
        TaskStatus::Paused { .. } => tk == StatusKind::Ready || tk == StatusKind::Cancelled,
    }
}

/// The task mesh.
pub struct TaskMesh {
    pub nodes: Vec<MeshNode>,
    pub edges: Vec<DependencyEdge>,
    pub completed_count: u64,
}

impl TaskMesh {
    /// The registered task identifiers, in registration order.
    pub open spec fn ids(self) -> Seq<TaskId> {
        self.nodes@.map_values(|n: MeshNode| n.task.id)
    }

    /// Whether a task with this identifier is registered.
    pub open spec fn has_task(self, id: TaskId) -> bool {
        exists|i: int| 0 <= i < self.nodes@.len() && #[trigger] self.nodes@[i].task.id == id
    }

    /// The node index of a registered identifier.
    pub open spec fn idx_of(self, id: TaskId) -> int {
        choose|i: int| 0 <= i < self.nodes@.len() && #[trigger] self.nodes@[i].task.id == id
    }

    /// The node registered under this identifier.
    pub open spec fn node_of(self, id: TaskId) -> MeshNode {
        self.nodes@[self.idx_of(id)]
    }

    /// The status of a registered task.
    pub open spec fn status_of(self, id: TaskId) -> TaskStatus {
        self.node_of(id).status
    }

    /// Whether every hard predecessor of `id` is completed.
    pub open spec fn hard_deps_completed(self, id: TaskId) -> bool {
        forall|k: int|
            0 <= k < self.edges@.len() && (#[trigger] self.edges@[k]).target == id
                && self.edges@[k].dependency_type == DependencyType::Hard ==> self.status_of(
                self.edges@[k].source,
            ).spec_kind() == StatusKind::Completed
    }

    /// Well-formedness: identifiers are unique, edges connect registered
    /// tasks, the graph is acyclic, the completed flag covers completed
    /// statuses, and the counter matches the flags.
    pub open spec fn wf(self) -> bool {
        &&& self.ids().no_duplicates()
        &&& forall|k: int|
            0 <= k < self.edges@.len() ==> self.has_task(
                (#[trigger] self.edges@[k]).source,
            ) && self.has_task(self.edges@[k].target)
        &&& acyclic(self.edges@)
        &&& forall|i: int|
            0 <= i < self.nodes@.len() && (#[trigger] self.nodes@[i]).status.spec_kind()
                == StatusKind::Completed ==> self.nodes@[i].ever_completed
        &&& self.completed_count == count_ever_completed(self.nodes@)
        &&& self.completed_count <= self.nodes@.len()
    }

    /// An identifier is registered exactly when it occurs in `ids()`.
    pub proof fn lemma_ids_contains(self, id: TaskId)
        ensures
            self.ids().contains(id) <==> self.has_task(id),
    {
        if self.has_task(id) {
            let i = choose|i: int|
                0 <= i < self.nodes@.len() && #[trigger] self.nodes@[i].task.id == id;
            assert(self.ids()[i] == id);
        }
        if self.ids().contains(id) {
            let i = choose|i: int| 0 <= i < self.ids().len() && self.ids()[i] == id;
            assert(self.nodes@[i].task.id == id);
        }
    }

    /// Creates an empty mesh.
    pub fn new() -> (r: TaskMesh)
        ensures
            r.wf(),
            r.nodes@.len() == 0,
            r.edges@.len() == 0,
            r.completed_count == 0,
    {
        TaskMesh { nodes: Vec::new(), edges: Vec::new(), completed_count: 0 }
    }

    /// Finds the node index of an identifier.
    fn find_index(&self, id: TaskId) -> (r: Option<usize>)
        ensures
            match r {
                Some(i) => i < self.nodes@.len() && self.nodes@[i as int].task.id == id,
                None => !self.has_task(id),
            },
    {
        let mut i: usize = 0;
        while i < self.nodes.len()
            invariant
                i <= self.nodes@.len(),
                forall|j: int| 0 <= j < i ==> #[trigger] self.nodes@[j].task.id != id,
            decreases self.nodes@.len() - i,
        {
            if self.nodes[i].task.id == id {
                return Some(i);
            }
            i = i + 1;
        }
        None
    }

    /// Whether a task with this identifier is registered.
    pub fn contains_task(&self, id: TaskId) -> (r: bool)
        ensures
            r == self.has_task(id),
    {
        self.find_index(id).is_some()
    }

    /// Returns the task registered under this identifier.
    pub fn get_task(&self, id: TaskId) -> (r: Option<&Task>)
        requires
            self.wf(),
        ensures
            match r {
                Some(t) => self.has_task(id) && *t == self.node_of(id).task && t.id == id,
                None => !self.has_task(id),
            },
    {
        match self.find_index(id) {
            Some(i) => {
                proof {
                    self.lemma_idx_unique(id, i as int);
                }
                Some(&self.nodes[i].task)
            },
            None => None,
        }
    }

    /// Returns the status of the task registered under this identifier.
    pub fn get_status(&self, id: TaskId) -> (r: Option<&TaskStatus>)
        requires
            self.wf(),
        ensures
            match r {
                Some(s) => self.has_task(id) && *s == self.status_of(id),
                None => !self.has_task(id),
            },
    {
        match self.find_index(id) {
            Some(i) => {
                proof {
                    self.lemma_idx_unique(id, i as int);
                }
                Some(&self.nodes[i].status)
            },
            None => None,
        }
    }

    /// With unique identifiers, any index holding `id` is `idx_of(id)`.
    pub proof fn lemma_idx_unique(self, id: TaskId, i: int)
        requires
            self.ids().no_duplicates(),
            0 <= i < self.nodes@.len(),
            self.nodes@[i].task.id == id,
        ensures
            self.idx_of(id) == i,
            self.has_task(id),
    {
        assert(self.has_task(id));
        let j = self.idx_of(id);
        assert(self.ids()[i] == id && self.ids()[j] == id);
    }

    /// Registers a task. Its declared predecessors become hard edges.
    /// The task starts `Ready` when every declared predecessor is
    /// already completed (in particular when it has none), `Pending`
    /// otherwise. Fails with `InvalidState` when the identifier is
    /// already registered, and with `TaskNotFound` when a declared
    /// predecessor is missing; in both cases the mesh is unchanged.
    pub fn add_task(&mut self, task: Task) -> (r: Result<TaskId, OrchestratorError>)
        requires
            old(self).wf(),
        ensures
            final(self).wf(),
            match r {
                Ok(id) => {
                    &&& id == task.id
                    &&& !old(self).has_task(task.id)
                    &&& forall|j: int|
                        0 <= j < task.dependencies@.len() ==> old(self).has_task(
                            #[trigger] task.dependencies@[j],
                        )
                    &&& final(self).nodes@.len() == old(self).nodes@.len() + 1
                    &&& forall|i: int|
                        0 <= i < old(self).nodes@.len() ==> final(self).nodes@[i] == old(self).nodes@[i]
                    &&& final(self).nodes@.last().task == task
                    &&& final(self).nodes@.last().status == (if forall|j: int|
                        0 <= j < task.dependencies@.len() ==> old(self).status_of(
                            #[trigger] task.dependencies@[j],
                        ).spec_kind() == StatusKind::Completed {
                        TaskStatus::Ready
                    } else {
                        TaskStatus::Pending
                    })
                    &&& final(self).nodes@.last().ever_completed == false
                    &&& final(self).edges@.len() == old(self).edges@.len()
                        + task.dependencies@.len()
                    &&& forall|k: int|
                        0 <= k < old(self).edges@.len() ==> final(self).edges@[k] == old(self).edges@[k]
                    &&& forall|j: int|
                        0 <= j < task.dependencies@.len() ==> {
                            let e = #[trigger] final(self).edges@[old(self).edges@.len() + j];
                            e.source == task.dependencies@[j] && e.target == task.id
                                && e.dependency_type == DependencyType::Hard
                        }
                    &&& final(self).completed_count == old(self).completed_count
                },
                Err(OrchestratorError::InvalidState(_)) => old(self).has_task(task.id)
                    && *final(self) == *old(self),
                Err(OrchestratorError::TaskNotFound(d)) => {
                    &&& !old(self).has_task(task.id)
                    &&& task.dependencies@.contains(d)
                    &&& !old(self).has_task(d)
                    &&& *final(self) == *old(self)
                },
                _ => false,
            },
            r is Err <==> (old(self).has_task(task.id) || exists|j: int|
                0 <= j < task.dependencies@.len() && !old(self).has_task(
                    #[trigger] task.dependencies@[j],
                )),
    {
        if self.contains_task(task.id) {
            return Err(
                OrchestratorError::InvalidState("a task with this id is already registered".to_owned()),
            );
        }
        // Validate the declared predecessors and decide readiness.
        let mut all_completed = true;
        let mut j: usize = 0;
        while j < task.dependencies.len()
            invariant
                self.wf(),
                *self == *old(self),
                !self.has_task(task.id),
                j <= task.dependencies@.len(),
                forall|p: int|
                    0 <= p < j ==> self.has_task(#[trigger] task.dependencies@[p]),
                all_completed == (forall|p: int|
                    0 <= p < j ==> self.status_of(#[trigger] task.dependencies@[p]).spec_kind()
                        == StatusKind::Completed),
            decreases task.dependencies@.len() - j,
        {
            let d = task.dependencies[j];
            match self.get_status(d) {
                Some(st) => {
                    let k = st.kind();
                    if k != StatusKind::Completed {
                        all_completed = false;
                    }
                },
                None => {
                    proof {
                        assert(!self.has_task(task.dependencies@[j as int]));
                        assert(task.dependencies@.contains(d));
                    }
                    return Err(OrchestratorError::TaskNotFound(d));
                },
            }
            j = j + 1;
        }
        let status = if all_completed {
            TaskStatus::Ready
        } else {
            TaskStatus::Pending
        };
        let ghost old_mesh = *self;
        let task_id = task.id;
        let ghost deps = task.dependencies@;
        let node = MeshNode { task, status, ever_completed: false };
        self.nodes.push(node);
        proof {
            // Unique identifiers are preserved: the new one is fresh.
            assert(self.ids() =~= old_mesh.ids().push(task_id));
            assert(self.ids().no_duplicates()) by {
                assert(forall|p: int|
                    0 <= p < old_mesh.ids().len() ==> self.ids()[p] == old_mesh.ids()[p]);
                assert(self.ids().last() == task_id);
                if old_mesh.ids().contains(task_id) {
                    old_mesh.lemma_ids_contains(task_id);
                    assert(false);
                }
            }
            assert(count_ever_completed(self.nodes@) == count_ever_completed(old_mesh.nodes@)) by {
                assert(self.nodes@.drop_last() =~= old_mesh.nodes@);
            }
            assert(forall|x: TaskId| old_mesh.has_task(x) ==> self.has_task(x)) by {
                assert(forall|i: int|
                    0 <= i < old_mesh.nodes@.len() ==> self.nodes@[i] == old_mesh.nodes@[i]);
            }
        }
        // Register one hard edge per declared predecessor. The new node
        // has no outgoing edges, so no cycle can arise.
        let ghost nodes_after = self.nodes@;
        let mut j2: usize = 0;
        let ghost base_edges = self.edges@;
        while j2 < self.nodes[self.nodes.len() - 1].task.dependencies.len()
            invariant
                self.nodes@ == nodes_after,
                self.completed_count == old_mesh.completed_count,
                self.completed_count == count_ever_completed(self.nodes@),
                self.completed_count <= old_mesh.nodes@.len(),
                self.nodes@.len() == old_mesh.nodes@.len() + 1,
                self.nodes@.last().task.dependencies@ == deps,
                self.nodes@.last().task.id == task_id,
                j2 <= deps.len(),
                self.edges@.len() == base_edges.len() + j2,
                forall|k: int| 0 <= k < base_edges.len() ==> self.edges@[k] == base_edges[k],
                forall|p: int|
                    0 <= p < j2 ==> {
                        let e = #[trigger] self.edges@[base_edges.len() + p];
                        e.source == deps[p] && e.target == task_id && e.dependency_type
                            == DependencyType::Hard
                    },
                acyclic(self.edges@),
                forall|k: int|
                    0 <= k < self.edges@.len() ==> (#[trigger] self.edges@[k]).source != task_id,
                forall|k: int|
                    0 <= k < self.edges@.len() ==> self.has_task(
                        (#[trigger] self.edges@[k]).source,
                    ) && self.has_task(self.edges@[k].target),
                forall|p: int| 0 <= p < deps.len() ==> old_mesh.has_task(#[trigger] deps[p]),
                forall|x: TaskId| old_mesh.has_task(x) ==> self.has_task(x),
                !old_mesh.has_task(task_id),
                self.has_task(task_id),
                self.ids().no_duplicates(),
            decreases deps.len() - j2,
        {
            let lasti = self.nodes.len() - 1;
            let d = self.nodes[lasti].task.dependencies[j2];
            let e = DependencyEdge::new(d, task_id, DependencyType::Hard);
            proof {
                // The new node has no outgoing edges, so the edge's
                // target cannot reach its source.
                assert(d != task_id) by {
                    assert(old_mesh.has_task(deps[j2 as int]));
                }
                if reachable(self.edges@, e.target, e.source) {
                    let n = choose|n: nat| reach_n(self.edges@, e.target, e.source, n);
                    lemma_no_out_edges_reach(self.edges@, task_id, e.source, n);
                    assert(false);
                }
                lemma_acyclic_push(self.edges@, e);
            }
            let ghost before = self.edges@;
            self.edges.push(e);
            proof {
                assert(self.edges@ =~= before.push(e));
            }
            j2 = j2 + 1;
        }
        proof {
            assert(self.nodes@.drop_last() =~= old_mesh.nodes@);
            assert(forall|i: int|
                0 <= i < old_mesh.nodes@.len() ==> self.nodes@[i] == old_mesh.nodes@[i]);
            assert(forall|i: int|
                0 <= i < self.nodes@.len() && (#[trigger] self.nodes@[i]).status.spec_kind()
                    == StatusKind::Completed ==> self.nodes@[i].ever_completed);
            // The pre-insertion statuses of the predecessors are intact.
            assert(forall|p: int|
                0 <= p < deps.len() ==> self.status_of(#[trigger] deps[p]) == old_mesh.status_of(
                    deps[p],
                )) by {
                assert forall|p: int| 0 <= p < deps.len() implies self.status_of(
                    #[trigger] deps[p],
                ) == old_mesh.status_of(deps[p]) by {
                    let i = old_mesh.idx_of(deps[p]);
                    assert(old_mesh.nodes@[i].task.id == deps[p]);
                    assert(self.nodes@[i].task.id == deps[p]);
                    self.lemma_idx_unique(deps[p], i);
                }
            }
        }
        Ok(task_id)
    }

    /// Adds a dependency edge. Fails with `TaskNotFound` when an
    /// endpoint is missing and with `CyclicDependency` exactly when
    /// accepting the edge would make the graph cyclic; the mesh is then
    /// unchanged.
    pub fn add_dependency(&mut self, edge: DependencyEdge) -> (r: Result<
        u128,
        OrchestratorError,
    >)
        requires
            old(self).wf(),
        ensures
            final(self).wf(),
            match r {
                Ok(eid) => {
                    &&& eid == edge.id
                    &&& old(self).has_task(edge.source) && old(self).has_task(edge.target)
                    &&& acyclic(old(self).edges@.push(edge))
                    &&& final(self).edges@ == old(self).edges@.push(edge)
                    &&& final(self).nodes@ == old(self).nodes@
                    &&& final(self).completed_count == old(self).completed_count
                },
                Err(OrchestratorError::CyclicDependency) => {
                    &&& old(self).has_task(edge.source) && old(self).has_task(edge.target)
                    &&& !acyclic(old(self).edges@.push(edge))
                    &&& *final(self) == *old(self)
                },
                Err(OrchestratorError::TaskNotFound(d)) => {
                    &&& (d == edge.source || d == edge.target)
                    &&& !old(self).has_task(d)
                    &&& *final(self) == *old(self)
                },
                _ => false,
            },
    {
        if !self.contains_task(edge.source) {
            return Err(OrchestratorError::TaskNotFound(edge.source));
        }
        if !self.contains_task(edge.target) {
            return Err(OrchestratorError::TaskNotFound(edge.target));
        }
        proof {
            self.lemma_ids_contains(edge.target);
            assert forall|k: int| 0 <= k < self.edges@.len() implies #[trigger] self.ids()
                .contains(self.edges@[k].source) by {
                self.lemma_ids_contains(self.edges@[k].source);
            };
            assert forall|k: int| 0 <= k < self.edges@.len() implies #[trigger] self.ids()
                .contains(self.edges@[k].target) by {
                self.lemma_ids_contains(self.edges@[k].target);
            };
        }
        let cycle = reaches(&self.edges, edge.target, edge.source, Ghost(self.ids()));
        if cycle {
            proof {
                lemma_cyclic_push(self.edges@, edge);
            }
            return Err(OrchestratorError::CyclicDependency);
        }
        proof {
            lemma_acyclic_push(self.edges@, edge);
        }
        let eid = edge.id;
        let ghost before = self.edges@;
        self.edges.push(edge);
        proof {
            assert(self.edges@ =~= before.push(edge));
        }
        Ok(eid)
    }

    /// Adds a dependency edge of the given kind between two registered
    /// tasks.
    pub fn add_edge(&mut self, pred: TaskId, succ: TaskId, kind: DependencyType) -> (r: Result<
        u128,
        OrchestratorError,
    >)
        requires
            old(self).wf(),
        ensures
            final(self).wf(),
            match r {
                Ok(_) => {
                    &&& old(self).has_task(pred) && old(self).has_task(succ)
                    &&& final(self).edges@.len() == old(self).edges@.len() + 1
                    &&& final(self).edges@.last().source == pred
                    &&& final(self).edges@.last().target == succ
                    &&& final(self).edges@.last().dependency_type == kind
                    &&& forall|k: int|
                        0 <= k < old(self).edges@.len() ==> final(self).edges@[k] == old(self).edges@[k]
                    &&& final(self).nodes@ == old(self).nodes@
                    &&& final(self).completed_count == old(self).completed_count
                },
                Err(OrchestratorError::CyclicDependency) => {
                    &&& old(self).has_task(pred) && old(self).has_task(succ)
                    &&& reachable(old(self).edges@, succ, pred)
                    &&& *final(self) == *old(self)
                },
                Err(OrchestratorError::TaskNotFound(d)) => {
                    &&& (d == pred || d == succ)
                    &&& !old(self).has_task(d)
                    &&& *final(self) == *old(self)
                },
                _ => false,
            },
    {
        let edge = DependencyEdge::new(pred, succ, kind);
        let r = self.add_dependency(edge);
        proof {
            if r matches Err(OrchestratorError::CyclicDependency) {
                // A rejected edge means its target already reached its
                // source: otherwise the push would have stayed acyclic.
                if !reachable(old(self).edges@, succ, pred) {
                    lemma_acyclic_push(old(self).edges@, edge);
                    assert(false);
                }
            }
        }
        match r {
            Ok(eid) => Ok(eid),
            Err(e) => Err(e),
        }
    }

    /// Whether the given status change would be accepted for the
    /// registered task.
    pub fn can_set_status(&self, id: TaskId, status: &TaskStatus) -> (r: Option<bool>)
        requires
            self.wf(),
        ensures
            match r {
                Some(b) => self.has_task(id) && b == valid_transition(
                    self.status_of(id),
                    *status,
                    self.node_of(id).task.max_retries,
                ),
                None => !self.has_task(id),
            },
    {
        let i = match self.find_index(id) {
            Some(i) => i,
            None => {
                return None;
            },
        };
        proof {
            self.lemma_idx_unique(id, i as int);
        }
        Some(check_transition(&self.nodes[i].status, status, self.nodes[i].task.max_retries))
    }

    /// Changes the status of a registered task, enforcing the task
    /// state machine. On the first transition to `Completed` the
    /// completed counter grows by one; it never changes otherwise.
    pub fn set_status(&mut self, id: TaskId, status: TaskStatus) -> (r: Result<
        (),
        OrchestratorError,
    >)
        requires
            old(self).wf(),
        ensures
            final(self).wf(),
            match r {
                Ok(()) => {
                    &&& old(self).has_task(id)
                    &&& valid_transition(old(self).status_of(id), status, old(self).node_of(
                        id,
                    ).task.max_retries)
                    &&& final(self).has_task(id)
                    &&& final(self).status_of(id) == status
                    &&& final(self).nodes@.len() == old(self).nodes@.len()
                    &&& forall|i: int|
                        0 <= i < old(self).nodes@.len() && i != old(self).idx_of(id) ==> final(self).nodes@[i] == old(self).nodes@[i]
                    &&& final(self).node_of(id).task == old(self).node_of(id).task
                    &&& final(self).edges@ == old(self).edges@
                    &&& final(self).completed_count == old(self).completed_count + (
                    if status.spec_kind() == StatusKind::Completed && !old(self).node_of(
                        id,
                    ).ever_completed {
                        1int
                    } else {
                        0int
                    })
                },
                Err(OrchestratorError::TaskNotFound(d)) => d == id && !old(self).has_task(id)
                    && *final(self) == *old(self),
                Err(OrchestratorError::InvalidTransition { from, to }) => {
                    &&& old(self).has_task(id)
                    &&& from == old(self).status_of(id).spec_kind()
                    &&& to == status.spec_kind()
                    &&& !valid_transition(old(self).status_of(id), status, old(self).node_of(
                        id,
                    ).task.max_retries)
                    &&& *final(self) == *old(self)
                },
                _ => false,
            },
    {
        let i = match self.find_index(id) {
            Some(i) => i,
            None => {
                return Err(OrchestratorError::TaskNotFound(id));
            },
        };
        proof {
            self.lemma_idx_unique(id, i as int);
        }
        let ok = check_transition(&self.nodes[i].status, &status, self.nodes[i].task.max_retries);
        if !ok {
            return Err(
                OrchestratorError::InvalidTransition {
                    from: self.nodes[i].status.kind(),
                    to: status.kind(),
                },
            );
        }
        let ghost old_mesh = *self;
        let becomes_completed = status.kind() == StatusKind::Completed;
        let first_completion = becomes_completed && !self.nodes[i].ever_completed;
        let node = &mut self.nodes[i];
        node.status = status;
        if becomes_completed {
            node.ever_completed = true;
        }
        proof {
        }
        let nlen = self.nodes.len();
        if first_completion {
            proof {
                lemma_count_missing(old_mesh.nodes@, i as int);
                assert(old_mesh == *old(self));
                assert(self.completed_count == count_ever_completed(old_mesh.nodes@));
                assert(old_mesh.nodes@.len() == nlen);
                assert(self.completed_count < nlen);
            }
            self.completed_count = self.completed_count + 1;
        }
        proof {
            let i_ = i as int;
            let newnode = self.nodes@[i_];
            assert(self.nodes@ == old_mesh.nodes@.update(i_, newnode));
            assert(newnode.task == old_mesh.nodes@[i_].task);
            lemma_count_update(old_mesh.nodes@, i_, newnode);
            assert(self.ids() =~= old_mesh.ids());
            // Registration is unchanged: task identifiers are intact.
            assert forall|x: TaskId| old_mesh.has_task(x) implies self.has_task(x) by {
                let j = choose|j: int|
                    0 <= j < old_mesh.nodes@.len() && #[trigger] old_mesh.nodes@[j].task.id == x;
                assert(self.nodes@[j].task.id == x);
            };
            assert forall|x: TaskId| self.has_task(x) implies old_mesh.has_task(x) by {
                let j = choose|j: int|
                    0 <= j < self.nodes@.len() && #[trigger] self.nodes@[j].task.id == x;
                assert(old_mesh.nodes@[j].task.id == x);
            };
            self.lemma_idx_unique(id, i_);
            lemma_count_le_len(self.nodes@);
        }
        Ok(())
    }
}

/// A node that has never completed keeps the count strictly below the
/// node count.
pub proof fn lemma_count_missing(nodes: Seq<MeshNode>, i: int)
    requires
        0 <= i < nodes.len(),
        !nodes[i].ever_completed,
    ensures
        count_ever_completed(nodes) <= nodes.len() - 1,
    decreases nodes.len(),
{
    if i == nodes.len() - 1 {
        lemma_count_le_len(nodes.drop_last());
    } else {
        lemma_count_missing(nodes.drop_last(), i);
    }
}

/// The completed count never exceeds the node count.
pub proof fn lemma_count_le_len(nodes: Seq<MeshNode>)
    ensures
        0 <= count_ever_completed(nodes) <= nodes.len(),
    decreases nodes.len(),
{
    if nodes.len() > 0 {
        lemma_count_le_len(nodes.drop_last());
    }
}

/// Updating one node changes the count exactly by the flag difference.
pub proof fn lemma_count_update(nodes: Seq<MeshNode>, i: int, node: MeshNode)
    requires
        0 <= i < nodes.len(),
    ensures
        count_ever_completed(nodes.update(i, node)) == count_ever_completed(nodes) + (
        if node.ever_completed {
            1int
        } else {
            0int
        }) - (
        if nodes[i].ever_completed {
            1int
        } else {
            0int
        }),
    decreases nodes.len(),
{
    let updated = nodes.update(i, node);
    if i == nodes.len() - 1 {
        assert(updated.drop_last() =~= nodes.drop_last());
        assert(updated.last() == node);
    } else {
        assert(updated.drop_last() =~= nodes.drop_last().update(i, node));
        assert(updated.last() == nodes.last());
        lemma_count_update(nodes.drop_last(), i, node);
    }
}

/// Two node sequences with pointwise equal completion flags have the
/// same completed count.
pub proof fn lemma_count_pointwise(a: Seq<MeshNode>, b: Seq<MeshNode>)
    requires
        a.len() == b.len(),
        forall|i: int| 0 <= i < a.len() ==> a[i].ever_completed == b[i].ever_completed,
    ensures
        count_ever_completed(a) == count_ever_completed(b),
    decreases a.len(),
{
    if a.len() > 0 {
        lemma_count_pointwise(a.drop_last(), b.drop_last());
    }
}

/// The successors of `id`: targets of edges whose source is `id`, in
/// edge order.
pub open spec fn spec_dependents(es: Seq<DependencyEdge>, id: TaskId) -> Seq<TaskId>
    decreases es.len(),
{
    if es.len() == 0 {
        Seq::empty()
    } else {
        spec_dependents(es.drop_last(), id) + if es.last().source == id {
            seq![es.last().target]
        } else {
            Seq::empty()
        }
    }
}

/// The predecessors of `id`: sources of edges whose target is `id`, in
/// edge order.
pub open spec fn spec_dependencies(es: Seq<DependencyEdge>, id: TaskId) -> Seq<TaskId>
    decreases es.len(),
{
    if es.len() == 0 {
        Seq::empty()
    } else {
        spec_dependencies(es.drop_last(), id) + if es.last().target == id {
            seq![es.last().source]
        } else {
            Seq::empty()
        }
    }
}

impl TaskMesh {
    /// Whether `id` is eligible for dispatch: registered, not yet
    /// started, and with every hard predecessor completed.
    pub open spec fn is_ready_for_dispatch(self, id: TaskId) -> bool {
        &&& self.has_task(id)
        &&& (self.status_of(id).spec_kind() == StatusKind::Pending || self.status_of(
            id,
        ).spec_kind() == StatusKind::Ready)
        &&& self.hard_deps_completed(id)
    }

    /// Decides whether every hard predecessor of `id` is completed.
    pub fn hard_deps_ok(&self, id: TaskId) -> (r: bool)
        requires
            self.wf(),
        ensures
            r == self.hard_deps_completed(id),
    {
        let mut k: usize = 0;
        while k < self.edges.len()
            invariant
                self.wf(),
                k <= self.edges@.len(),
                forall|p: int|
                    0 <= p < k && (#[trigger] self.edges@[p]).target == id
                        && self.edges@[p].dependency_type == DependencyType::Hard
                        ==> self.status_of(self.edges@[p].source).spec_kind()
                        == StatusKind::Completed,
            decreases self.edges@.len() - k,
        {
            let e = &self.edges[k];
            if e.target == id {
                let hard = match e.dependency_type {
                    DependencyType::Hard => true,
                    _ => false,
                };
                if hard {
                    let src = e.source;
                    match self.get_status(src) {
                        Some(st) => {
                            if st.kind() != StatusKind::Completed {
                                return false;
                            }
                        },
                        None => {
                            proof {
                                assert(self.has_task(self.edges@[k as int].source));
                            }
                            // Unreachable: edge endpoints are registered.
                            return false;
                        },
                    }
                }
            }
            k = k + 1;
        }
        true
    }

    /// The identifiers of tasks that are ready for dispatch, ordered
    /// by priority, most urgent first.
    pub fn ready_tasks(&self) -> (r: Vec<TaskId>)
        requires
            self.wf(),
        ensures
            r@.no_duplicates(),
            forall|id: TaskId| #[trigger] r@.contains(id) <==> self.is_ready_for_dispatch(id),
            forall|a: int, b: int|
                0 <= a <= b < r@.len() ==> self.node_of(#[trigger] r@[a]).task.priority
                    >= self.node_of(#[trigger] r@[b]).task.priority,
    {
        let mut r: Vec<TaskId> = Vec::new();
        let mut pr: usize = 256;
        while pr > 0
            invariant
                self.wf(),
                pr <= 256,
                r@.no_duplicates(),
                forall|id: TaskId| #[trigger] r@.contains(id) ==> self.has_task(id),
                forall|id: TaskId| #[trigger]
                    r@.contains(id) <==> (self.is_ready_for_dispatch(id) && self.node_of(
                        id,
                    ).task.priority >= pr),
                forall|a: int, b: int|
                    0 <= a <= b < r@.len() ==> self.node_of(#[trigger] r@[a]).task.priority
                        >= self.node_of(#[trigger] r@[b]).task.priority,
            decreases pr,
        {
            pr = pr - 1;
            let p = pr as u8;
            let ghost pr0 = pr;
            let mut i: usize = 0;
            while i < self.nodes.len()
                invariant
                    self.wf(),
                    pr == pr0,
                    pr <= 255,
                    p == pr as u8,
                    i <= self.nodes@.len(),
                    r@.no_duplicates(),
                    forall|id: TaskId| #[trigger]
                        r@.contains(id) ==> self.is_ready_for_dispatch(id) && self.node_of(
                            id,
                        ).task.priority >= pr,
                    forall|id: TaskId|
                        (#[trigger] self.is_ready_for_dispatch(id) && self.node_of(
                            id,
                        ).task.priority >= pr + 1) ==> r@.contains(id),
                    forall|j: int|
                        0 <= j < i && self.nodes@[j].task.priority == p
                            && self.is_ready_for_dispatch(
                            (#[trigger] self.nodes@[j]).task.id,
                        ) ==> r@.contains(self.nodes@[j].task.id),
                    forall|a: int, b: int|
                        0 <= a <= b < r@.len() ==> self.node_of(#[trigger] r@[a]).task.priority
                            >= self.node_of(#[trigger] r@[b]).task.priority,
                decreases self.nodes@.len() - i,
            {
                let id = self.nodes[i].task.id;
                proof {
                    self.lemma_idx_unique(id, i as int);
                }
                if self.nodes[i].task.priority == p {
                    let kind = self.nodes[i].status.kind();
                    let eligible = (kind == StatusKind::Pending || kind == StatusKind::Ready)
                        && self.hard_deps_ok(id);
                    if eligible && !crate::types::contains_id(&r, id) {
                        let ghost rprev = r@;
                        r.push(id);
                        proof {
                            assert(forall|q: int| 0 <= q < rprev.len() ==> r@[q] == rprev[q]);
                            assert(r@.last() == id);
                            assert(r@.no_duplicates()) by {
                                assert(!rprev.contains(id));
                            }
                            assert forall|a: int, b: int|
                                0 <= a <= b < r@.len() implies self.node_of(
                                #[trigger] r@[a],
                            ).task.priority >= self.node_of(#[trigger] r@[b]).task.priority by {
                                if b == r@.len() - 1 {
                                    assert(r@[b] == id);
                                    assert(self.node_of(id).task.priority == p);
                                    if a < b {
                                        assert(rprev.contains(r@[a]));
                                        assert(self.node_of(r@[a]).task.priority >= pr);
                                    }
                                } else {
                                    assert(r@[a] == rprev[a] && r@[b] == rprev[b]);
                                }
                            };
                        }
                    }
                }
                i = i + 1;
            }
            proof {
                assert forall|id: TaskId|
                    (#[trigger] self.is_ready_for_dispatch(id) && self.node_of(
                        id,
                    ).task.priority >= pr) implies r@.contains(id) by {
                    if self.node_of(id).task.priority >= pr + 1 {
                    } else {
                        let j = choose|j: int|
                            0 <= j < self.nodes@.len() && #[trigger] self.nodes@[j].task.id == id;
                        self.lemma_idx_unique(id, j);
                        assert(self.nodes@[j].task.priority == p);
                    }
                };
            }
        }
        proof {
            assert forall|id: TaskId| self.is_ready_for_dispatch(id) implies r@.contains(id) by {
                assert(self.node_of(id).task.priority >= 0);
            };
        }
        r
    }

    /// Promotes every pending task whose hard predecessors are all
    /// completed to `Ready`. Nothing else changes.
    pub fn promote_ready(&mut self) -> (count: usize)
        requires
            old(self).wf(),
        ensures
            final(self).wf(),
            final(self).nodes@.len() == old(self).nodes@.len(),
            final(self).edges@ == old(self).edges@,
            final(self).completed_count == old(self).completed_count,
            forall|j: int|
                0 <= j < old(self).nodes@.len() ==> {
                    let o = old(self).nodes@[j];
                    let n = #[trigger] final(self).nodes@[j];
                    n.task == o.task && n.ever_completed == o.ever_completed && n.status == (
                    if o.status is Pending && old(self).hard_deps_completed(o.task.id) {
                        TaskStatus::Ready
                    } else {
                        o.status
                    })
                },
    {
        // First decide which nodes to promote against the current
        // statuses, then apply the changes.
        let mut flags: Vec<bool> = Vec::new();
        let mut i: usize = 0;
        while i < self.nodes.len()
            invariant
                self.wf(),
                *self == *old(self),
                i <= self.nodes@.len(),
                flags@.len() == i,
                forall|j: int|
                    0 <= j < i ==> #[trigger] flags@[j] == (self.nodes@[j].status is Pending
                        && self.hard_deps_completed(self.nodes@[j].task.id)),
            decreases self.nodes@.len() - i,
        {
            let pending = match &self.nodes[i].status {
                TaskStatus::Pending => true,
                _ => false,
            };
            let f = pending && self.hard_deps_ok(self.nodes[i].task.id);
            flags.push(f);
            i = i + 1;
        }
        let ghost orig = *self;
        let mut promoted: usize = 0;
        let mut j: usize = 0;
        while j < self.nodes.len()
            invariant
                orig == *old(self),
                orig.wf(),
                flags@.len() == orig.nodes@.len(),
                forall|p: int|
                    0 <= p < flags@.len() ==> #[trigger] flags@[p] == (orig.nodes@[p].status is Pending
                        && orig.hard_deps_completed(orig.nodes@[p].task.id)),
                j <= self.nodes@.len(),
                self.nodes@.len() == orig.nodes@.len(),
                self.edges@ == orig.edges@,
                self.completed_count == orig.completed_count,
                promoted <= j,
                forall|p: int|
                    0 <= p < self.nodes@.len() ==> {
                        let o = orig.nodes@[p];
                        let n = #[trigger] self.nodes@[p];
                        n.task == o.task && n.ever_completed == o.ever_completed && n.status == (
                        if p < j && flags@[p] {
                            TaskStatus::Ready
                        } else {
                            o.status
                        })
                    },
            decreases self.nodes@.len() - j,
        {
            if flags[j] {
                let node = &mut self.nodes[j];
                node.status = TaskStatus::Ready;
                promoted = promoted + 1;
            }
            j = j + 1;
        }
        proof {
            assert(self.ids() =~= orig.ids());
            assert forall|x: TaskId| orig.has_task(x) implies self.has_task(x) by {
                let p = choose|p: int|
                    0 <= p < orig.nodes@.len() && #[trigger] orig.nodes@[p].task.id == x;
                assert(self.nodes@[p].task.id == x);
            };
            assert forall|x: TaskId| self.has_task(x) implies orig.has_task(x) by {
                let p = choose|p: int|
                    0 <= p < self.nodes@.len() && #[trigger] self.nodes@[p].task.id == x;
                assert(orig.nodes@[p].task.id == x);
            };
            lemma_count_pointwise(self.nodes@, orig.nodes@);
        }
        promoted
    }

    /// The successors of `id`, in edge order.
    pub fn dependents(&self, id: TaskId) -> (r: Vec<TaskId>)
        ensures
            r@ == spec_dependents(self.edges@, id),
    {
        let mut r: Vec<TaskId> = Vec::new();
        let mut k: usize = 0;
        while k < self.edges.len()
            invariant
                k <= self.edges@.len(),
                r@ == spec_dependents(self.edges@.take(k as int), id),
            decreases self.edges@.len() - k,
        {
            proof {
                assert(self.edges@.take(k + 1).drop_last() =~= self.edges@.take(k as int));
                assert(self.edges@.take(k + 1).last() == self.edges@[k as int]);
            }
            if self.edges[k].source == id {
                r.push(self.edges[k].target);
            }
            proof {
                if self.edges@[k as int].source == id {
                    assert(r@ =~= spec_dependents(self.edges@.take(k as int), id) + seq![
                        self.edges@[k as int].target,
                    ]);
                }
            }
            k = k + 1;
        }
        proof {
            assert(self.edges@.take(self.edges@.len() as int) =~= self.edges@);
        }
        r
    }

    /// The predecessors of `id`, in edge order.
    pub fn dependencies(&self, id: TaskId) -> (r: Vec<TaskId>)
        ensures
            r@ == spec_dependencies(self.edges@, id),
    {
        let mut r: Vec<TaskId> = Vec::new();
        let mut k: usize = 0;
        while k < self.edges.len()
            invariant
                k <= self.edges@.len(),
                r@ == spec_dependencies(self.edges@.take(k as int), id),
            decreases self.edges@.len() - k,
        {
            proof {
                assert(self.edges@.take(k + 1).drop_last() =~= self.edges@.take(k as int));
                assert(self.edges@.take(k + 1).last() == self.edges@[k as int]);
            }
            if self.edges[k].target == id {
                r.push(self.edges[k].source);
            }
            proof {
                if self.edges@[k as int].target == id {
                    assert(r@ =~= spec_dependencies(self.edges@.take(k as int), id) + seq![
                        self.edges@[k as int].source,
                    ]);
                }
            }
            k = k + 1;
        }
        proof {
            assert(self.edges@.take(self.edges@.len() as int) =~= self.edges@);
        }
        r
    }
}

/// Counts nodes whose status has the given kind.
pub open spec fn count_status(nodes: Seq<MeshNode>, kind: StatusKind) -> int
    decreases nodes.len(),
{
    if nodes.len() == 0 {
        0
    } else {
        count_status(nodes.drop_last(), kind) + if nodes.last().status.spec_kind() == kind {
            1int
        } else {
            0int
        }
    }
}

/// Status counts lie between zero and the node count.
pub proof fn lemma_count_status_bounds(nodes: Seq<MeshNode>, kind: StatusKind)
    ensures
        0 <= count_status(nodes, kind) <= nodes.len(),
    decreases nodes.len(),
{
    if nodes.len() > 0 {
        lemma_count_status_bounds(nodes.drop_last(), kind);
    }
}

/// Counts the nodes of a mesh with the given status kind.
pub fn count_mesh_status(mesh: &TaskMesh, kind: StatusKind) -> (r: u64)
    requires
        mesh.nodes@.len() <= u64::MAX,
    ensures
        r == count_status(mesh.nodes@, kind),
{
    let mut c: u64 = 0;
    let mut i: usize = 0;
    proof {
        lemma_count_status_bounds(mesh.nodes@.take(0), kind);
    }
    while i < mesh.nodes.len()
        invariant
            i <= mesh.nodes@.len(),
            mesh.nodes@.len() <= u64::MAX,
            c == count_status(mesh.nodes@.take(i as int), kind),
            c <= i,
        decreases mesh.nodes@.len() - i,
    {
        proof {
            assert(mesh.nodes@.take(i + 1).drop_last() =~= mesh.nodes@.take(i as int));
            assert(mesh.nodes@.take(i + 1).last() == mesh.nodes@[i as int]);
        }
        let k = mesh.nodes[i].status.kind();
        if k == kind {
            c = c + 1;
        }
        i = i + 1;
    }
    proof {
        assert(mesh.nodes@.take(mesh.nodes@.len() as int) =~= mesh.nodes@);
    }
    c
}

/// Counts of a mesh by status, with its sizes.
#[derive(Debug, Clone, PartialEq)]
pub struct TaskMeshStatistics {
    pub total_tasks: usize,
    pub total_dependencies: usize,
    pub pending: u64,
    pub ready: u64,
    pub running: u64,
    pub completed: u64,
    pub failed: u64,
    pub cancelled: u64,
    pub paused: u64,
}

/// A single-node status change keeps every task identifier at its
/// index: the updated node keeps its task, every other node is
/// untouched.
pub proof fn lemma_update_preserves_ids(before: TaskMesh, after: TaskMesh, id: TaskId)
    requires
        before.wf(),
        before.has_task(id),
        after.has_task(id),
        after.nodes@.len() == before.nodes@.len(),
        forall|i: int|
            0 <= i < before.nodes@.len() && i != before.idx_of(id) ==> #[trigger] after.nodes@[i]
                == before.nodes@[i],
        after.node_of(id).task == before.node_of(id).task,
    ensures
        forall|j: int|
            0 <= j < before.nodes@.len() ==> (#[trigger] after.nodes@[j]).task.id
                == before.nodes@[j].task.id,
{
    let oi = before.idx_of(id);
    assert(before.nodes@[oi].task.id == id);
    let ai = after.idx_of(id);
    assert(after.nodes@[ai].task.id == id);
    if ai != oi {
        assert(after.nodes@[ai] == before.nodes@[ai]);
        assert(before.ids()[ai] == id);
        assert(before.ids()[oi] == id);
        assert(false);
    }
    assert(before.node_of(id).task.id == id);
    assert forall|j: int| 0 <= j < before.nodes@.len() implies (#[trigger] after.nodes@[j]).task.id
        == before.nodes@[j].task.id by {
        if j != oi {
            assert(after.nodes@[j] == before.nodes@[j]);
        } else {
            assert(after.nodes@[oi].task == before.nodes@[oi].task);
        }
    };
}

/// A change confined to one node leaves every other task's status
/// alone.
pub proof fn lemma_other_status_preserved(
    before: TaskMesh,
    after: TaskMesh,
    changed: TaskId,
    x: TaskId,
)
    requires
        before.wf(),
        before.has_task(changed),
        before.has_task(x),
        x != changed,
        after.nodes@.len() == before.nodes@.len(),
        forall|i: int|
            0 <= i < before.nodes@.len() && i != before.idx_of(changed)
                ==> #[trigger] after.nodes@[i] == before.nodes@[i],
        forall|i: int|
            0 <= i < before.nodes@.len() ==> (#[trigger] after.nodes@[i]).task.id
                == before.nodes@[i].task.id,
    ensures
        after.status_of(x) == before.status_of(x),
{
    let xi = before.idx_of(x);
    let ci = before.idx_of(changed);
    assert(before.nodes@[xi].task.id == x);
    assert(before.nodes@[ci].task.id == changed);
    assert(xi != ci);
    assert(after.nodes@[xi] == before.nodes@[xi]);
    assert(after.ids().no_duplicates()) by {
        assert(after.ids() =~= before.ids());
    }
    after.lemma_idx_unique(x, xi);
}

/// The completed-task counter of a well-formed mesh always equals the
/// number of tasks that have ever entered the completed state.
pub proof fn lemma_completed_counter(m: TaskMesh)
    requires
        m.wf(),
    ensures
        m.completed_count == count_ever_completed(m.nodes@),
{
}

impl TaskMesh {
    /// Whether the task registered under `id` has ever completed.
    pub fn ever_completed_of(&self, id: TaskId) -> (r: Option<bool>)
        requires
            self.wf(),
        ensures
            match r {
                Some(b) => self.has_task(id) && b == self.node_of(id).ever_completed,
                None => !self.has_task(id),
            },
    {
        let i = match self.find_index(id) {
            Some(i) => i,
            None => {
                return None;
            },
        };
        proof {
            self.lemma_idx_unique(id, i as int);
        }
        Some(self.nodes[i].ever_completed)
    }

    /// Counts the tasks of the mesh by status.
    pub fn statistics(&self) -> (r: TaskMeshStatistics)
        requires
            self.wf(),
            self.nodes@.len() <= u64::MAX,
        ensures
            r.total_tasks == self.nodes@.len(),
            r.total_dependencies == self.edges@.len(),
            r.pending == count_status(self.nodes@, StatusKind::Pending),
            r.ready == count_status(self.nodes@, StatusKind::Ready),
            r.running == count_status(self.nodes@, StatusKind::Running),
            r.completed == count_status(self.nodes@, StatusKind::Completed),
            r.failed == count_status(self.nodes@, StatusKind::Failed),
            r.cancelled == count_status(self.nodes@, StatusKind::Cancelled),
            r.paused == count_status(self.nodes@, StatusKind::Paused),
    {
        TaskMeshStatistics {
            total_tasks: self.nodes.len(),
            total_dependencies: self.edges.len(),
            pending: count_mesh_status(self, StatusKind::Pending),
            ready: count_mesh_status(self, StatusKind::Ready),
            running: count_mesh_status(self, StatusKind::Running),
            completed: count_mesh_status(self, StatusKind::Completed),
            failed: count_mesh_status(self, StatusKind::Failed),
            cancelled: count_mesh_status(self, StatusKind::Cancelled),
            paused: count_mesh_status(self, StatusKind::Paused),
        }
    }

    /// Decides well-formedness, so that a mesh rebuilt from the outside
    /// can be admitted before use.
    pub fn check_wf(&self) -> (r: bool)
        ensures
            r == self.wf(),
    {
        // Unique identifiers.
        let mut i: usize = 0;
        while i < self.nodes.len()
            invariant
                i <= self.nodes@.len(),
                forall|a: int, b: int|
                    0 <= a < b < i ==> #[trigger] self.ids()[a] != #[trigger] self.ids()[b],
            decreases self.nodes@.len() - i,
        {
            let mut j: usize = 0;
            while j < i
                invariant
                    j <= i,
                    i < self.nodes@.len(),
                    forall|b: int| 0 <= b < j ==> #[trigger] self.ids()[b] != self.ids()[i as int],
                decreases i - j,
            {
                if self.nodes[j].task.id == self.nodes[i].task.id {
                    proof {
                        assert(self.ids()[j as int] == self.ids()[i as int]);
                        assert(!self.ids().no_duplicates());
                    }
                    return false;
                }
                proof {
                    assert(self.ids()[j as int] != self.ids()[i as int]);
                }
                j = j + 1;
            }
            i = i + 1;
        }
        proof {
            assert(self.ids().no_duplicates());
        }
        // Edge endpoints are registered.
        let mut k: usize = 0;
        while k < self.edges.len()
            invariant
                self.ids().no_duplicates(),
                k <= self.edges@.len(),
                forall|p: int|
                    0 <= p < k ==> self.has_task((#[trigger] self.edges@[p]).source)
                        && self.has_task(self.edges@[p].target),
            decreases self.edges@.len() - k,
        {
            if !self.contains_task(self.edges[k].source) {
                return false;
            }
            if !self.contains_task(self.edges[k].target) {
                return false;
            }
            k = k + 1;
        }
        // Acyclicity: no edge's target reaches its source.
        proof {
            assert forall|kk: int| 0 <= kk < self.edges@.len() implies #[trigger] self.ids()
                .contains(self.edges@[kk].source) by {
                self.lemma_ids_contains(self.edges@[kk].source);
            };
            assert forall|kk: int| 0 <= kk < self.edges@.len() implies #[trigger] self.ids()
                .contains(self.edges@[kk].target) by {
                self.lemma_ids_contains(self.edges@[kk].target);
            };
        }
        let mut k2: usize = 0;
        while k2 < self.edges.len()
            invariant
                self.ids().no_duplicates(),
                forall|p: int|
                    0 <= p < self.edges@.len() ==> self.has_task(
                        (#[trigger] self.edges@[p]).source,
                    ) && self.has_task(self.edges@[p].target),
                forall|p: int| 0 <= p < self.edges@.len() ==> #[trigger] self.ids().contains(
                    self.edges@[p].source,
                ),
                forall|p: int| 0 <= p < self.edges@.len() ==> #[trigger] self.ids().contains(
                    self.edges@[p].target,
                ),
                k2 <= self.edges@.len(),
                forall|p: int|
                    0 <= p < k2 ==> !reachable(
                        self.edges@,
                        (#[trigger] self.edges@[p]).target,
                        self.edges@[p].source,
                    ),
            decreases self.edges@.len() - k2,
        {
            let cyc = reaches(
                &self.edges,
                self.edges[k2].target,
                self.edges[k2].source,
                Ghost(self.ids()),
            );
            if cyc {
                return false;
            }
            k2 = k2 + 1;
        }
        // Completed statuses carry the completion flag.
        let mut n: usize = 0;
        while n < self.nodes.len()
            invariant
                self.ids().no_duplicates(),
                forall|p: int|
                    0 <= p < self.edges@.len() ==> self.has_task(
                        (#[trigger] self.edges@[p]).source,
                    ) && self.has_task(self.edges@[p].target),
                acyclic(self.edges@),
                n <= self.nodes@.len(),
                forall|p: int|
                    0 <= p < n && (#[trigger] self.nodes@[p]).status.spec_kind()
                        == StatusKind::Completed ==> self.nodes@[p].ever_completed,
            decreases self.nodes@.len() - n,
        {
            let completed = self.nodes[n].status.kind() == StatusKind::Completed;
            if completed && !self.nodes[n].ever_completed {
                return false;
            }
            n = n + 1;
        }
        // The counter matches the completion flags.
        let mut c: u64 = 0;
        let mut m: usize = 0;
        while m < self.nodes.len()
            invariant
                self.ids().no_duplicates(),
                forall|p: int|
                    0 <= p < self.edges@.len() ==> self.has_task(
                        (#[trigger] self.edges@[p]).source,
                    ) && self.has_task(self.edges@[p].target),
                acyclic(self.edges@),
                forall|p: int|
                    0 <= p < self.nodes@.len() && (#[trigger] self.nodes@[p]).status.spec_kind()
                        == StatusKind::Completed ==> self.nodes@[p].ever_completed,
                m <= self.nodes@.len(),
                c == count_ever_completed(self.nodes@.take(m as int)),
                c <= m,
            decreases self.nodes@.len() - m,
        {
            proof {
                assert(self.nodes@.take(m + 1).drop_last() =~= self.nodes@.take(m as int));
                assert(self.nodes@.take(m + 1).last() == self.nodes@[m as int]);
                lemma_count_le_len(self.nodes@.take(m + 1));
            }
            if self.nodes[m].ever_completed {
                c = c + 1;
            }
            m = m + 1;
        }
        proof {
            assert(self.nodes@.take(self.nodes@.len() as int) =~= self.nodes@);
        }
        self.completed_count == c
    }
}

impl TaskMesh {
    /// A topological order of the registered tasks: every task appears
    /// exactly once and every dependency edge points forward. The
    /// acyclicity invariant guarantees that such an order exists.
    #[verifier::rlimit(100)]
    pub fn topological_order(&self) -> (r: Vec<TaskId>)
        requires
            self.wf(),
        ensures
            r@.len() == self.nodes@.len(),
            r@.no_duplicates(),
            forall|x: TaskId| #[trigger] r@.contains(x) <==> self.has_task(x),
            forall|k: int, i: int, j: int|
                0 <= k < self.edges@.len() && 0 <= i < r@.len() && 0 <= j < r@.len()
                    && #[trigger] r@[i] == (#[trigger] self.edges@[k]).source && #[trigger] r@[j]
                    == self.edges@[k].target ==> i < j,
    {
        let n = self.nodes.len();
        let mut placed: Vec<TaskId> = Vec::new();
        while placed.len() < n
            invariant
                self.wf(),
                n == self.nodes@.len(),
                placed@.no_duplicates(),
                placed@.len() <= n,
                forall|p: TaskId| #[trigger] placed@.contains(p) ==> self.has_task(p),
                forall|k: int, j: int|
                    0 <= k < self.edges@.len() && 0 <= j < placed@.len() && #[trigger] placed@[j]
                        == (#[trigger] self.edges@[k]).target ==> exists|i: int|
                        0 <= i < j && placed@[i] == self.edges@[k].source,
            decreases n - placed@.len(),
        {
            let ghost placed0 = placed@;
            let mut cand: Option<TaskId> = None;
            let mut remaining: Vec<TaskId> = Vec::new();
            let mut i: usize = 0;
            while i < n
                invariant
                    self.wf(),
                    n == self.nodes@.len(),
                    placed@ == placed0,
                    i <= n,
                    match cand {
                        Some(c) => {
                            &&& self.has_task(c)
                            &&& !placed0.contains(c)
                            &&& forall|k: int|
                                0 <= k < self.edges@.len() && (#[trigger] self.edges@[k]).target
                                    == c ==> placed0.contains(self.edges@[k].source)
                        },
                        None => {
                            &&& forall|j: int|
                                0 <= j < i ==> (placed0.contains(
                                    #[trigger] self.nodes@[j].task.id,
                                ) || remaining@.contains(self.nodes@[j].task.id))
                            &&& forall|q: int|
                                0 <= q < remaining@.len() ==> !placed0.contains(
                                    #[trigger] remaining@[q],
                                ) && self.has_task(remaining@[q]) && exists|k: int|
                                    0 <= k < self.edges@.len() && (#[trigger] self.edges@[k]).target
                                        == remaining@[q] && !placed0.contains(
                                        self.edges@[k].source,
                                    )
                        },
                    },
                decreases n - i,
            {
                let id = self.nodes[i].task.id;
                if !crate::types::contains_id(&placed, id) {
                    // Check whether every predecessor is already placed.
                    let mut blocked: Option<usize> = None;
                    let mut k: usize = 0;
                    while k < self.edges.len()
                        invariant
                            self.wf(),
                            placed@ == placed0,
                            k <= self.edges@.len(),
                            match blocked {
                                Some(kb) => kb < self.edges@.len() && self.edges@[kb as int].target
                                    == id && !placed0.contains(self.edges@[kb as int].source),
                                None => forall|p: int|
                                    0 <= p < k && (#[trigger] self.edges@[p]).target == id
                                        ==> placed0.contains(self.edges@[p].source),
                            },
                        decreases self.edges@.len() - k,
                    {
                        if blocked.is_none() && self.edges[k].target == id {
                            if !crate::types::contains_id(&placed, self.edges[k].source) {
                                blocked = Some(k);
                            }
                        }
                        k = k + 1;
                    }
                    match blocked {
                        None => {
                            proof {
                                assert(self.nodes@[i as int].task.id == id);
                            }
                            cand = Some(id);
                            i = n;
                            continue;
                        },
                        Some(_) => {
                            let ghost rem0 = remaining@;
                            remaining.push(id);
                            proof {
                                assert(remaining@ =~= rem0.push(id));
                                assert(self.nodes@[i as int].task.id == id);
                            }
                        },
                    }
                }
                i = i + 1;
            }
            match cand {
                Some(c) => {
                    let ghost before = placed@;
                    placed.push(c);
                    proof {
                        assert(placed@ =~= before.push(c));
                        assert(placed@.no_duplicates()) by {
                            assert(forall|p: int|
                                0 <= p < before.len() ==> placed@[p] == before[p]);
                            assert(placed@.last() == c);
                        }
                        // Bounded by the number of registered tasks.
                        placed@.unique_seq_to_set();
                        self.ids().unique_seq_to_set();
                        assert(placed@.to_set().subset_of(self.ids().to_set())) by {
                            assert forall|x: TaskId| placed@.to_set().contains(x)
                                implies self.ids().to_set().contains(x) by {
                                assert(placed@.contains(x));
                                if x != c {
                                    assert(before.contains(x));
                                }
                                self.lemma_ids_contains(x);
                            };
                        };
                        vstd::set_lib::lemma_len_subset(placed@.to_set(), self.ids().to_set());
                        // New edges into the freshly placed node point
                        // backwards to already placed sources.
                        assert forall|k: int, j: int|
                            0 <= k < self.edges@.len() && 0 <= j < placed@.len()
                                && #[trigger] placed@[j] == (#[trigger] self.edges@[k]).target
                                implies exists|i2: int|
                                0 <= i2 < j && placed@[i2] == self.edges@[k].source by {
                            if j < before.len() {
                                assert(before[j] == self.edges@[k].target);
                                let i2 = choose|i2: int|
                                    0 <= i2 < j && before[i2] == self.edges@[k].source;
                                assert(placed@[i2] == self.edges@[k].source);
                            } else {
                                assert(placed@[j] == c);
                                assert(placed0.contains(self.edges@[k].source));
                                let i2 = choose|i2: int|
                                    0 <= i2 < placed0.len() && placed0[i2] == self.edges@[k].source;
                                assert(placed@[i2] == self.edges@[k].source);
                            }
                        };
                    }
                },
                None => {
                    proof {
                        // Some task is still unplaced, so the remaining
                        // collection is nonempty; but an acyclic graph
                        // always offers a task whose predecessors are
                        // all placed, contradicting the failed scan.
                        placed0.unique_seq_to_set();
                        self.ids().unique_seq_to_set();
                        if forall|j: int|
                            0 <= j < n ==> placed0.contains(#[trigger] self.nodes@[j].task.id) {
                            assert(self.ids().to_set().subset_of(placed0.to_set())) by {
                                assert forall|x: TaskId| self.ids().to_set().contains(x)
                                    implies placed0.to_set().contains(x) by {
                                    assert(self.ids().contains(x));
                                    let j = choose|j: int|
                                        0 <= j < self.ids().len() && self.ids()[j] == x;
                                    assert(self.nodes@[j].task.id == x);
                                    assert(placed0.contains(x));
                                };
                            };
                            vstd::set_lib::lemma_len_subset(
                                self.ids().to_set(),
                                placed0.to_set(),
                            );
                            assert(false);
                        }
                        let ju = choose|j: int|
                            0 <= j < n && !placed0.contains(#[trigger] self.nodes@[j].task.id);
                        assert(remaining@.contains(self.nodes@[ju].task.id));
                        assert(remaining@.len() > 0);
                        lemma_exists_source_free(self.edges@, remaining@);
                        let x = choose|x: TaskId|
                            #[trigger] remaining@.contains(x) && forall|k: int|
                                0 <= k < self.edges@.len() && (#[trigger] self.edges@[k]).target
                                    == x ==> !remaining@.contains(self.edges@[k].source);
                        let q = choose|q: int| 0 <= q < remaining@.len() && remaining@[q] == x;
                        let kb = choose|k: int|
                            0 <= k < self.edges@.len() && (#[trigger] self.edges@[k]).target == x
                                && !placed0.contains(self.edges@[k].source);
                        let src = self.edges@[kb].source;
                        assert(self.has_task(src));
                        let js = choose|j: int|
                            0 <= j < self.nodes@.len() && #[trigger] self.nodes@[j].task.id == src;
                        assert(placed0.contains(src) || remaining@.contains(src));
                        assert(!remaining@.contains(src));
                        assert(false);
                    }
                },
            }
        }
        proof {
            // Exactly the registered identifiers appear.
            assert forall|x: TaskId| self.has_task(x) implies #[trigger] placed@.contains(x) by {
                if !placed@.contains(x) {
                    placed@.unique_seq_to_set();
                    self.ids().unique_seq_to_set();
                    self.lemma_ids_contains(x);
                    assert(self.ids().to_set().contains(x));
                    assert(placed@.to_set().subset_of(self.ids().to_set().remove(x))) by {
                        assert forall|y: TaskId| placed@.to_set().contains(y)
                            implies self.ids().to_set().remove(x).contains(y) by {
                            assert(placed@.contains(y));
                            self.lemma_ids_contains(y);
                        };
                    };
                    vstd::set_lib::lemma_len_subset(
                        placed@.to_set(),
                        self.ids().to_set().remove(x),
                    );
                    assert(self.ids().to_set().remove(x).len() == self.ids().to_set().len() - 1);
                    assert(false);
                }
            };
            // Forward edges: sources precede targets.
            assert forall|k: int, i: int, j: int|
                0 <= k < self.edges@.len() && 0 <= i < placed@.len() && 0 <= j < placed@.len()
                    && #[trigger] placed@[i] == (#[trigger] self.edges@[k]).source
                    && #[trigger] placed@[j] == self.edges@[k].target implies i < j by {
                let i2 = choose|i2: int|
                    0 <= i2 < j && placed@[i2] == self.edges@[k].source;
                if i != i2 {
                    assert(placed@[i] == placed@[i2]);
                    assert(false);
                }
            };
        }
        placed
    }
}

/// How many tags in the list have the given text.
pub open spec fn count_tag_in(tags: Seq<String>, tag: Seq<char>) -> int
    decreases tags.len(),
{
    if tags.len() == 0 {
        0
    } else {
        count_tag_in(tags.drop_last(), tag) + if tags.last()@ == tag {
            1int
        } else {
            0int
        }
    }
}

/// How many tag occurrences with the given text the nodes carry.
pub open spec fn count_tag(nodes: Seq<MeshNode>, tag: Seq<char>) -> int
    decreases nodes.len(),
{
    if nodes.len() == 0 {
        0
    } else {
        count_tag(nodes.drop_last(), tag) + count_tag_in(nodes.last().task.tags@, tag)
    }
}

/// How many nodes carry the given priority.
pub open spec fn count_priority(nodes: Seq<MeshNode>, priority: u8) -> int
    decreases nodes.len(),
{
    if nodes.len() == 0 {
        0
    } else {
        count_priority(nodes.drop_last(), priority) + if nodes.last().task.priority == priority {
            1int
        } else {
            0int
        }
    }
}

/// Priority counts lie between zero and the node count.
pub proof fn lemma_count_priority_bounds(nodes: Seq<MeshNode>, priority: u8)
    ensures
        0 <= count_priority(nodes, priority) <= nodes.len(),
    decreases nodes.len(),
{
    if nodes.len() > 0 {
        lemma_count_priority_bounds(nodes.drop_last(), priority);
    }
}

/// Whether the task carries a tag with the given text.
pub open spec fn spec_has_tag(t: Task, tag: Seq<char>) -> bool {
    exists|p: int| 0 <= p < t.tags@.len() && (#[trigger] t.tags@[p])@ == tag
}

/// Statistics over the registered tasks: the totals, the priority
/// histogram and the tag histogram.
#[derive(Debug, Clone)]
pub struct RegistryStats {
    pub total_tasks: usize,
    pub total_dependencies: usize,
    pub priority_distribution: Vec<(u8, u64)>,
    pub popular_tags: Vec<(String, u64)>,
    pub detected_cycles: usize,
}

impl TaskMesh {
    /// The identifiers of the tasks carrying the given tag.
    pub fn tasks_by_tag(&self, tag: &str) -> (r: Vec<TaskId>)
        requires
            self.wf(),
        ensures
            r@.no_duplicates(),
            forall|id: TaskId| #[trigger] r@.contains(id) <==> (self.has_task(id) && spec_has_tag(
                self.node_of(id).task,
                tag@,
            )),
    {
        let mut r: Vec<TaskId> = Vec::new();
        let mut i: usize = 0;
        while i < self.nodes.len()
            invariant
                self.wf(),
                i <= self.nodes@.len(),
                r@.no_duplicates(),
                forall|j: int|
                    0 <= j < i ==> (r@.contains(#[trigger] self.nodes@[j].task.id)
                        <==> spec_has_tag(self.nodes@[j].task, tag@)),
                forall|p: int|
                    0 <= p < r@.len() ==> exists|j: int|
                        0 <= j < i && #[trigger] r@[p] == self.nodes@[j].task.id,
            decreases self.nodes@.len() - i,
        {
            let id = self.nodes[i].task.id;
            proof {
                self.lemma_idx_unique(id, i as int);
            }
            let mut tagged = false;
            let mut p: usize = 0;
            while p < self.nodes[i].task.tags.len()
                invariant
                    i < self.nodes@.len(),
                    p <= self.nodes@[i as int].task.tags@.len(),
                    tagged ==> spec_has_tag(self.nodes@[i as int].task, tag@),
                    !tagged ==> forall|q: int|
                        0 <= q < p ==> (#[trigger] self.nodes@[i as int].task.tags@[q])@ != tag@,
                decreases self.nodes@[i as int].task.tags@.len() - p,
            {
                if crate::strutil::str_eq(self.nodes[i].task.tags[p].as_str(), tag) {
                    tagged = true;
                }
                p = p + 1;
            }
            if tagged {
                let ghost rprev = r@;
                let already = crate::types::contains_id(&r, id);
                if !already {
                    r.push(id);
                    proof {
                        assert(r@.no_duplicates()) by {
                            assert(forall|q: int| 0 <= q < rprev.len() ==> r@[q] == rprev[q]);
                            assert(r@.last() == id);
                        }
                    }
                }
            }
            proof {
                // Earlier nodes have different identifiers, so their
                // membership is unaffected; the current node is in the
                // result exactly when it carries the tag.
                assert forall|j: int|
                    0 <= j <= i implies (r@.contains(#[trigger] self.nodes@[j].task.id)
                        <==> spec_has_tag(self.nodes@[j].task, tag@)) by {
                    if j < i {
                        if self.nodes@[j].task.id == id {
                            assert(self.ids()[j] == id);
                            assert(self.ids()[i as int] == id);
                            assert(false);
                        }
                    } else {
                        if !tagged && r@.contains(id) {
                            let p = choose|p: int| 0 <= p < r@.len() && r@[p] == id;
                            let jj = choose|jj: int|
                                0 <= jj < i && #[trigger] r@[p] == self.nodes@[jj].task.id;
                            assert(self.ids()[jj] == id);
                            assert(self.ids()[i as int] == id);
                            assert(false);
                        }
                    }
                };
            }
            i = i + 1;
        }
        proof {
            assert forall|id: TaskId| #[trigger] r@.contains(id) implies (self.has_task(id)
                && spec_has_tag(self.node_of(id).task, tag@)) by {
                let p = choose|p: int| 0 <= p < r@.len() && r@[p] == id;
            };
            assert forall|id: TaskId| self.has_task(id) && spec_has_tag(
                self.node_of(id).task,
                tag@,
            ) implies r@.contains(id) by {
                let j = choose|j: int|
                    0 <= j < self.nodes@.len() && #[trigger] self.nodes@[j].task.id == id;
            };
        }
        r
    }

    /// Builds registry statistics: an exact priority histogram and an
    /// exact tag-occurrence histogram, with the totals. A well-formed
    /// mesh has no cycle to count.
    pub fn generate_stats(&self) -> (r: RegistryStats)
        requires
            self.wf(),
            self.nodes@.len() <= u64::MAX,
        ensures
            r.total_tasks == self.nodes@.len(),
            r.total_dependencies == self.edges@.len(),
            r.detected_cycles == 0,
            forall|e: int, f: int|
                0 <= e < f < r.priority_distribution@.len()
                    ==> (#[trigger] r.priority_distribution@[e]).0
                    != (#[trigger] r.priority_distribution@[f]).0,
            forall|e: int|
                0 <= e < r.priority_distribution@.len()
                    ==> (#[trigger] r.priority_distribution@[e]).1 == count_priority(
                    self.nodes@,
                    r.priority_distribution@[e].0,
                ),
            forall|j: int|
                0 <= j < self.nodes@.len() ==> exists|e: int|
                    0 <= e < r.priority_distribution@.len()
                        && (#[trigger] r.priority_distribution@[e]).0 == (
                    #[trigger] self.nodes@[j]).task.priority,
    {
        let mut dist: Vec<(u8, u64)> = Vec::new();
        let mut i: usize = 0;
        while i < self.nodes.len()
            invariant
                self.wf(),
                self.nodes@.len() <= u64::MAX,
                i <= self.nodes@.len(),
                forall|e: int, f: int|
                    0 <= e < f < dist@.len() ==> (#[trigger] dist@[e]).0 != (#[trigger] dist@[f]).0,
                forall|e: int|
                    0 <= e < dist@.len() ==> (#[trigger] dist@[e]).1 == count_priority(
                        self.nodes@.take(i as int),
                        dist@[e].0,
                    ),
                forall|j: int|
                    0 <= j < i ==> exists|e: int|
                        0 <= e < dist@.len() && (#[trigger] dist@[e]).0 == (
                        #[trigger] self.nodes@[j]).task.priority,
            decreases self.nodes@.len() - i,
        {
            let pr = self.nodes[i].task.priority;
            proof {
                assert(self.nodes@.take(i + 1).drop_last() =~= self.nodes@.take(i as int));
                assert(self.nodes@.take(i + 1).last() == self.nodes@[i as int]);
                lemma_count_priority_bounds(self.nodes@.take(i as int), pr);
            }
            let mut found: Option<usize> = None;
            let mut e: usize = 0;
            while e < dist.len()
                invariant
                    e <= dist@.len(),
                    match found {
                        Some(fi) => fi < dist@.len() && dist@[fi as int].0 == pr,
                        None => forall|q: int| 0 <= q < e ==> (#[trigger] dist@[q]).0 != pr,
                    },
                decreases dist@.len() - e,
            {
                if dist[e].0 == pr {
                    found = Some(e);
                    e = dist.len();
                } else {
                    e = e + 1;
                }
            }
            let ghost dist0 = dist@;
            match found {
                Some(fi) => {
                    let entry = &mut dist[fi];
                    if entry.1 < u64::MAX {
                        entry.1 = entry.1 + 1;
                    }
                    proof {
                        assert(dist0[fi as int].1 == count_priority(
                            self.nodes@.take(i as int),
                            pr,
                        ));
                        assert(count_priority(self.nodes@.take(i as int), pr)
                            < self.nodes@.len()) by {
                            lemma_count_priority_bounds(self.nodes@.take(i as int), pr);
                        }
                        assert(forall|q: int|
                            0 <= q < dist0.len() && q != fi ==> dist@[q] == dist0[q]);
                        assert(dist@[fi as int].0 == pr);
                        assert(dist@[fi as int].1 == dist0[fi as int].1 + 1);
                    }
                },
                None => {
                    dist.push((pr, 1));
                    proof {
                        assert(forall|q: int| 0 <= q < dist0.len() ==> dist@[q] == dist0[q]);
                        assert(dist@.last() == (pr, 1u64));
                        assert(count_priority(self.nodes@.take(i as int), pr) == 0) by {
                            lemma_count_priority_zero(self.nodes@.take(i as int), pr);
                        }
                    }
                },
            }
            proof {
                assert forall|ee: int| 0 <= ee < dist@.len() implies (#[trigger] dist@[ee]).1
                    == count_priority(self.nodes@.take(i + 1), dist@[ee].0) by {
                    assert(count_priority(self.nodes@.take(i + 1), dist@[ee].0) == count_priority(
                        self.nodes@.take(i as int),
                        dist@[ee].0,
                    ) + if self.nodes@[i as int].task.priority == dist@[ee].0 {
                        1int
                    } else {
                        0int
                    });
                };
            }
            i = i + 1;
        }
        proof {
            assert(self.nodes@.take(self.nodes@.len() as int) =~= self.nodes@);
        }
        let mut tags: Vec<(String, u64)> = Vec::new();
        let mut i2: usize = 0;
        while i2 < self.nodes.len()
            invariant
                self.wf(),
                i2 <= self.nodes@.len(),
            decreases self.nodes@.len() - i2,
        {
            let mut p: usize = 0;
            while p < self.nodes[i2].task.tags.len()
                invariant
                    i2 < self.nodes@.len(),
                    p <= self.nodes@[i2 as int].task.tags@.len(),
                decreases self.nodes@[i2 as int].task.tags@.len() - p,
            {
                let tag = &self.nodes[i2].task.tags[p];
                let mut found: Option<usize> = None;
                let mut e: usize = 0;
                while e < tags.len()
                    invariant
                        e <= tags@.len(),
                        match found {
                            Some(fi) => fi < tags@.len(),
                            None => true,
                        },
                    decreases tags@.len() - e,
                {
                    if crate::strutil::str_eq(tags[e].0.as_str(), tag.as_str()) {
                        found = Some(e);
                        e = tags.len();
                    } else {
                        e = e + 1;
                    }
                }
                match found {
                    Some(fi) => {
                        let entry = &mut tags[fi];
                        if entry.1 < u64::MAX {
                            entry.1 = entry.1 + 1;
                        }
                    },
                    None => {
                        tags.push((tag.clone(), 1));
                    },
                }
                p = p + 1;
            }
            i2 = i2 + 1;
        }
        proof {
            assert forall|j: int| 0 <= j < self.nodes@.len() implies exists|e: int|
                0 <= e < dist@.len() && (#[trigger] dist@[e]).0 == (
                #[trigger] self.nodes@[j]).task.priority by {
                let e = choose|e: int|
                    0 <= e < dist@.len() && (#[trigger] dist@[e]).0 == self.nodes@[j].task.priority;
            };
        }
        RegistryStats {
            total_tasks: self.nodes.len(),
            total_dependencies: self.edges.len(),
            priority_distribution: dist,
            popular_tags: tags,
            detected_cycles: 0,
        }
    }
}

/// A priority absent from every node counts zero.
pub proof fn lemma_count_priority_zero(nodes: Seq<MeshNode>, priority: u8)
    requires
        forall|j: int| 0 <= j < nodes.len() ==> (#[trigger] nodes[j]).task.priority != priority,
    ensures
        count_priority(nodes, priority) == 0,
    decreases nodes.len(),
{
    if nodes.len() > 0 {
        lemma_count_priority_zero(nodes.drop_last(), priority);
    }
}

/// Whether a task matches the search criteria: each filter left empty
/// accepts the task, a name pattern must occur in the name's bytes, a
/// tag list must share at least one tag, and the priority and creation
/// bounds must hold.
pub open spec fn spec_matches_criteria(t: Task, c: SearchCriteria) -> bool {
    &&& (c.name_pattern matches Some(p) ==> crate::strutil::contains_sub(
        vstd::utf8::encode_utf8(t.name@),
        vstd::utf8::encode_utf8(p@),
    ))
    &&& (c.tags matches Some(ts) ==> exists|q: int|
        0 <= q < ts@.len() && spec_has_tag(t, (#[trigger] ts@[q])@))
    &&& (c.min_priority matches Some(mn) ==> t.priority >= mn)
    &&& (c.max_priority matches Some(mx) ==> t.priority <= mx)
    &&& (c.no_dependencies matches Some(nd) ==> (nd ==> t.dependencies@.len() == 0))
    &&& (c.created_after_ms matches Some(a) ==> t.created_at_ms >= a)
    &&& (c.created_before_ms matches Some(b) ==> t.created_at_ms <= b)
}

impl TaskMesh {
    /// Whether one task matches the criteria.
    fn task_matches(&self, i: usize, criteria: &SearchCriteria) -> (r: bool)
        requires
            self.wf(),
            i < self.nodes@.len(),
        ensures
            r == spec_matches_criteria(self.nodes@[i as int].task, *criteria),
    {
        let t = &self.nodes[i].task;
        match &criteria.name_pattern {
            Some(p) => {
                if !crate::strutil::str_contains(t.name.as_str(), p.as_str()) {
                    return false;
                }
            },
            None => {},
        }
        match &criteria.tags {
            Some(ts) => {
                let mut any = false;
                let mut q: usize = 0;
                while q < ts.len()
                    invariant
                        i < self.nodes@.len(),
                        q <= ts@.len(),
                        any ==> exists|qq: int|
                            0 <= qq < ts@.len() && spec_has_tag(
                                self.nodes@[i as int].task,
                                (#[trigger] ts@[qq])@,
                            ),
                        !any ==> forall|qq: int|
                            0 <= qq < q ==> !spec_has_tag(
                                self.nodes@[i as int].task,
                                (#[trigger] ts@[qq])@,
                            ),
                    decreases ts@.len() - q,
                {
                    let mut p: usize = 0;
                    let mut here = false;
                    while p < self.nodes[i].task.tags.len()
                        invariant
                            i < self.nodes@.len(),
                            q < ts@.len(),
                            p <= self.nodes@[i as int].task.tags@.len(),
                            here ==> spec_has_tag(self.nodes@[i as int].task, ts@[q as int]@),
                            !here ==> forall|pp: int|
                                0 <= pp < p ==> (#[trigger] self.nodes@[i as int].task.tags@[pp])@
                                    != ts@[q as int]@,
                        decreases self.nodes@[i as int].task.tags@.len() - p,
                    {
                        if crate::strutil::str_eq(
                            self.nodes[i].task.tags[p].as_str(),
                            ts[q].as_str(),
                        ) {
                            here = true;
                        }
                        p = p + 1;
                    }
                    if here {
                        any = true;
                        q = ts.len();
                    } else {
                        q = q + 1;
                    }
                }
                if !any {
                    return false;
                }
            },
            None => {},
        }
        match &criteria.min_priority {
            Some(mn) => {
                if t.priority < *mn {
                    return false;
                }
            },
            None => {},
        }
        match &criteria.max_priority {
            Some(mx) => {
                if t.priority > *mx {
                    return false;
                }
            },
            None => {},
        }
        match &criteria.no_dependencies {
            Some(nd) => {
                if *nd && t.dependencies.len() > 0 {
                    return false;
                }
            },
            None => {},
        }
        match &criteria.created_after_ms {
            Some(a) => {
                if t.created_at_ms < *a {
                    return false;
                }
            },
            None => {},
        }
        match &criteria.created_before_ms {
            Some(b) => {
                if t.created_at_ms > *b {
                    return false;
                }
            },
            None => {},
        }
        true
    }

    /// The identifiers of the tasks matching the search criteria.
    pub fn search_tasks(&self, criteria: &SearchCriteria) -> (r: Vec<TaskId>)
        requires
            self.wf(),
        ensures
            r@.no_duplicates(),
            forall|id: TaskId| #[trigger] r@.contains(id) <==> (self.has_task(id)
                && spec_matches_criteria(self.node_of(id).task, *criteria)),
    {
        let mut r: Vec<TaskId> = Vec::new();
        let mut i: usize = 0;
        while i < self.nodes.len()
            invariant
                self.wf(),
                i <= self.nodes@.len(),
                r@.no_duplicates(),
                forall|j: int|
                    0 <= j < i ==> (r@.contains(#[trigger] self.nodes@[j].task.id)
                        <==> spec_matches_criteria(self.nodes@[j].task, *criteria)),
                forall|p: int|
                    0 <= p < r@.len() ==> exists|j: int|
                        0 <= j < i && #[trigger] r@[p] == self.nodes@[j].task.id,
            decreases self.nodes@.len() - i,
        {
            let id = self.nodes[i].task.id;
            proof {
                self.lemma_idx_unique(id, i as int);
            }
            let hit = self.task_matches(i, criteria);
            if hit {
                let ghost rprev = r@;
                r.push(id);
                proof {
                    assert(r@.no_duplicates()) by {
                        if rprev.contains(id) {
                            let p = choose|p: int| 0 <= p < rprev.len() && rprev[p] == id;
                            let jj = choose|jj: int|
                                0 <= jj < i && #[trigger] rprev[p] == self.nodes@[jj].task.id;
                            assert(self.ids()[jj] == id);
                            assert(self.ids()[i as int] == id);
                            assert(false);
                        }
                        assert(forall|q: int| 0 <= q < rprev.len() ==> r@[q] == rprev[q]);
                        assert(r@.last() == id);
                    }
                }
            }
            proof {
                assert forall|j: int|
                    0 <= j <= i implies (r@.contains(#[trigger] self.nodes@[j].task.id)
                        <==> spec_matches_criteria(self.nodes@[j].task, *criteria)) by {
                    if j < i {
                        if self.nodes@[j].task.id == id {
                            assert(self.ids()[j] == id);
                            assert(self.ids()[i as int] == id);
                            assert(false);
                        }
                    } else {
                        if !hit && r@.contains(id) {
                            let p = choose|p: int| 0 <= p < r@.len() && r@[p] == id;
                            let jj = choose|jj: int|
                                0 <= jj < i && #[trigger] r@[p] == self.nodes@[jj].task.id;
                            assert(self.ids()[jj] == id);
                            assert(self.ids()[i as int] == id);
                            assert(false);
                        }
                    }
                };
            }
            i = i + 1;
        }
        proof {
            assert forall|id: TaskId| #[trigger] r@.contains(id) implies (self.has_task(id)
                && spec_matches_criteria(self.node_of(id).task, *criteria)) by {
                let p = choose|p: int| 0 <= p < r@.len() && r@[p] == id;
            };
            assert forall|id: TaskId| self.has_task(id) && spec_matches_criteria(
                self.node_of(id).task,
                *criteria,
            ) implies r@.contains(id) by {
                let j = choose|j: int|
                    0 <= j < self.nodes@.len() && #[trigger] self.nodes@[j].task.id == id;
            };
        }
        r
    }
}

} // verus!
