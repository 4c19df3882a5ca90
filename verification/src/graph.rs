//! Dependency edges and reachability over them: the specification of
//! paths, the lemmas that justify the mesh's cycle check, and a verified
//! reachability search.

use vstd::prelude::*;
use vstd::seq_lib::*;
use vstd::set_lib::lemma_len_subset;
use crate::types::{DependencyType, TaskId};

verus! {

broadcast use vstd::seq_lib::group_seq_properties;

/// A dependency edge from a predecessor task to a successor task.
#[derive(Debug, Clone, PartialEq)]
pub struct DependencyEdge {
    pub id: u128,
    pub source: TaskId,
    pub target: TaskId,
    pub dependency_type: DependencyType,
    pub created_at_ms: u64,
}

impl DependencyEdge {
    /// Creates an edge with a fresh identifier.
    pub fn new(source: TaskId, target: TaskId, dependency_type: DependencyType) -> (r:
        DependencyEdge)
        ensures
            r.source == source,
            r.target == target,
            r.dependency_type == dependency_type,
    {
        DependencyEdge {
            id: crate::trusted::fresh_id(),
            source,
            target,
            dependency_type,
            created_at_ms: crate::trusted::now_millis(),
        }
    }
}

/// Whether the edge set holds an edge from `a` to `b`.
pub open spec fn edge_in(es: Seq<DependencyEdge>, a: TaskId, b: TaskId) -> bool {
    exists|k: int| 0 <= k < es.len() && es[k].source == a && #[trigger] es[k].target == b
}

/// Whether a path of at most `n` edges leads from `a` to `b`.
pub open spec fn reach_n(es: Seq<DependencyEdge>, a: TaskId, b: TaskId, n: nat) -> bool
    decreases n,
{
    if n == 0 {
        a == b
    } else {
        a == b || exists|m: TaskId| #[trigger] edge_in(es, a, m) && reach_n(es, m, b, (n - 1) as nat)
    }
}

/// Whether some path (possibly empty) leads from `a` to `b`.
pub open spec fn reachable(es: Seq<DependencyEdge>, a: TaskId, b: TaskId) -> bool {
    exists|n: nat| reach_n(es, a, b, n)
}

/// Whether the edge set is free of cycles: no edge closes a path back
/// to its own source.
pub open spec fn acyclic(es: Seq<DependencyEdge>) -> bool {
    forall|k: int| 0 <= k < es.len() ==> !reachable(es, #[trigger] es[k].target, es[k].source)
}

/// Every node reaches itself.
pub proof fn lemma_reach_refl(es: Seq<DependencyEdge>, a: TaskId)
    ensures
        reachable(es, a, a),
{
    assert(reach_n(es, a, a, 0));
}

/// Paths concatenate: a bounded path from `a` to `b` followed by one
/// from `b` to `c` yields one from `a` to `c`.
pub proof fn lemma_reach_n_trans(es: Seq<DependencyEdge>, a: TaskId, b: TaskId, c: TaskId, n: nat, m: nat)
    requires
        reach_n(es, a, b, n),
        reach_n(es, b, c, m),
    ensures
        reach_n(es, a, c, (n + m) as nat),
    decreases n,
{
    if n == 0 {
        lemma_reach_n_mono_len(es, b, c, m, (n + m) as nat);
    } else {
        if a == b {
            lemma_reach_n_mono_len(es, b, c, m, (n + m) as nat);
        } else {
            let mid = choose|mid: TaskId| #[trigger] edge_in(es, a, mid) && reach_n(es, mid, b, (n - 1) as nat);
            lemma_reach_n_trans(es, mid, b, c, (n - 1) as nat, m);
            assert(reach_n(es, mid, c, ((n - 1) + m) as nat));
            assert(reach_n(es, a, c, (n + m) as nat));
        }
    }
}

/// A bounded path is still a path under a larger bound.
pub proof fn lemma_reach_n_mono_len(es: Seq<DependencyEdge>, a: TaskId, b: TaskId, n: nat, m: nat)
    requires
        reach_n(es, a, b, n),
        n <= m,
    ensures
        reach_n(es, a, b, m),
    decreases n,
{
    if n == 0 {
        lemma_reach_n_refl_any(es, a, m);
    } else {
        if a == b {
            lemma_reach_n_refl_any(es, a, m);
        } else {
            let mid = choose|mid: TaskId| #[trigger] edge_in(es, a, mid) && reach_n(es, mid, b, (n - 1) as nat);
            lemma_reach_n_mono_len(es, mid, b, (n - 1) as nat, (m - 1) as nat);
            assert(reach_n(es, a, b, m));
        }
    }
}

/// The empty path exists under any bound.
pub proof fn lemma_reach_n_refl_any(es: Seq<DependencyEdge>, a: TaskId, n: nat)
    ensures
        reach_n(es, a, a, n),
    decreases n,
{
    if n > 0 {
        lemma_reach_n_refl_any(es, a, (n - 1) as nat);
    }
}

/// Reachability is transitive.
pub proof fn lemma_reach_trans(es: Seq<DependencyEdge>, a: TaskId, b: TaskId, c: TaskId)
    requires
        reachable(es, a, b),
        reachable(es, b, c),
    ensures
        reachable(es, a, c),
{
    let n = choose|n: nat| reach_n(es, a, b, n);
    let m = choose|m: nat| reach_n(es, b, c, m);
    lemma_reach_n_trans(es, a, b, c, n, m);
}

/// An edge is a path of length one.
pub proof fn lemma_reach_edge(es: Seq<DependencyEdge>, a: TaskId, b: TaskId)
    requires
        edge_in(es, a, b),
    ensures
        reachable(es, a, b),
{
    assert(reach_n(es, b, b, 0));
    assert(reach_n(es, a, b, 1));
}

/// A path extended by one edge is a path.
pub proof fn lemma_reach_append_edge(es: Seq<DependencyEdge>, a: TaskId, b: TaskId, c: TaskId)
    requires
        reachable(es, a, b),
        edge_in(es, b, c),
    ensures
        reachable(es, a, c),
{
    lemma_reach_edge(es, b, c);
    lemma_reach_trans(es, a, b, c);
}

/// Edges survive a push.
pub proof fn lemma_edge_in_push(es: Seq<DependencyEdge>, e: DependencyEdge, a: TaskId, b: TaskId)
    requires
        edge_in(es, a, b),
    ensures
        edge_in(es.push(e), a, b),
{
    let k = choose|k: int| 0 <= k < es.len() && es[k].source == a && #[trigger] es[k].target == b;
    assert(es.push(e)[k].source == a && es.push(e)[k].target == b);
}

/// Bounded paths survive a push.
pub proof fn lemma_reach_n_push(es: Seq<DependencyEdge>, e: DependencyEdge, a: TaskId, b: TaskId, n: nat)
    requires
        reach_n(es, a, b, n),
    ensures
        reach_n(es.push(e), a, b, n),
    decreases n,
{
    if n > 0 && a != b {
        let mid = choose|mid: TaskId| #[trigger] edge_in(es, a, mid) && reach_n(es, mid, b, (n - 1) as nat);
        lemma_edge_in_push(es, e, a, mid);
        lemma_reach_n_push(es, e, mid, b, (n - 1) as nat);
    }
}

/// Reachability survives a push.
pub proof fn lemma_reach_push(es: Seq<DependencyEdge>, e: DependencyEdge, a: TaskId, b: TaskId)
    requires
        reachable(es, a, b),
    ensures
        reachable(es.push(e), a, b),
{
    let n = choose|n: nat| reach_n(es, a, b, n);
    lemma_reach_n_push(es, e, a, b, n);
}

/// An edge of the pushed sequence is an old edge or the new one.
pub proof fn lemma_edge_in_push_inv(es: Seq<DependencyEdge>, e: DependencyEdge, a: TaskId, b: TaskId)
    requires
        edge_in(es.push(e), a, b),
    ensures
        edge_in(es, a, b) || (a == e.source && b == e.target),
{
    let k = choose|k: int|
        0 <= k < es.push(e).len() && es.push(e)[k].source == a && #[trigger] es.push(e)[k].target
            == b;
    if k < es.len() {
        assert(es[k].source == a && es[k].target == b);
    }
}

/// A path in the pushed sequence either already existed, or it passes
/// through the new edge: the source is reachable from `a` and `b` is
/// reachable from the target, both over the old edges.
pub proof fn lemma_reach_push_decompose(
    es: Seq<DependencyEdge>,
    e: DependencyEdge,
    a: TaskId,
    b: TaskId,
    n: nat,
)
    requires
        reach_n(es.push(e), a, b, n),
    ensures
        reachable(es, a, b) || (reachable(es, a, e.source) && reachable(es, e.target, b)),
    decreases n,
{
    if n == 0 || a == b {
        lemma_reach_refl(es, a);
    } else {
        let mid = choose|mid: TaskId|
            #[trigger] edge_in(es.push(e), a, mid) && reach_n(es.push(e), mid, b, (n - 1) as nat);
        lemma_reach_push_decompose(es, e, mid, b, (n - 1) as nat);
        lemma_edge_in_push_inv(es, e, a, mid);
        if edge_in(es, a, mid) {
            if reachable(es, mid, b) {
                lemma_reach_edge(es, a, mid);
                lemma_reach_trans(es, a, mid, b);
            } else {
                lemma_reach_edge(es, a, mid);
                lemma_reach_trans(es, a, mid, e.source);
            }
        } else {
            lemma_reach_refl(es, a);
        }
    }
}

/// Adding an edge whose target cannot reach its source keeps the edge
/// set acyclic.
pub proof fn lemma_acyclic_push(es: Seq<DependencyEdge>, e: DependencyEdge)
    requires
        acyclic(es),
        !reachable(es, e.target, e.source),
    ensures
        acyclic(es.push(e)),
{
    let new = es.push(e);
    assert forall|k: int| 0 <= k < new.len() implies !reachable(
        new,
        #[trigger] new[k].target,
        new[k].source,
    ) by {
        let a = new[k].source;
        let b = new[k].target;
        if reachable(new, b, a) {
            let n = choose|n: nat| reach_n(new, b, a, n);
            lemma_reach_push_decompose(es, e, b, a, n);
            if reachable(es, b, a) {
                if k < es.len() {
                    assert(!reachable(es, es[k].target, es[k].source));
                } else {
                    assert(a == e.source && b == e.target);
                }
            } else {
                // The path detours through the new edge: b reaches the
                // new source and the new target reaches a.
                if k < es.len() {
                    assert(edge_in(es, a, b)) by {
                        assert(es[k].source == a && es[k].target == b);
                    }
                    lemma_reach_append_edge(es, e.target, a, b);
                    lemma_reach_trans(es, e.target, b, e.source);
                } else {
                    assert(b == e.target);
                }
            }
        }
    }
}

/// Adding an edge whose target reaches its source makes the edge set
/// cyclic.
pub proof fn lemma_cyclic_push(es: Seq<DependencyEdge>, e: DependencyEdge)
    requires
        reachable(es, e.target, e.source),
    ensures
        !acyclic(es.push(e)),
{
    let new = es.push(e);
    lemma_reach_push(es, e, e.target, e.source);
    let k = es.len() as int;
    assert(new[k].source == e.source && new[k].target == e.target);
    assert(reachable(new, new[k].target, new[k].source));
}

/// A node with no outgoing edges reaches only itself.
pub proof fn lemma_no_out_edges_reach(es: Seq<DependencyEdge>, t: TaskId, x: TaskId, n: nat)
    requires
        forall|k: int| 0 <= k < es.len() ==> (#[trigger] es[k].source) != t,
        reach_n(es, t, x, n),
    ensures
        x == t,
    decreases n,
{
    if n > 0 && x != t {
        let mid = choose|mid: TaskId| #[trigger] edge_in(es, t, mid) && reach_n(es, mid, x, (n - 1) as nat);
        assert(false);
    }
}

/// A set of nodes that contains `a` and is closed under edge successors
/// contains everything reachable from `a`.
pub proof fn lemma_closed_contains_reach(
    es: Seq<DependencyEdge>,
    s: Seq<TaskId>,
    a: TaskId,
    b: TaskId,
    n: nat,
)
    requires
        s.contains(a),
        forall|v: TaskId, w: TaskId|
            s.contains(v) && #[trigger] edge_in(es, v, w) ==> s.contains(w),
        reach_n(es, a, b, n),
    ensures
        s.contains(b),
    decreases n,
{
    if n > 0 && a != b {
        let mid = choose|mid: TaskId| #[trigger] edge_in(es, a, mid) && reach_n(es, mid, b, (n - 1) as nat);
        assert(s.contains(mid));
        lemma_closed_contains_reach(es, s, mid, b, (n - 1) as nat);
    }
}

/// Whether the vector holds the given identifier.
fn contains_node(v: &Vec<TaskId>, id: TaskId) -> (r: bool)
    ensures
        r == v@.contains(id),
{
    let mut i: usize = 0;
    while i < v.len()
        invariant
            i <= v@.len(),
            forall|j: int| 0 <= j < i ==> v@[j] != id,
        decreases v@.len() - i,
    {
        if v[i] == id {
            return true;
        }
        i = i + 1;
    }
    false
}

/// Decides whether `to` is reachable from `from` over the given edges.
/// The caller supplies the node universe: a duplicate-free sequence of
/// identifiers that covers `from` and every edge endpoint.
pub fn reaches(
    edges: &Vec<DependencyEdge>,
    from: TaskId,
    to: TaskId,
    Ghost(universe): Ghost<Seq<TaskId>>,
) -> (r: bool)
    requires
        universe.no_duplicates(),
        universe.contains(from),
        forall|k: int| 0 <= k < edges@.len() ==> #[trigger] universe.contains(edges@[k].source),
        forall|k: int| 0 <= k < edges@.len() ==> #[trigger] universe.contains(edges@[k].target),
    ensures
        r == reachable(edges@, from, to),
{
    if from == to {
        proof {
            lemma_reach_refl(edges@, from);
        }
        return true;
    }
    let mut visited: Vec<TaskId> = Vec::new();
    let mut stack: Vec<TaskId> = Vec::new();
    visited.push(from);
    stack.push(from);
    proof {
        assert(reach_n(edges@, from, from, 0));
        assert(visited@.contains(from)) by {
            assert(visited@[0] == from);
        }
        assert(stack@.contains(from)) by {
            assert(stack@[0] == from);
        }
        assert(visited@.no_duplicates());
        assert(!visited@.contains(to)) by {
            assert(forall|p: int| 0 <= p < visited@.len() ==> visited@[p] == from);
        }
    }
    while stack.len() > 0
        invariant
            visited@.no_duplicates(),
            visited@.contains(from),
            !visited@.contains(to),
            forall|p: int| 0 <= p < visited@.len() ==> universe.contains(#[trigger] visited@[p]),
            forall|p: int| 0 <= p < stack@.len() ==> visited@.contains(#[trigger] stack@[p]),
            forall|p: int| 0 <= p < visited@.len() ==> reachable(edges@, from, #[trigger] visited@[p]),
            forall|v: TaskId, w: TaskId|
                visited@.contains(v) && !stack@.contains(v) && #[trigger] edge_in(edges@, v, w)
                    ==> visited@.contains(w),
            forall|k: int| 0 <= k < edges@.len() ==> #[trigger] universe.contains(
                edges@[k].source,
            ),
            forall|k: int| 0 <= k < edges@.len() ==> #[trigger] universe.contains(
                edges@[k].target,
            ),
            universe.no_duplicates(),
            from != to,
        decreases universe.len() - visited@.len(), stack@.len(),
    {
        proof {
            visited@.unique_seq_to_set();
            universe.unique_seq_to_set();
            assert(visited@.to_set().subset_of(universe.to_set())) by {
                assert forall|x: TaskId| visited@.to_set().contains(x) implies universe.to_set()
                    .contains(x) by {
                    assert(visited@.contains(x));
                    assert(universe.contains(x));
                };
            };
            lemma_len_subset(visited@.to_set(), universe.to_set());
            assert(visited@.len() <= universe.len());
        }
        let ghost old_visited = visited@;
        let ghost old_stack = stack@;
        let x = stack.pop().unwrap();
        proof {
            assert(visited@.contains(x)) by {
                assert(old_stack[old_stack.len() - 1] == x);
                assert(old_stack.contains(x));
            }
            // Only the last stack entry was removed, so any node now
            // missing from the stack is either x or was already absent.
            assert forall|v: TaskId, w: TaskId|
                visited@.contains(v) && !stack@.contains(v) && v != x && #[trigger] edge_in(
                    edges@,
                    v,
                    w,
                ) implies visited@.contains(w) by {
                if old_stack.contains(v) {
                    let i = choose|i: int| 0 <= i < old_stack.len() && old_stack[i] == v;
                    if i < old_stack.len() - 1 {
                        assert(stack@[i] == v);
                        assert(stack@.contains(v));
                        assert(false);
                    } else {
                        assert(v == x);
                        assert(false);
                    }
                }
            };
        }
        let mut k: usize = 0;
        let ghost mid_stack = stack@;
        while k < edges.len()
            invariant
                visited@.no_duplicates(),
                visited@.contains(from),
                !visited@.contains(to),
                visited@.contains(x),
                forall|p: int| 0 <= p < visited@.len() ==> universe.contains(
                    #[trigger] visited@[p],
                ),
                forall|p: int| 0 <= p < stack@.len() ==> visited@.contains(#[trigger] stack@[p]),
                forall|p: int| 0 <= p < visited@.len() ==> reachable(
                    edges@,
                    from,
                    #[trigger] visited@[p],
                ),
                forall|v: TaskId, w: TaskId|
                    visited@.contains(v) && !stack@.contains(v) && v != x && #[trigger] edge_in(
                        edges@,
                        v,
                        w,
                    ) ==> visited@.contains(w),
                forall|j: int|
                    0 <= j < k && edges@[j].source == x ==> visited@.contains(
                        #[trigger] edges@[j].target,
                    ),
                forall|kk: int| 0 <= kk < edges@.len() ==> #[trigger] universe.contains(
                    edges@[kk].source,
                ),
                forall|kk: int| 0 <= kk < edges@.len() ==> #[trigger] universe.contains(
                    edges@[kk].target,
                ),
                universe.no_duplicates(),
                from != to,
                k <= edges@.len(),
                // growth bookkeeping for the outer termination measure
                old_visited.len() <= visited@.len(),
                visited@.len() > old_visited.len() || stack@.len() <= mid_stack.len(),
                stack@.len() >= mid_stack.len() ==> stack@.len() - mid_stack.len() <= visited@.len()
                    - old_visited.len(),
            decreases edges@.len() - k,
        {
            if edges[k].source == x {
                let s = edges[k].target;
                proof {
                    assert(edge_in(edges@, x, s)) by {
                        assert(edges@[k as int].source == x && edges@[k as int].target == s);
                    }
                }
                if s == to {
                    proof {
                        lemma_reach_append_edge(edges@, from, x, s);
                    }
                    return true;
                }
                if !contains_node(&visited, s) {
                    proof {
                        lemma_reach_append_edge(edges@, from, x, s);
                    }
                    let ghost vs = visited@;
                    visited.push(s);
                    stack.push(s);
                    proof {
                        assert(visited@.no_duplicates()) by {
                            assert(forall|p: int|
                                0 <= p < vs.len() ==> visited@[p] == vs[p]);
                            assert(visited@[vs.len() as int] == s);
                        }
                        assert(stack@.contains(s)) by {
                            assert(stack@[stack@.len() - 1] == s);
                        }
                    }
                }
            }
            k = k + 1;
        }
        proof {
            // x is now fully expanded: every successor of x is visited.
            assert forall|v: TaskId, w: TaskId|
                visited@.contains(v) && !stack@.contains(v) && #[trigger] edge_in(edges@, v, w)
                    implies visited@.contains(w) by {
                if v == x {
                    let kk = choose|kk: int|
                        0 <= kk < edges@.len() && edges@[kk].source == x && #[trigger] edges@[kk].target
                            == w;
                    assert(visited@.contains(edges@[kk].target));
                } else {
                }
            };
            // termination: either a node was added, or the stack shrank.
            if visited@.len() == old_visited.len() {
                assert(stack@.len() < old_stack.len());
            } else {
                visited@.unique_seq_to_set();
                universe.unique_seq_to_set();
                assert(visited@.to_set().subset_of(universe.to_set())) by {
                    assert forall|y: TaskId| visited@.to_set().contains(y)
                        implies universe.to_set().contains(y) by {
                        assert(visited@.contains(y));
                        assert(universe.contains(y));
                    };
                };
                lemma_len_subset(visited@.to_set(), universe.to_set());
                assert(visited@.len() <= universe.len());
            }
        }
    }
    proof {
        if reachable(edges@, from, to) {
            let n = choose|n: nat| reach_n(edges@, from, to, n);
            lemma_closed_contains_reach(edges@, visited@, from, to, n);
            assert(false);
        }
    }
    false
}

/// In an acyclic edge set, mutual reachability collapses: two nodes
/// that reach each other are the same node.
pub proof fn lemma_reach_antisym(es: Seq<DependencyEdge>, a: TaskId, b: TaskId)
    requires
        acyclic(es),
        reachable(es, a, b),
        reachable(es, b, a),
    ensures
        a == b,
{
    if a != b {
        let n = choose|n: nat| reach_n(es, a, b, n);
        assert(n > 0);
        let mid = choose|m: TaskId| #[trigger] edge_in(es, a, m) && reach_n(es, m, b, (n - 1) as nat);
        assert(reachable(es, mid, b));
        lemma_reach_trans(es, mid, b, a);
        let k = choose|k: int|
            0 <= k < es.len() && es[k].source == a && #[trigger] es[k].target == mid;
        assert(!reachable(es, es[k].target, es[k].source));
        assert(false);
    }
}

/// Every nonempty collection of nodes over an acyclic edge set has a
/// member that no other member reaches.
pub proof fn lemma_exists_maximal(es: Seq<DependencyEdge>, s: Seq<TaskId>)
    requires
        acyclic(es),
        s.len() > 0,
    ensures
        exists|x: TaskId|
            #[trigger] s.contains(x) && forall|p: TaskId|
                s.contains(p) && #[trigger] reachable(es, p, x) ==> p == x,
    decreases s.len(),
{
    if s.len() == 1 {
        let x = s[0];
        assert(s.contains(x));
        assert forall|p: TaskId| s.contains(p) && #[trigger] reachable(es, p, x) implies p == x by {
            let i = choose|i: int| 0 <= i < s.len() && s[i] == p;
        };
    } else {
        let rest = s.drop_last();
        let z = s.last();
        lemma_exists_maximal(es, rest);
        let y = choose|y: TaskId|
            #[trigger] rest.contains(y) && forall|p: TaskId|
                rest.contains(p) && #[trigger] reachable(es, p, y) ==> p == y;
        if reachable(es, z, y) && z != y {
            // z dominates: anything in the rest reaching z would reach
            // y through z and collapse into y, which is impossible.
            assert(s.contains(z));
            assert forall|p: TaskId| s.contains(p) && #[trigger] reachable(es, p, z)
                implies p == z by {
                if p != z {
                    let i = choose|i: int| 0 <= i < s.len() && s[i] == p;
                    assert(rest[i] == p);
                    assert(rest.contains(p));
                    lemma_reach_trans(es, p, z, y);
                    assert(p == y);
                    lemma_reach_antisym(es, z, y);
                    assert(false);
                }
            };
        } else {
            // y stays maximal: z does not reach it (or is it).
            assert(rest.contains(y));
            let yi = choose|i: int| 0 <= i < rest.len() && rest[i] == y;
            assert(s[yi] == y);
            assert(s.contains(y));
            assert forall|p: TaskId| s.contains(p) && #[trigger] reachable(es, p, y)
                implies p == y by {
                let i = choose|i: int| 0 <= i < s.len() && s[i] == p;
                if i < s.len() - 1 {
                    assert(rest[i] == p);
                    assert(rest.contains(p));
                } else {
                    assert(p == z);
                }
            };
        }
    }
}

/// Every nonempty collection of nodes over an acyclic edge set has a
/// member with no predecessor inside the collection.
pub proof fn lemma_exists_source_free(es: Seq<DependencyEdge>, s: Seq<TaskId>)
    requires
        acyclic(es),
        s.len() > 0,
    ensures
        exists|x: TaskId|
            #[trigger] s.contains(x) && forall|k: int|
                0 <= k < es.len() && (#[trigger] es[k]).target == x ==> !s.contains(es[k].source),
{
    lemma_exists_maximal(es, s);
    let x = choose|x: TaskId|
        #[trigger] s.contains(x) && forall|p: TaskId|
            s.contains(p) && #[trigger] reachable(es, p, x) ==> p == x;
    assert forall|k: int| 0 <= k < es.len() && (#[trigger] es[k]).target == x implies !s.contains(
        es[k].source,
    ) by {
        if s.contains(es[k].source) {
            let src = es[k].source;
            assert(edge_in(es, src, x)) by {
                assert(es[k].source == src && es[k].target == x);
            }
            lemma_reach_edge(es, src, x);
            assert(src == x);
            assert(!reachable(es, es[k].target, es[k].source));
            lemma_reach_refl(es, x);
            assert(false);
        }
    };
}

} // verus!
