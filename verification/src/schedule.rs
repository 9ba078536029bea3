use vstd::prelude::*;
use vstd::seq_lib::*;
use vstd::set_lib::*;
use crate::error::RenderError;

verus! {

/// Every edge runs between nodes below `n`.
pub open spec fn edges_bounded(n: nat, edges: Seq<(usize, usize)>) -> bool {
    forall|k: int| 0 <= k < edges.len() ==> (#[trigger] edges[k]).0 < n && edges[k].1 < n
}

/// `order` never places an edge's target at or before its source.
pub open spec fn respects_edges(edges: Seq<(usize, usize)>, order: Seq<usize>) -> bool {
    forall|k: int, i: int, j: int|
        #![trigger edges[k], order[i], order[j]]
        0 <= k < edges.len() && 0 <= i < order.len() && 0 <= j < order.len()
            && order[i] == edges[k].0 && order[j] == edges[k].1 ==> i < j
}

/// `order` is a complete execution order for the nodes `0..n` that is
/// consistent with every edge: a permutation of the nodes in which each
/// edge's source comes strictly before its target.
pub open spec fn valid_order(n: nat, edges: Seq<(usize, usize)>, order: Seq<usize>) -> bool {
    &&& order.len() == n
    &&& (forall|i: int| 0 <= i < order.len() ==> (#[trigger] order[i]) < n)
    &&& order.no_duplicates()
    &&& respects_edges(edges, order)
}

/// The dependency set is a directed acyclic graph: some complete execution
/// order is consistent with every edge.
pub open spec fn schedulable(n: nat, edges: Seq<(usize, usize)>) -> bool {
    exists|order: Seq<usize>| valid_order(n, edges, order)
}

/// `v` has a predecessor that `placed` has not scheduled yet.
pub open spec fn blocked(placed: Seq<bool>, edges: Seq<(usize, usize)>, v: usize) -> bool {
    exists|k: int|
        0 <= k < edges.len() && (#[trigger] edges[k]).1 == v && !placed[edges[k].0 as int]
}

/// Every node `placed` has not scheduled is blocked by another such node.
pub open spec fn all_stuck(placed: Seq<bool>, edges: Seq<(usize, usize)>) -> bool {
    forall|v: usize|
        (v as int) < placed.len() && !placed[v as int] ==> #[trigger] blocked(placed, edges, v)
}

/// The set of node indices below `n`.
pub open spec fn nodes_below(n: nat) -> Set<usize> {
    Set::new(|v: usize| (v as nat) < n)
}

proof fn lemma_nodes_below_len(n: nat)
    requires
        n <= usize::MAX,
    ensures
        nodes_below(n).finite(),
        nodes_below(n).len() == n,
    decreases n,
{
    if n == 0 {
        assert(nodes_below(0) =~= Set::<usize>::empty());
    } else {
        lemma_nodes_below_len((n - 1) as nat);
        assert(nodes_below(n) =~= nodes_below((n - 1) as nat).insert((n - 1) as usize));
    }
}

/// A duplicate-free sequence of `n` node indices below `n` mentions every
/// node below `n`.
pub proof fn lemma_complete_order_onto(order: Seq<usize>, n: nat)
    requires
        n <= usize::MAX,
        order.len() == n,
        forall|i: int| 0 <= i < order.len() ==> (#[trigger] order[i]) < n,
        order.no_duplicates(),
    ensures
        forall|v: usize| (v as nat) < n ==> order.contains(v),
{
    broadcast use seq_to_set_is_finite;

    order.unique_seq_to_set();
    lemma_nodes_below_len(n);
    assert(order.to_set().subset_of(nodes_below(n))) by {
        assert forall|x: usize| order.to_set().contains(x) implies nodes_below(n).contains(x) by {
            let i = choose|i: int| 0 <= i < order.len() && order[i] == x;
            assert(order[i] < n);
        }
    }
    lemma_subset_equality(order.to_set(), nodes_below(n));
    assert forall|v: usize| (v as nat) < n implies order.contains(v) by {
        assert(nodes_below(n).contains(v));
        assert(order.to_set().contains(v));
    }
}

/// When every unscheduled node waits on another unscheduled node, no complete
/// execution order can exist: following unscheduled predecessors through any
/// candidate order would descend forever.
proof fn lemma_stuck_refutes_order(
    n: nat,
    edges: Seq<(usize, usize)>,
    placed: Seq<bool>,
    order: Seq<usize>,
    u: usize,
)
    requires
        placed.len() == n,
        n <= usize::MAX,
        edges_bounded(n, edges),
        all_stuck(placed, edges),
        (u as nat) < n,
        !placed[u as int],
    ensures
        !valid_order(n, edges, order),
    decreases (order.index_of(u) as nat),
{
    if valid_order(n, edges, order) {
        lemma_complete_order_onto(order, n);
        assert(order.contains(u));
        let iu = order.index_of(u);
        assert(0 <= iu < order.len() && order[iu] == u);
        assert(blocked(placed, edges, u));
        let k = choose|k: int|
            0 <= k < edges.len() && (#[trigger] edges[k]).1 == u && !placed[edges[k].0 as int];
        let p = edges[k].0;
        assert((p as nat) < n);
        assert(order.contains(p));
        let ip = order.index_of(p);
        assert(0 <= ip < order.len() && order[ip] == p);
        assert(ip < iu);
        lemma_stuck_refutes_order(n, edges, placed, order, p);
    }
}

/// A stuck partial schedule with at least one unscheduled node refutes
/// schedulability outright.
proof fn lemma_stuck_unschedulable(n: nat, edges: Seq<(usize, usize)>, placed: Seq<bool>, u: usize)
    requires
        placed.len() == n,
        n <= usize::MAX,
        edges_bounded(n, edges),
        all_stuck(placed, edges),
        (u as nat) < n,
        !placed[u as int],
    ensures
        !schedulable(n, edges),
{
    if schedulable(n, edges) {
        let order = choose|order: Seq<usize>| valid_order(n, edges, order);
        lemma_stuck_refutes_order(n, edges, placed, order, u);
    }
}

/// Compiles the nodes `0..n` into a complete execution order consistent with
/// every edge, taking the lowest-numbered runnable node at each step so that
/// the same description always compiles to the same schedule.
///
/// Succeeds exactly when the edges form a directed acyclic graph; a cyclic
/// dependency set is reported through `CyclicGraphError` naming a node that
/// can never be scheduled, and no order is produced.
pub fn schedule(n: usize, edges: &Vec<(usize, usize)>) -> (r: Result<Vec<usize>, RenderError>)
    requires
        edges_bounded(n as nat, edges@),
    ensures
        match r {
            Ok(order) => valid_order(n as nat, edges@, order@),
            Err(e) => {
                &&& e matches RenderError::CyclicGraph { node } && node < n
                &&& !schedulable(n as nat, edges@)
            },
        },
        r is Ok <==> schedulable(n as nat, edges@),
{
    let mut order: Vec<usize> = Vec::new();
    let mut placed: Vec<bool> = Vec::new();
    let mut f: usize = 0;
    while f < n
        invariant
            f <= n,
            placed@.len() == f,
            forall|i: int| 0 <= i < f ==> !(#[trigger] placed@[i]),
        decreases n - f,
    {
        placed.push(false);
        f = f + 1;
    }

    while order.len() < n
        invariant
            edges_bounded(n as nat, edges@),
            placed@.len() == n,
            order@.len() <= n,
            forall|i: int| 0 <= i < order@.len() ==> (#[trigger] order@[i]) < n,
            order@.no_duplicates(),
            forall|v: int|
                0 <= v < n ==> ((#[trigger] placed@[v]) <==> order@.contains(v as usize)),
            forall|k: int, j: int|
                #![trigger edges@[k], order@[j]]
                0 <= k < edges@.len() && 0 <= j < order@.len() && order@[j] == edges@[k].1
                    ==> exists|i: int| 0 <= i < j && order@[i] == edges@[k].0,
        decreases n - order@.len(),
    {
        let mut u: usize = 0;
        let mut found: Option<usize> = None;
        let mut first_unplaced: Option<usize> = None;
        while u < n
            invariant
                u <= n,
                edges_bounded(n as nat, edges@),
                placed@.len() == n,
                match found {
                    Some(c) => {
                        &&& c < n
                        &&& !placed@[c as int]
                        &&& forall|k: int|
                            0 <= k < edges@.len() && (#[trigger] edges@[k]).1 == c
                                ==> placed@[edges@[k].0 as int]
                    },
                    None => forall|v: usize|
                        v < u && !placed@[v as int] ==> #[trigger] blocked(placed@, edges@, v),
                },
                found is None ==> match first_unplaced {
                    Some(w) => w < n && !placed@[w as int],
                    None => forall|v: int| 0 <= v < u ==> placed@[v],
                },
            decreases n - u,
        {
            if found.is_none() && !placed[u] {
                if first_unplaced.is_none() {
                    first_unplaced = Some(u);
                }
                let mut ready: bool = true;
                let mut k: usize = 0;
                while k < edges.len()
                    invariant
                        k <= edges@.len(),
                        placed@.len() == n,
                        edges_bounded(n as nat, edges@),
                        u < n,
                        ready ==> forall|k2: int|
                            0 <= k2 < k && (#[trigger] edges@[k2]).1 == u
                                ==> placed@[edges@[k2].0 as int],
                        !ready ==> blocked(placed@, edges@, u),
                    decreases edges@.len() - k,
                {
                    let e: (usize, usize) = edges[k];
                    if e.1 == u && !placed[e.0] {
                        ready = false;
                    }
                    k = k + 1;
                }
                if ready {
                    found = Some(u);
                }
            }
            u = u + 1;
        }

        match found {
            Some(c) => {
                let ghost old_order = order@;
                let ghost old_placed = placed@;
                placed.set(c, true);
                order.push(c);
                proof {
                    // `c` was not in the order, so the push keeps it duplicate-free.
                    assert(!old_order.contains(c));
                    assert forall|i: int, j: int|
                        0 <= i < j < order@.len() implies order@[i] != order@[j] by {
                        if j < old_order.len() {
                            assert(old_order[i] != old_order[j]);
                        } else {
                            assert(order@[j] == c);
                            if order@[i] == c {
                                assert(old_order.contains(c));
                            }
                        }
                    }
                    // Scheduling `c` keeps the placed set and the order aligned.
                    assert forall|v: int| 0 <= v < n implies
                        ((#[trigger] placed@[v]) <==> order@.contains(v as usize)) by {
                        if v == c {
                            assert(order@[old_order.len() as int] == c);
                        } else {
                            if order@.contains(v as usize) {
                                let i = choose|i: int|
                                    0 <= i < order@.len() && order@[i] == v as usize;
                                assert(old_order[i] == v as usize);
                                assert(old_placed[v]);
                            }
                            if old_placed[v] {
                                let i = choose|i: int|
                                    0 <= i < old_order.len() && old_order[i] == v as usize;
                                assert(order@[i] == v as usize);
                            }
                        }
                    }
                    // Every predecessor of `c` already stands earlier in the order.
                    assert forall|k: int, j: int|
                        #![trigger edges@[k], order@[j]]
                        0 <= k < edges@.len() && 0 <= j < order@.len() && order@[j] == edges@[k].1
                            implies exists|i: int| 0 <= i < j && order@[i] == edges@[k].0 by {
                        if j < old_order.len() {
                            let i = choose|i: int| 0 <= i < j && old_order[i] == edges@[k].0;
                            assert(order@[i] == edges@[k].0);
                        } else {
                            assert(order@[j] == c);
                            assert(old_placed[edges@[k].0 as int]);
                            let i = choose|i: int|
                                0 <= i < old_order.len() && old_order[i] == edges@[k].0;
                            assert(order@[i] == edges@[k].0);
                        }
                    }
                }
            },
            None => {
                match first_unplaced {
                    Some(w) => {
                        proof {
                            lemma_stuck_unschedulable(n as nat, edges@, placed@, w);
                        }
                        return Err(RenderError::CyclicGraph { node: w });
                    },
                    None => {
                        proof {
                            // Every node is placed, yet fewer than `n` stand in the
                            // order that mirrors the placed set: impossible.
                            broadcast use seq_to_set_is_finite;

                            order@.unique_seq_to_set();
                            lemma_nodes_below_len(n as nat);
                            assert(nodes_below(n as nat).subset_of(order@.to_set())) by {
                                assert forall|x: usize| nodes_below(n as nat).contains(x)
                                    implies order@.to_set().contains(x) by {
                                    assert(placed@[x as int]);
                                }
                            }
                            lemma_len_subset(nodes_below(n as nat), order@.to_set());
                        }
                        return unreached();
                    },
                }
            },
        }
    }

    proof {
        assert(respects_edges(edges@, order@)) by {
            assert forall|k: int, i: int, j: int|
                #![trigger edges@[k], order@[i], order@[j]]
                0 <= k < edges@.len() && 0 <= i < order@.len() && 0 <= j < order@.len()
                    && order@[i] == edges@[k].0 && order@[j] == edges@[k].1 implies i < j by {
                let i0 = choose|i0: int| 0 <= i0 < j && order@[i0] == edges@[k].0;
                if i != i0 {
                    assert(order@[i] == order@[i0]);
                }
            }
        }
        assert(valid_order(n as nat, edges@, order@));
    }
    Ok(order)
}

} // verus!
