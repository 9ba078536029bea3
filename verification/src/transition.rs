use vstd::prelude::*;
use crate::node::{Access, accesses_wf};
use crate::resource::ResourceState;

verus! {

/// One resource-state transition, to run immediately before the node at
/// schedule position `at`: the resource leaves the state the previous
/// toucher left it in and enters the state the coming access requires.
#[derive(Clone, Copy, Debug, PartialEq, Eq, Structural)]
pub struct Transition {
    pub at: usize,
    pub res: usize,
    pub from: ResourceState,
    pub to: ResourceState,
}

/// Tracked states of the resource arena: `None` until a node first touches
/// the resource.
pub type TrackedStates = Seq<Option<ResourceState>>;

/// No resource has been touched before the first node runs.
pub open spec fn init_states(n_res: nat) -> TrackedStates {
    Seq::new(n_res, |i: int| None::<ResourceState>)
}

/// An access leaves its resource in exactly the declared state.
pub open spec fn apply_access(states: TrackedStates, a: Access) -> TrackedStates {
    states.update(a.res as int, Some(a.declared_state()))
}

/// The transition one access inserts: none on a resource's first touch (the
/// first access defines the state), none when the resource already stands in
/// the declared state, and a single transition otherwise.
pub open spec fn access_transitions(states: TrackedStates, a: Access, at: usize) -> Seq<
    Transition,
> {
    match states[a.res as int] {
        Some(prev) => if prev != a.declared_state() {
            seq![Transition { at, res: a.res, from: prev, to: a.declared_state() }]
        } else {
            Seq::empty()
        },
        None => Seq::empty(),
    }
}

/// The tracked states after one node's accesses from position `j` on.
pub open spec fn node_states(states: TrackedStates, accs: Seq<Access>, j: int) -> TrackedStates
    decreases accs.len() - j,
{
    if j < 0 || j >= accs.len() {
        states
    } else {
        node_states(apply_access(states, accs[j]), accs, j + 1)
    }
}

/// The transitions one node inserts, from access position `j` on, when it
/// runs at schedule position `at`.
pub open spec fn node_trans(states: TrackedStates, accs: Seq<Access>, at: usize, j: int) -> Seq<
    Transition,
>
    decreases accs.len() - j,
{
    if j < 0 || j >= accs.len() {
        Seq::empty()
    } else {
        access_transitions(states, accs[j], at) + node_trans(
            apply_access(states, accs[j]),
            accs,
            at,
            j + 1,
        )
    }
}

/// The tracked states after walking the scheduled nodes from position `p` on.
pub open spec fn plan_states(
    states: TrackedStates,
    na: Seq<Seq<Access>>,
    order: Seq<usize>,
    p: int,
) -> TrackedStates
    decreases order.len() - p,
{
    if p < 0 || p >= order.len() {
        states
    } else {
        plan_states(node_states(states, na[order[p] as int], 0), na, order, p + 1)
    }
}

/// The transitions the whole walk inserts from schedule position `p` on.
pub open spec fn plan_trans(
    states: TrackedStates,
    na: Seq<Seq<Access>>,
    order: Seq<usize>,
    p: int,
) -> Seq<Transition>
    decreases order.len() - p,
{
    if p < 0 || p >= order.len() {
        Seq::empty()
    } else {
        node_trans(states, na[order[p] as int], p as usize, 0) + plan_trans(
            node_states(states, na[order[p] as int], 0),
            na,
            order,
            p + 1,
        )
    }
}

/// The full transition plan for a compiled schedule.
pub open spec fn planned_transitions(na: Seq<Seq<Access>>, order: Seq<usize>, n_res: nat) -> Seq<
    Transition,
> {
    plan_trans(init_states(n_res), na, order, 0)
}

/// The tracked states once the first `q` scheduled nodes have run.
pub open spec fn states_after(na: Seq<Seq<Access>>, order: Seq<usize>, n_res: nat, q: int)
    -> TrackedStates
    decreases q,
{
    if q <= 0 {
        init_states(n_res)
    } else {
        node_states(states_after(na, order, n_res, q - 1), na[order[q - 1] as int], 0)
    }
}

/// Every node named by the schedule exists.
pub open spec fn order_bounded(order: Seq<usize>, n_nodes: nat) -> bool {
    forall|p: int| 0 <= p < order.len() ==> (#[trigger] order[p]) < n_nodes
}

/// Every node's access list is well-formed for the arena.
pub open spec fn na_wf(na: Seq<Seq<Access>>, n_res: nat) -> bool {
    forall|i: int| 0 <= i < na.len() ==> accesses_wf(#[trigger] na[i], n_res)
}

/// Walking a node's accesses never changes the arena's size.
proof fn lemma_node_states_len(states: TrackedStates, accs: Seq<Access>, j: int, n_res: nat)
    requires
        states.len() == n_res,
        accesses_wf(accs, n_res),
    ensures
        node_states(states, accs, j).len() == n_res,
    decreases accs.len() - j,
{
    if 0 <= j < accs.len() {
        lemma_node_states_len(apply_access(states, accs[j]), accs, j + 1, n_res);
    }
}

/// Walking the schedule never changes the arena's size.
pub proof fn lemma_states_after_len(na: Seq<Seq<Access>>, order: Seq<usize>, n_res: nat, q: int)
    requires
        na_wf(na, n_res),
        order_bounded(order, na.len()),
        q <= order.len(),
    ensures
        states_after(na, order, n_res, q).len() == n_res,
    decreases q,
{
    if q > 0 {
        lemma_states_after_len(na, order, n_res, q - 1);
        lemma_node_states_len(
            states_after(na, order, n_res, q - 1),
            na[order[q - 1] as int],
            0,
            n_res,
        );
    }
}

/// Accesses that avoid resource `r` leave its tracked state alone.
proof fn lemma_node_states_untouched(
    states: TrackedStates,
    accs: Seq<Access>,
    j: int,
    r: int,
)
    requires
        0 <= r < states.len(),
        forall|j2: int| j <= j2 < accs.len() ==> (#[trigger] accs[j2]).res != r,
        forall|j2: int| 0 <= j2 < accs.len() ==> (#[trigger] accs[j2]).res < states.len(),
    ensures
        node_states(states, accs, j)[r] == states[r],
    decreases accs.len() - j,
{
    if 0 <= j < accs.len() {
        lemma_node_states_untouched(apply_access(states, accs[j]), accs, j + 1, r);
    } else if j < 0 {
        lemma_node_states_untouched(states, accs, 0, r);
    }
}

/// After a node's walk, each resource it accesses stands exactly in the
/// declared state.
proof fn lemma_node_states_sets(
    states: TrackedStates,
    accs: Seq<Access>,
    j0: int,
    j: int,
    n_res: nat,
)
    requires
        states.len() == n_res,
        accesses_wf(accs, n_res),
        0 <= j0 <= j < accs.len(),
    ensures
        node_states(states, accs, j0)[accs[j].res as int] == Some(accs[j].declared_state()),
    decreases accs.len() - j0,
{
    let stepped = apply_access(states, accs[j0]);
    if j == j0 {
        assert(stepped[accs[j0].res as int] == Some(accs[j0].declared_state()));
        lemma_node_states_untouched(stepped, accs, j0 + 1, accs[j0].res as int);
    } else {
        lemma_node_states_sets(stepped, accs, j0 + 1, j, n_res);
    }
}

/// Transition correctness: immediately after the transition-insertion step of
/// the node at schedule position `p`, every resource that node declares an
/// access on stands exactly in the access's declared stage and layout.
pub proof fn lemma_transition_correctness(
    na: Seq<Seq<Access>>,
    order: Seq<usize>,
    n_res: nat,
    p: int,
    j: int,
)
    requires
        na_wf(na, n_res),
        order_bounded(order, na.len()),
        0 <= p < order.len(),
        0 <= j < na[order[p] as int].len(),
    ensures
        states_after(na, order, n_res, p + 1)[na[order[p] as int][j].res as int] == Some(
            na[order[p] as int][j].declared_state(),
        ),
{
    lemma_states_after_len(na, order, n_res, p);
    lemma_node_states_sets(states_after(na, order, n_res, p), na[order[p] as int], 0, j, n_res);
}

/// Once the nodes from position `q` on never touch resource `r`, its state
/// after the whole schedule is its state after the first `q` nodes.
pub proof fn lemma_states_untouched_after(
    na: Seq<Seq<Access>>,
    order: Seq<usize>,
    n_res: nat,
    q: int,
    r: int,
)
    requires
        na_wf(na, n_res),
        order_bounded(order, na.len()),
        0 <= q <= order.len(),
        0 <= r < n_res,
        forall|p: int, j: int|
            q <= p < order.len() && 0 <= j < na[order[p] as int].len()
                ==> (#[trigger] na[order[p] as int][j]).res != r,
    ensures
        states_after(na, order, n_res, order.len() as int)[r] == states_after(
            na,
            order,
            n_res,
            q,
        )[r],
    decreases order.len() - q,
{
    if q < order.len() {
        lemma_states_after_len(na, order, n_res, q);
        assert forall|j2: int|
            0 <= j2 < na[order[q] as int].len() implies (#[trigger] na[order[q] as int][j2]).res
            != r by {
            assert(na[order[q] as int][j2].res != r);
        }
        lemma_node_states_untouched(
            states_after(na, order, n_res, q),
            na[order[q] as int],
            0,
            r,
        );
        lemma_states_untouched_after(na, order, n_res, q + 1, r);
    }
}

/// The suffix walk from the prefix's end state reproduces the full walk.
proof fn lemma_prefix_suffix_states(na: Seq<Seq<Access>>, order: Seq<usize>, n_res: nat, q: int)
    requires
        0 <= q <= order.len(),
    ensures
        plan_states(states_after(na, order, n_res, q), na, order, q) == plan_states(
            init_states(n_res),
            na,
            order,
            0,
        ),
    decreases q,
{
    if q > 0 {
        lemma_prefix_suffix_states(na, order, n_res, q - 1);
    }
}

/// The states the planner ends with are the states after the whole schedule.
pub proof fn lemma_final_states(na: Seq<Seq<Access>>, order: Seq<usize>, n_res: nat)
    ensures
        plan_states(init_states(n_res), na, order, 0) == states_after(
            na,
            order,
            n_res,
            order.len() as int,
        ),
{
    lemma_prefix_suffix_states(na, order, n_res, order.len() as int);
}

/// The views of per-node access lists.
pub open spec fn access_views(na: Seq<Vec<Access>>) -> Seq<Seq<Access>> {
    na.map_values(|v: Vec<Access>| v@)
}

/// Walks the compiled schedule once and inserts a transition wherever a
/// node's declared access differs from the state the previous toucher left
/// the resource in; a resource's first access defines its state without a
/// transition. Returns the inserted transitions in schedule order together
/// with each resource's final state.
pub fn plan(node_accesses: &Vec<Vec<Access>>, order: &Vec<usize>, n_res: usize) -> (r: (
    Vec<Transition>,
    Vec<Option<ResourceState>>,
))
    requires
        order_bounded(order@, node_accesses@.len() as nat),
        na_wf(access_views(node_accesses@), n_res as nat),
    ensures
        r.0@ == planned_transitions(access_views(node_accesses@), order@, n_res as nat),
        r.1@ == states_after(
            access_views(node_accesses@),
            order@,
            n_res as nat,
            order@.len() as int,
        ),
{
    let ghost na = access_views(node_accesses@);
    let ghost init = init_states(n_res as nat);
    let mut states: Vec<Option<ResourceState>> = Vec::new();
    let mut f: usize = 0;
    while f < n_res
        invariant
            f <= n_res,
            states@.len() == f,
            forall|i: int| 0 <= i < f ==> states@[i] is None,
        decreases n_res - f,
    {
        states.push(None);
        f = f + 1;
    }
    proof {
        assert(states@ =~= init);
    }

    let mut out: Vec<Transition> = Vec::new();
    let mut p: usize = 0;
    while p < order.len()
        invariant
            order_bounded(order@, node_accesses@.len() as nat),
            na_wf(na, n_res as nat),
            na == access_views(node_accesses@),
            p <= order@.len(),
            states@.len() == n_res,
            out@ + plan_trans(states@, na, order@, p as int) == plan_trans(init, na, order@, 0),
            plan_states(states@, na, order@, p as int) == plan_states(init, na, order@, 0),
            states@ == states_after(na, order@, n_res as nat, p as int),
        decreases order@.len() - p,
    {
        let node: usize = order[p];
        let ghost accs = na[node as int];
        let ghost entry_states = states@;
        let ghost entry_out = out@;
        assert(accs == node_accesses@[node as int]@);
        let mut j: usize = 0;
        while j < node_accesses[node].len()
            invariant
                order_bounded(order@, node_accesses@.len() as nat),
                na_wf(na, n_res as nat),
                na == access_views(node_accesses@),
                p < order@.len(),
                node == order@[p as int],
                accs == node_accesses@[node as int]@,
                node < node_accesses@.len(),
                j <= accs.len(),
                states@.len() == n_res,
                out@ + node_trans(states@, accs, p, j as int) + plan_trans(
                    node_states(states@, accs, j as int),
                    na,
                    order@,
                    p as int + 1,
                ) == plan_trans(init, na, order@, 0),
                plan_states(node_states(states@, accs, j as int), na, order@, p as int + 1)
                    == plan_states(init, na, order@, 0),
                node_states(states@, accs, j as int) == node_states(
                    entry_states,
                    accs,
                    0,
                ),
            decreases accs.len() - j,
        {
            let a: Access = node_accesses[node][j];
            assert(a == accs[j as int]);
            proof {
                assert(na[node as int] == node_accesses@[node as int]@);
                assert(accesses_wf(accs, n_res as nat));
            }
            assert(a.res < n_res);
            let ghost pre_states = states@;
            let ghost pre_out = out@;
            let declared = ResourceState { stage: a.stage, layout: a.layout };
            match states[a.res] {
                Some(prev) => {
                    if !(prev == declared) {
                        out.push(Transition { at: p, res: a.res, from: prev, to: declared });
                        proof {
                            assert(out@ =~= pre_out + access_transitions(
                                pre_states,
                                a,
                                p,
                            ));
                        }
                    } else {
                        proof {
                            assert(out@ =~= pre_out + access_transitions(
                                pre_states,
                                a,
                                p,
                            ));
                        }
                    }
                },
                None => {
                    proof {
                        assert(out@ =~= pre_out + access_transitions(pre_states, a, p));
                    }
                },
            }
            states.set(a.res, Some(declared));
            proof {
                assert(declared == a.declared_state());
                assert(states@ == apply_access(pre_states, a));
                assert(node_trans(pre_states, accs, p, j as int) == access_transitions(
                    pre_states,
                    a,
                    p,
                ) + node_trans(states@, accs, p, j as int + 1));
                assert(pre_out + (access_transitions(pre_states, a, p) + node_trans(
                    states@,
                    accs,
                    p,
                    j as int + 1,
                )) =~= out@ + node_trans(states@, accs, p, j as int + 1));
            }
            j = j + 1;
        }
        proof {
            assert(node_states(states@, accs, j as int) == states@);
            assert(node_trans(states@, accs, p, j as int) == Seq::<Transition>::empty());
            assert(out@ + Seq::<Transition>::empty() =~= out@);
        }
        p = p + 1;
    }
    proof {
        assert(plan_trans(states@, na, order@, p as int) == Seq::<Transition>::empty());
        assert(out@ + Seq::<Transition>::empty() =~= out@);
        lemma_final_states(na, order@, n_res as nat);
    }
    (out, states)
}

} // verus!
