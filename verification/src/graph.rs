use vstd::prelude::*;
use vstd::pervasive::unreached;
use crate::encoder::{Command, Encoder};
use crate::error::RenderError;
use crate::node::{Access, accesses_wf};
use crate::pipeline::{PipelineDescriptor, PipelineInstance, ShaderSet};
use crate::resource::{
    AccessStage, ClearColor, Device, ImageLayout, MemoryPolicy, Resource, ResourceKind,
    ResourceState, UsageFlags,
};
use crate::schedule::{edges_bounded, schedulable, schedule, valid_order};
use crate::transition::{
    Transition, TrackedStates, access_transitions, access_views, apply_access, init_states,
    lemma_states_untouched_after, lemma_transition_correctness, na_wf, node_states, node_trans,
    plan, planned_transitions, states_after,
};

verus! {

/// A declared attachment image: created fresh by graph compilation, cleared
/// to `clear` at the start of each frame.
#[derive(Clone, Copy, Debug, PartialEq, Eq, Structural)]
pub struct ImageDecl {
    pub width: u32,
    pub height: u32,
    pub clear: Option<ClearColor>,
}

/// What a declared node does when its turn comes.
#[derive(Debug)]
pub enum NodeSpecKind {
    /// Run a render pass driven by the given pipeline, built against the
    /// given shader set.
    RenderPass { desc: PipelineDescriptor, shaders: ShaderSet },
    /// Hand the named resource to the presentation surface.
    Present { res: usize },
}

/// One declared unit of graph work: its resource accesses, its explicit
/// dependencies on earlier nodes, and its operation.
#[derive(Debug)]
pub struct NodeSpec {
    pub accesses: Vec<Access>,
    pub deps: Vec<usize>,
    pub kind: NodeSpecKind,
}

impl ImageDecl {
    pub open spec fn spec_bytes(self) -> int {
        self.width as int * self.height as int * 4
    }
}

pub open spec fn node_spec_wf(n: NodeSpec, n_res: nat, n_nodes: nat) -> bool {
    &&& accesses_wf(n.accesses@, n_res)
    &&& (forall|d: int| 0 <= d < n.deps@.len() ==> (#[trigger] n.deps@[d]) < n_nodes)
    &&& match n.kind {
        NodeSpecKind::RenderPass { desc, shaders } => {
            &&& desc.wf()
            &&& n.accesses@.len() == 1
            &&& n.accesses@[0].write
            &&& n.accesses@[0].stage == AccessStage::ColorAttachmentWrite
            &&& n.accesses@[0].layout == ImageLayout::ColorAttachmentOptimal
        },
        NodeSpecKind::Present { res } => {
            &&& res < n_res
            &&& n.accesses@.len() == 1
            &&& n.accesses@[0] == (Access {
                res,
                write: false,
                stage: AccessStage::Present,
                layout: ImageLayout::PresentSrc,
            })
        },
    }
}

/// The declarative description a graph is compiled from.
#[derive(Debug)]
pub struct GraphBuilder {
    pub images: Vec<ImageDecl>,
    pub nodes: Vec<NodeSpec>,
}

impl GraphBuilder {
    pub open spec fn wf(self) -> bool {
        &&& (forall|i: int|
            0 <= i < self.nodes@.len() ==> node_spec_wf(
                #[trigger] self.nodes@[i],
                self.images@.len() as nat,
                self.nodes@.len() as nat,
            ))
        &&& (forall|i: int|
            0 <= i < self.images@.len() ==> (#[trigger] self.images@[i]).spec_bytes()
                <= u64::MAX)
    }

    pub fn new() -> (b: GraphBuilder)
        ensures
            b.images@.len() == 0,
            b.nodes@.len() == 0,
            b.wf(),
    {
        GraphBuilder { images: Vec::new(), nodes: Vec::new() }
    }

    /// Declares an attachment image for the graph to create at compile time.
    pub fn create_image(&mut self, width: u32, height: u32, clear: Option<ClearColor>) -> (id:
        usize)
        requires
            old(self).wf(),
            width as int * height as int * 4 <= u64::MAX,
        ensures
            final(self).wf(),
            final(self).nodes@ == old(self).nodes@,
            final(self).images@ == old(self).images@.push(ImageDecl { width, height, clear }),
            id == old(self).images@.len(),
    {
        let id: usize = self.images.len();
        self.images.push(ImageDecl { width, height, clear });
        proof {
            assert forall|i: int| 0 <= i < self.nodes@.len() implies node_spec_wf(
                #[trigger] self.nodes@[i],
                self.images@.len() as nat,
                self.nodes@.len() as nat,
            ) by {
                assert(node_spec_wf(
                    self.nodes@[i],
                    old(self).images@.len() as nat,
                    self.nodes@.len() as nat,
                ));
            }
        }
        id
    }

    /// Declares a render pass that writes `color` and runs after `deps`.
    pub fn add_render_pass(
        &mut self,
        desc: PipelineDescriptor,
        shaders: ShaderSet,
        color: usize,
        deps: Vec<usize>,
    ) -> (id: usize)
        requires
            old(self).wf(),
            desc.wf(),
            color < old(self).images@.len(),
            forall|d: int| 0 <= d < deps@.len() ==> (#[trigger] deps@[d]) < old(self).nodes@.len(),
        ensures
            final(self).wf(),
            final(self).images@ == old(self).images@,
            final(self).nodes@.len() == old(self).nodes@.len() + 1,
            forall|i: int|
                0 <= i < old(self).nodes@.len() ==> final(self).nodes@[i] == old(self).nodes@[i],
            final(self).nodes@.last().accesses@ =~= seq![(Access {
                res: color,
                write: true,
                stage: AccessStage::ColorAttachmentWrite,
                layout: ImageLayout::ColorAttachmentOptimal,
            })],
            final(self).nodes@.last().deps@ == deps@,
            final(self).nodes@.last().kind matches NodeSpecKind::RenderPass { .. },
            id == old(self).nodes@.len(),
    {
        let id: usize = self.nodes.len();
        let mut accesses: Vec<Access> = Vec::new();
        accesses.push(Access::color_write(color));
        self.nodes.push(NodeSpec {
            accesses,
            deps,
            kind: NodeSpecKind::RenderPass { desc, shaders },
        });
        id
    }

    /// Declares the present node consuming `res`, running after `deps`.
    pub fn add_present(&mut self, res: usize, deps: Vec<usize>) -> (id: usize)
        requires
            old(self).wf(),
            res < old(self).images@.len(),
            forall|d: int| 0 <= d < deps@.len() ==> (#[trigger] deps@[d]) < old(self).nodes@.len(),
        ensures
            final(self).wf(),
            final(self).images@ == old(self).images@,
            final(self).nodes@.len() == old(self).nodes@.len() + 1,
            forall|i: int|
                0 <= i < old(self).nodes@.len() ==> final(self).nodes@[i] == old(self).nodes@[i],
            final(self).nodes@.last().kind matches NodeSpecKind::Present { res: r } && r == res,
            final(self).nodes@.last().deps@ == deps@,
            id == old(self).nodes@.len(),
    {
        let id: usize = self.nodes.len();
        let mut accesses: Vec<Access> = Vec::new();
        accesses.push(Access::present_read(res));
        self.nodes.push(NodeSpec { accesses, deps, kind: NodeSpecKind::Present { res } });
        id
    }
}

/// Some access in `accs` writes resource `r`.
pub open spec fn writes_res(accs: Seq<Access>, r: usize) -> bool {
    exists|i: int| 0 <= i < accs.len() && (#[trigger] accs[i]).write && accs[i].res == r
}

/// Some access in `accs` reads resource `r`.
pub open spec fn reads_res(accs: Seq<Access>, r: usize) -> bool {
    exists|i: int| 0 <= i < accs.len() && !(#[trigger] accs[i]).write && accs[i].res == r
}

/// The edge relation graph compilation schedules against: an explicit
/// dependency, or a writer feeding a reader of the same resource.
pub open spec fn spec_is_edge(
    accs: Seq<Seq<Access>>,
    deps: Seq<Seq<usize>>,
    e: (usize, usize),
) -> bool {
    &&& e.0 < accs.len()
    &&& e.1 < accs.len()
    &&& (deps[e.1 as int].contains(e.0) || (e.0 != e.1 && exists|r: usize|
        #[trigger] writes_res(accs[e.0 as int], r) && reads_res(accs[e.1 as int], r)))
}

/// The per-node access lists of a node-spec list.
pub open spec fn spec_accs(nodes: Seq<NodeSpec>) -> Seq<Seq<Access>> {
    nodes.map_values(|n: NodeSpec| n.accesses@)
}

/// The per-node dependency lists of a node-spec list.
pub open spec fn spec_deps(nodes: Seq<NodeSpec>) -> Seq<Seq<usize>> {
    nodes.map_values(|n: NodeSpec| n.deps@)
}

/// Which nodes present, and what resource each hands over.
pub open spec fn spec_presents(nodes: Seq<NodeSpec>) -> Seq<Option<usize>> {
    nodes.map_values(
        |n: NodeSpec|
            match n.kind {
                NodeSpecKind::Present { res } => Some(res),
                NodeSpecKind::RenderPass { .. } => None::<usize>,
            },
    )
}

proof fn lemma_push_contains<T>(s: Seq<T>, x: T)
    ensures
        forall|y: T| s.contains(y) ==> #[trigger] s.push(x).contains(y),
        s.push(x).contains(x),
{
    assert(s.push(x)[s.len() as int] == x);
    assert forall|y: T| s.contains(y) implies #[trigger] s.push(x).contains(y) by {
        let i = choose|i: int| 0 <= i < s.len() && s[i] == y;
        assert(s.push(x)[i] == y);
    }
}

/// Whether a writer in `wa` feeds a reader in `rb`.
fn access_overlap(wa: &Vec<Access>, rb: &Vec<Access>) -> (b: bool)
    ensures
        b == (exists|r: usize| #[trigger] writes_res(wa@, r) && reads_res(rb@, r)),
{
    let mut i: usize = 0;
    while i < wa.len()
        invariant
            i <= wa@.len(),
            forall|i2: int, j2: int|
                #![trigger wa@[i2], rb@[j2]]
                0 <= i2 < i && 0 <= j2 < rb@.len() && wa@[i2].write && !rb@[j2].write
                    ==> wa@[i2].res != rb@[j2].res,
        decreases wa@.len() - i,
    {
        let a: Access = wa[i];
        if a.write {
            let mut j: usize = 0;
            while j < rb.len()
                invariant
                    j <= rb@.len(),
                    a == wa@[i as int],
                    i < wa@.len(),
                    a.write,
                    forall|j2: int|
                        0 <= j2 < j && !(#[trigger] rb@[j2]).write ==> rb@[j2].res != a.res,
                decreases rb@.len() - j,
            {
                let c: Access = rb[j];
                if !c.write && c.res == a.res {
                    proof {
                        assert(writes_res(wa@, a.res));
                        assert(reads_res(rb@, a.res));
                    }
                    return true;
                }
                j = j + 1;
            }
        }
        i = i + 1;
    }
    proof {
        assert forall|r: usize| !(writes_res(wa@, r) && reads_res(rb@, r)) by {
            if writes_res(wa@, r) && reads_res(rb@, r) {
                let i2 = choose|i2: int|
                    0 <= i2 < wa@.len() && (#[trigger] wa@[i2]).write && wa@[i2].res == r;
                let j2 = choose|j2: int|
                    0 <= j2 < rb@.len() && !(#[trigger] rb@[j2]).write && rb@[j2].res == r;
                assert(wa@[i2].res != rb@[j2].res);
            }
        }
    }
    false
}

/// Collects every edge of the dependency relation: one per declared
/// dependency, and one from each writer to each reader of a shared resource.
fn collect_edges(nodes: &Vec<NodeSpec>) -> (edges: Vec<(usize, usize)>)
    requires
        forall|b: int, d: int|
            0 <= b < nodes@.len() && 0 <= d < nodes@[b].deps@.len()
                ==> (#[trigger] nodes@[b].deps@[d]) < nodes@.len(),
    ensures
        forall|k: int|
            0 <= k < edges@.len() ==> spec_is_edge(
                spec_accs(nodes@),
                spec_deps(nodes@),
                #[trigger] edges@[k],
            ),
        forall|e: (usize, usize)|
            spec_is_edge(spec_accs(nodes@), spec_deps(nodes@), e) ==> #[trigger] edges@.contains(
                e,
            ),
        edges_bounded(nodes@.len() as nat, edges@),
{
    let ghost av = spec_accs(nodes@);
    let ghost dv = spec_deps(nodes@);
    let n: usize = nodes.len();
    let mut edges: Vec<(usize, usize)> = Vec::new();
    let mut b: usize = 0;
    while b < n
        invariant
            n == nodes@.len(),
            av == spec_accs(nodes@),
            dv == spec_deps(nodes@),
            b <= n,
            forall|b2: int, d2: int|
                0 <= b2 < nodes@.len() && 0 <= d2 < nodes@[b2].deps@.len()
                    ==> (#[trigger] nodes@[b2].deps@[d2]) < nodes@.len(),
            forall|k: int|
                0 <= k < edges@.len() ==> spec_is_edge(av, dv, #[trigger] edges@[k]),
            forall|b2: int, d2: int|
                #![trigger dv[b2][d2]]
                0 <= b2 < b && 0 <= d2 < dv[b2].len() ==> edges@.contains((dv[b2][d2], b2 as usize)),
        decreases n - b,
    {
        let mut d: usize = 0;
        while d < nodes[b].deps.len()
            invariant
                n == nodes@.len(),
                av == spec_accs(nodes@),
                dv == spec_deps(nodes@),
                b < n,
                d <= nodes@[b as int].deps@.len(),
                forall|b2: int, d2: int|
                    0 <= b2 < nodes@.len() && 0 <= d2 < nodes@[b2].deps@.len()
                        ==> (#[trigger] nodes@[b2].deps@[d2]) < nodes@.len(),
                forall|k: int|
                    0 <= k < edges@.len() ==> spec_is_edge(av, dv, #[trigger] edges@[k]),
                forall|b2: int, d2: int|
                    #![trigger dv[b2][d2]]
                    0 <= b2 < b && 0 <= d2 < dv[b2].len() ==> edges@.contains(
                        (dv[b2][d2], b2 as usize),
                    ),
                forall|d2: int|
                    0 <= d2 < d ==> edges@.contains(((#[trigger] dv[b as int][d2]), b)),
            decreases nodes@[b as int].deps@.len() - d,
        {
            let from: usize = nodes[b].deps[d];
            proof {
                assert(dv[b as int] == nodes@[b as int].deps@);
                lemma_push_contains(edges@, (from, b));
            }
            edges.push((from, b));
            d = d + 1;
        }
        b = b + 1;
    }

    let mut a: usize = 0;
    while a < n
        invariant
            n == nodes@.len(),
            av == spec_accs(nodes@),
            dv == spec_deps(nodes@),
            a <= n,
            forall|k: int|
                0 <= k < edges@.len() ==> spec_is_edge(av, dv, #[trigger] edges@[k]),
            forall|b2: int, d2: int|
                #![trigger dv[b2][d2]]
                0 <= b2 < nodes@.len() && 0 <= d2 < dv[b2].len() ==> edges@.contains(
                    (dv[b2][d2], b2 as usize),
                ),
            forall|a2: usize, b2: usize|
                a2 < a && b2 < n && a2 != b2 && (exists|r: usize|
                    #[trigger] writes_res(av[a2 as int], r) && reads_res(av[b2 as int], r))
                    ==> #[trigger] edges@.contains((a2, b2)),
        decreases n - a,
    {
        let mut c: usize = 0;
        while c < n
            invariant
                n == nodes@.len(),
                av == spec_accs(nodes@),
                dv == spec_deps(nodes@),
                a < n,
                c <= n,
                forall|k: int|
                    0 <= k < edges@.len() ==> spec_is_edge(av, dv, #[trigger] edges@[k]),
                forall|b2: int, d2: int|
                    #![trigger dv[b2][d2]]
                    0 <= b2 < nodes@.len() && 0 <= d2 < dv[b2].len() ==> edges@.contains(
                        (dv[b2][d2], b2 as usize),
                    ),
                forall|a2: usize, b2: usize|
                    a2 < a && b2 < n && a2 != b2 && (exists|r: usize|
                        #[trigger] writes_res(av[a2 as int], r) && reads_res(av[b2 as int], r))
                        ==> #[trigger] edges@.contains((a2, b2)),
                forall|b2: usize|
                    b2 < c && a != b2 && (exists|r: usize|
                        #[trigger] writes_res(av[a as int], r) && reads_res(av[b2 as int], r))
                        ==> #[trigger] edges@.contains((a, b2)),
            decreases n - c,
        {
            if a != c {
                proof {
                    assert(av[a as int] == nodes@[a as int].accesses@);
                    assert(av[c as int] == nodes@[c as int].accesses@);
                }
                if access_overlap(&nodes[a].accesses, &nodes[c].accesses) {
                    proof {
                        lemma_push_contains(edges@, (a, c));
                    }
                    edges.push((a, c));
                }
            }
            c = c + 1;
        }
        a = a + 1;
    }
    proof {
        assert forall|k: int| 0 <= k < edges@.len() implies (#[trigger] edges@[k]).0 < n
            && edges@[k].1 < n by {
            assert(spec_is_edge(av, dv, edges@[k]));
        }
    }
    edges
}


/// Some access of `node` touches resource `r`.
pub open spec fn touches(accs: Seq<Seq<Access>>, node: usize, r: usize) -> bool {
    exists|j: int|
        0 <= j < accs[node as int].len() && (#[trigger] accs[node as int][j]).res == r
}

/// Node `x` declares an explicit dependency on a present node.
pub open spec fn depends_on_present(
    deps: Seq<Seq<usize>>,
    pres: Seq<Option<usize>>,
    x: usize,
) -> bool {
    exists|d: int|
        0 <= d < deps[x as int].len() && pres[(#[trigger] deps[x as int][d]) as int] is Some
}

/// Node `x` touches a resource at a schedule position after a present node
/// consumed it.
pub open spec fn touch_after_present(
    accs: Seq<Seq<Access>>,
    pres: Seq<Option<usize>>,
    order: Seq<usize>,
    x: usize,
) -> bool {
    exists|pp: int, xp: int|
        #![trigger order[pp], order[xp]]
        {
            &&& 0 <= pp < xp < order.len()
            &&& order[xp] == x
            &&& (pres[order[pp] as int] matches Some(r) && touches(accs, x, r))
        }
}

/// Node `x` breaks the rule that a present node is the terminal consumer of
/// its resource: it either depends on a present node or touches an
/// already-presented resource.
pub open spec fn spec_violates(
    accs: Seq<Seq<Access>>,
    deps: Seq<Seq<usize>>,
    pres: Seq<Option<usize>>,
    order: Seq<usize>,
    x: usize,
) -> bool {
    &&& (x as int) < accs.len()
    &&& (depends_on_present(deps, pres, x) || touch_after_present(accs, pres, order, x))
}

/// No node breaks the presentation rule.
pub open spec fn presentation_ok(
    accs: Seq<Seq<Access>>,
    deps: Seq<Seq<usize>>,
    pres: Seq<Option<usize>>,
    order: Seq<usize>,
) -> bool {
    forall|x: usize| !(#[trigger] spec_violates(accs, deps, pres, order, x))
}

/// Checks the structural presentation rules of a scheduled graph: nothing
/// may depend on a present node, and nothing may touch a resource after the
/// present node that consumed it.
fn validate(nodes: &Vec<NodeSpec>, order: &Vec<usize>) -> (r: Result<(), RenderError>)
    requires
        forall|p: int| 0 <= p < order@.len() ==> (#[trigger] order@[p]) < nodes@.len(),
        forall|b: int, d: int|
            0 <= b < nodes@.len() && 0 <= d < nodes@[b].deps@.len()
                ==> (#[trigger] nodes@[b].deps@[d]) < nodes@.len(),
    ensures
        match r {
            Ok(()) => presentation_ok(
                spec_accs(nodes@),
                spec_deps(nodes@),
                spec_presents(nodes@),
                order@,
            ),
            Err(e) => {
                &&& e matches RenderError::GraphValidation { node }
                &&& spec_violates(
                    spec_accs(nodes@),
                    spec_deps(nodes@),
                    spec_presents(nodes@),
                    order@,
                    node,
                )
            },
        },
{
    let ghost av = spec_accs(nodes@);
    let ghost dv = spec_deps(nodes@);
    let ghost pv = spec_presents(nodes@);
    let n: usize = nodes.len();

    let mut x: usize = 0;
    while x < n
        invariant
            n == nodes@.len(),
            av == spec_accs(nodes@),
            dv == spec_deps(nodes@),
            pv == spec_presents(nodes@),
            x <= n,
            forall|b: int, d: int|
                0 <= b < nodes@.len() && 0 <= d < nodes@[b].deps@.len()
                    ==> (#[trigger] nodes@[b].deps@[d]) < nodes@.len(),
            forall|x2: usize| x2 < x ==> !(#[trigger] depends_on_present(dv, pv, x2)),
        decreases n - x,
    {
        let mut d: usize = 0;
        while d < nodes[x].deps.len()
            invariant
                n == nodes@.len(),
                av == spec_accs(nodes@),
                dv == spec_deps(nodes@),
                pv == spec_presents(nodes@),
                x < n,
                d <= nodes@[x as int].deps@.len(),
                forall|b: int, dd: int|
                    0 <= b < nodes@.len() && 0 <= dd < nodes@[b].deps@.len()
                        ==> (#[trigger] nodes@[b].deps@[dd]) < nodes@.len(),
                forall|d2: int|
                    0 <= d2 < d ==> pv[(#[trigger] dv[x as int][d2]) as int] is None,
            decreases nodes@[x as int].deps@.len() - d,
        {
            let dep: usize = nodes[x].deps[d];
            let is_present: bool = match &nodes[dep].kind {
                NodeSpecKind::Present { .. } => true,
                NodeSpecKind::RenderPass { .. } => false,
            };
            proof {
                assert(dv[x as int] == nodes@[x as int].deps@);
                assert(pv[dep as int] == (match nodes@[dep as int].kind {
                    NodeSpecKind::Present { res } => Some(res),
                    NodeSpecKind::RenderPass { .. } => None::<usize>,
                }));
            }
            if is_present {
                proof {
                    assert(pv[dv[x as int][d as int] as int] is Some);
                    assert(depends_on_present(dv, pv, x));
                }
                return Err(RenderError::GraphValidation { node: x });
            }
            d = d + 1;
        }
        proof {
            assert forall|x2: usize| x2 < x + 1 implies !(#[trigger] depends_on_present(
                dv,
                pv,
                x2,
            )) by {
                if x2 == x {
                    if depends_on_present(dv, pv, x) {
                        let d2 = choose|d2: int|
                            0 <= d2 < dv[x as int].len() && pv[(#[trigger] dv[x as int][d2]) as int]
                                is Some;
                        assert(pv[dv[x as int][d2] as int] is None);
                    }
                }
            }
        }
        x = x + 1;
    }

    let mut pp: usize = 0;
    while pp < order.len()
        invariant
            n == nodes@.len(),
            av == spec_accs(nodes@),
            dv == spec_deps(nodes@),
            pv == spec_presents(nodes@),
            pp <= order@.len(),
            forall|p: int| 0 <= p < order@.len() ==> (#[trigger] order@[p]) < nodes@.len(),
            forall|x2: usize| x2 < n ==> !(#[trigger] depends_on_present(dv, pv, x2)),
            forall|pp2: int, xp2: int|
                #![trigger order@[pp2], order@[xp2]]
                0 <= pp2 < pp && pp2 < xp2 < order@.len() ==> !(pv[order@[pp2] as int] matches Some(
                    r,
                ) && touches(av, order@[xp2], r)),
        decreases order@.len() - pp,
    {
        let np: usize = order[pp];
        let pres_res: Option<usize> = match &nodes[np].kind {
            NodeSpecKind::Present { res } => Some(*res),
            NodeSpecKind::RenderPass { .. } => None,
        };
        proof {
            assert(pv[np as int] == (match nodes@[np as int].kind {
                NodeSpecKind::Present { res } => Some(res),
                NodeSpecKind::RenderPass { .. } => None::<usize>,
            }));
        }
        if let Some(res) = pres_res {
            let mut xp: usize = pp + 1;
            while xp < order.len()
                invariant
                    n == nodes@.len(),
                    av == spec_accs(nodes@),
                    pv == spec_presents(nodes@),
                    np < n,
                    pp < xp,
                    pp < order@.len(),
                    np == order@[pp as int],
                    pv[np as int] == Some(res),
                    xp <= order@.len(),
                    forall|p: int| 0 <= p < order@.len() ==> (#[trigger] order@[p]) < nodes@.len(),
                    forall|xp2: int|
                        pp < xp2 < xp ==> !touches(av, (#[trigger] order@[xp2]), res),
                decreases order@.len() - xp,
            {
                let xn: usize = order[xp];
                let mut j: usize = 0;
                while j < nodes[xn].accesses.len()
                    invariant
                        n == nodes@.len(),
                        av == spec_accs(nodes@),
                        pv == spec_presents(nodes@),
                        np < n,
                        xn < n,
                        xn == order@[xp as int],
                        pp < xp < order@.len(),
                        pv[np as int] == Some(res),
                        np == order@[pp as int],
                        j <= nodes@[xn as int].accesses@.len(),
                        forall|j2: int|
                            0 <= j2 < j ==> (#[trigger] av[xn as int][j2]).res != res,
                    decreases nodes@[xn as int].accesses@.len() - j,
                {
                    let a: Access = nodes[xn].accesses[j];
                    proof {
                        assert(av[xn as int] == nodes@[xn as int].accesses@);
                    }
                    if a.res == res {
                        proof {
                            assert(av[xn as int][j as int].res == res);
                            assert(touches(av, xn, res));
                            assert(touch_after_present(av, pv, order@, xn));
                        }
                        return Err(RenderError::GraphValidation { node: xn });
                    }
                    j = j + 1;
                }
                proof {
                    assert(av[xn as int] == nodes@[xn as int].accesses@);
                    if touches(av, order@[xp as int], res) {
                        let j2 = choose|j2: int|
                            0 <= j2 < av[xn as int].len() && (#[trigger] av[xn as int][j2]).res
                                == res;
                        assert(av[xn as int][j2].res != res);
                    }
                }
                xp = xp + 1;
            }
        }
        proof {
            assert forall|pp2: int, xp2: int|
                #![trigger order@[pp2], order@[xp2]]
                0 <= pp2 < pp + 1 && pp2 < xp2 < order@.len() implies !(pv[order@[pp2] as int]
                matches Some(r) && touches(av, order@[xp2], r)) by {
                if pp2 == pp {
                    match pres_res {
                        Some(res2) => {
                            assert(pv[order@[pp2] as int] == Some(res2));
                            assert(!touches(av, order@[xp2], res2));
                        },
                        None => {
                            assert(pv[order@[pp2] as int] is None);
                        },
                    }
                }
            }
        }
        pp = pp + 1;
    }

    proof {
        assert forall|x2: usize| !(#[trigger] spec_violates(av, dv, pv, order@, x2)) by {
            if spec_violates(av, dv, pv, order@, x2) {
                if depends_on_present(dv, pv, x2) {
                    assert(!depends_on_present(dv, pv, x2));
                } else {
                    assert(touch_after_present(av, pv, order@, x2));
                    let (pp2, xp2) = choose|pp2: int, xp2: int|
                        #![trigger order@[pp2], order@[xp2]]
                        {
                            &&& 0 <= pp2 < xp2 < order@.len()
                            &&& order@[xp2] == x2
                            &&& (pv[order@[pp2] as int] matches Some(r) && touches(av, x2, r))
                        };
                    assert(!(pv[order@[pp2] as int] matches Some(r) && touches(
                        av,
                        order@[xp2],
                        r,
                    )));
                }
            }
        }
    }
    Ok(())
}

/// Execution orders consistent with the edge relation itself.
pub open spec fn order_respects_rel(
    accs: Seq<Seq<Access>>,
    deps: Seq<Seq<usize>>,
    order: Seq<usize>,
) -> bool {
    forall|e: (usize, usize), i: int, j: int|
        #![trigger spec_is_edge(accs, deps, e), order[i], order[j]]
        spec_is_edge(accs, deps, e) && 0 <= i < order.len() && 0 <= j < order.len() && order[i]
            == e.0 && order[j] == e.1 ==> i < j
}

/// A permutation of the nodes `0..n`.
pub open spec fn complete_order(n: nat, order: Seq<usize>) -> bool {
    &&& order.len() == n
    &&& (forall|i: int| 0 <= i < order.len() ==> (#[trigger] order[i]) < n)
    &&& order.no_duplicates()
}

/// The node dependencies form a directed acyclic graph.
pub open spec fn rel_schedulable(accs: Seq<Seq<Access>>, deps: Seq<Seq<usize>>) -> bool {
    exists|order: Seq<usize>|
        complete_order(accs.len(), order) && #[trigger] order_respects_rel(accs, deps, order)
}

/// A sound and complete edge list decides the same orders as the relation.
proof fn lemma_edges_iff(
    accs: Seq<Seq<Access>>,
    deps: Seq<Seq<usize>>,
    edges: Seq<(usize, usize)>,
    order: Seq<usize>,
)
    requires
        forall|k: int| 0 <= k < edges.len() ==> spec_is_edge(accs, deps, #[trigger] edges[k]),
        forall|e: (usize, usize)| spec_is_edge(accs, deps, e) ==> #[trigger] edges.contains(e),
    ensures
        crate::schedule::respects_edges(edges, order) <==> order_respects_rel(accs, deps, order),
{
    if crate::schedule::respects_edges(edges, order) {
        assert forall|e: (usize, usize), i: int, j: int|
            #![trigger spec_is_edge(accs, deps, e), order[i], order[j]]
            spec_is_edge(accs, deps, e) && 0 <= i < order.len() && 0 <= j < order.len()
                && order[i] == e.0 && order[j] == e.1 implies i < j by {
            assert(edges.contains(e));
            let k = choose|k: int| 0 <= k < edges.len() && edges[k] == e;
            assert(edges[k] == e && order[i] == edges[k].0 && order[j] == edges[k].1);
        }
    }
    if order_respects_rel(accs, deps, order) {
        assert forall|k: int, i: int, j: int|
            #![trigger edges[k], order[i], order[j]]
            0 <= k < edges.len() && 0 <= i < order.len() && 0 <= j < order.len() && order[i]
                == edges[k].0 && order[j] == edges[k].1 implies i < j by {
            assert(spec_is_edge(accs, deps, edges[k]));
        }
    }
}

/// A sound and complete edge list is schedulable exactly when the relation is.
proof fn lemma_schedulable_iff(
    accs: Seq<Seq<Access>>,
    deps: Seq<Seq<usize>>,
    edges: Seq<(usize, usize)>,
)
    requires
        forall|k: int| 0 <= k < edges.len() ==> spec_is_edge(accs, deps, #[trigger] edges[k]),
        forall|e: (usize, usize)| spec_is_edge(accs, deps, e) ==> #[trigger] edges.contains(e),
    ensures
        schedulable(accs.len(), edges) <==> rel_schedulable(accs, deps),
{
    if schedulable(accs.len(), edges) {
        let order = choose|order: Seq<usize>| valid_order(accs.len(), edges, order);
        lemma_edges_iff(accs, deps, edges, order);
        assert(complete_order(accs.len(), order) && order_respects_rel(accs, deps, order));
    }
    if rel_schedulable(accs, deps) {
        let order = choose|order: Seq<usize>|
            complete_order(accs.len(), order) && #[trigger] order_respects_rel(
                accs,
                deps,
                order,
            );
        lemma_edges_iff(accs, deps, edges, order);
        assert(valid_order(accs.len(), edges, order));
    }
}

/// Device bytes of the declared attachments.
pub open spec fn images_total(s: Seq<ImageDecl>) -> int
    decreases s.len(),
{
    if s.len() == 0 {
        0
    } else {
        images_total(s.drop_last()) + s.last().spec_bytes()
    }
}

/// Device bytes one declared node allocates at build time.
pub open spec fn spec_node_bytes(n: NodeSpec) -> int {
    match n.kind {
        NodeSpecKind::RenderPass { desc, .. } => desc.spec_build_bytes(),
        NodeSpecKind::Present { .. } => 0,
    }
}

/// Device bytes the declared pipelines allocate at build time.
pub open spec fn nodes_build_total(s: Seq<NodeSpec>) -> int
    decreases s.len(),
{
    if s.len() == 0 {
        0
    } else {
        nodes_build_total(s.drop_last()) + spec_node_bytes(s.last())
    }
}

/// Device bytes graph compilation allocates in all: the attachments plus
/// every pipeline's build-time resources.
pub open spec fn total_build_bytes(images: Seq<ImageDecl>, nodes: Seq<NodeSpec>) -> int {
    images_total(images) + nodes_build_total(nodes)
}

proof fn lemma_image_nonneg(d: ImageDecl)
    ensures
        d.spec_bytes() >= 0,
{
    assert(d.width as int * d.height as int * 4 >= 0) by (nonlinear_arith);
}

proof fn lemma_kind_bytes_nonneg(k: ResourceKind)
    ensures
        k.spec_byte_size() >= 0,
{
    match k {
        ResourceKind::Buffer { size } => {},
        ResourceKind::Image { width, height } => {
            assert(width as int * height as int * 4 >= 0) by (nonlinear_arith);
        },
    }
}

proof fn lemma_node_bytes_nonneg(n: NodeSpec)
    ensures
        spec_node_bytes(n) >= 0,
{
    match n.kind {
        NodeSpecKind::RenderPass { desc, .. } => {
            match desc.kind {
                crate::pipeline::PipelineKind::Flat => {},
                crate::pipeline::PipelineKind::Textured => {
                    match desc.texture {
                        Some(t) => {
                            assert(t.width as int * t.height as int * 4 >= 0) by (nonlinear_arith);
                        },
                        None => {},
                    }
                    assert(desc.vertex_data@.len() * 16 >= 0) by (nonlinear_arith);
                },
            }
        },
        NodeSpecKind::Present { .. } => {},
    }
}

proof fn lemma_images_total_nonneg(s: Seq<ImageDecl>)
    ensures
        images_total(s) >= 0,
    decreases s.len(),
{
    if s.len() > 0 {
        lemma_images_total_nonneg(s.drop_last());
        lemma_image_nonneg(s.last());
    }
}

proof fn lemma_nodes_total_nonneg(s: Seq<NodeSpec>)
    ensures
        nodes_build_total(s) >= 0,
    decreases s.len(),
{
    if s.len() > 0 {
        lemma_nodes_total_nonneg(s.drop_last());
        lemma_node_bytes_nonneg(s.last());
    }
}

proof fn lemma_images_prefix(s: Seq<ImageDecl>, i: int)
    requires
        0 <= i < s.len(),
    ensures
        images_total(s.take(i)) + s[i].spec_bytes() <= images_total(s),
    decreases s.len(),
{
    if i == s.len() - 1 {
        assert(s.take(i) =~= s.drop_last());
    } else {
        lemma_images_prefix(s.drop_last(), i);
        assert(s.drop_last().take(i) =~= s.take(i));
        assert(s.drop_last()[i] == s[i]);
        lemma_image_nonneg(s.last());
    }
}

proof fn lemma_nodes_prefix(s: Seq<NodeSpec>, i: int)
    requires
        0 <= i < s.len(),
    ensures
        nodes_build_total(s.take(i)) + spec_node_bytes(s[i]) <= nodes_build_total(s),
    decreases s.len(),
{
    if i == s.len() - 1 {
        assert(s.take(i) =~= s.drop_last());
    } else {
        lemma_nodes_prefix(s.drop_last(), i);
        assert(s.drop_last().take(i) =~= s.take(i));
        assert(s.drop_last()[i] == s[i]);
        lemma_node_bytes_nonneg(s.last());
    }
}

/// Device bytes a set of live resources occupies.
pub open spec fn resources_total(s: Seq<Resource>) -> int
    decreases s.len(),
{
    if s.len() == 0 {
        0
    } else {
        resources_total(s.drop_last()) + s.last().kind.spec_byte_size()
    }
}

proof fn lemma_resources_total_nonneg(s: Seq<Resource>)
    ensures
        resources_total(s) >= 0,
    decreases s.len(),
{
    if s.len() > 0 {
        lemma_resources_total_nonneg(s.drop_last());
        lemma_kind_bytes_nonneg(s.last().kind);
    }
}

/// Device bytes a set of pipeline instances owns.
pub open spec fn pipelines_owned_total(s: Seq<PipelineInstance>) -> int
    decreases s.len(),
{
    if s.len() == 0 {
        0
    } else {
        pipelines_owned_total(s.drop_last()) + s.last().spec_owned_bytes()
    }
}

proof fn lemma_owned_nonneg(p: PipelineInstance)
    ensures
        p.spec_owned_bytes() >= 0,
{
    match p.vertex {
        Some(b) => lemma_kind_bytes_nonneg(b.kind),
        None => {},
    }
    match p.uniform {
        Some(b) => lemma_kind_bytes_nonneg(b.kind),
        None => {},
    }
    match p.texture {
        Some(b) => lemma_kind_bytes_nonneg(b.kind),
        None => {},
    }
}

proof fn lemma_pipelines_owned_nonneg(s: Seq<PipelineInstance>)
    ensures
        pipelines_owned_total(s) >= 0,
    decreases s.len(),
{
    if s.len() > 0 {
        lemma_pipelines_owned_nonneg(s.drop_last());
        lemma_owned_nonneg(s.last());
    }
}

/// Releases a set of allocated resources, restoring the device budget.
fn dispose_resources(rs: Vec<Resource>, device: &mut Device)
    requires
        forall|j: int| 0 <= j < rs@.len() ==> (#[trigger] rs@[j]).kind.size_representable(),
        old(device).wf(),
        old(device).used >= resources_total(rs@),
    ensures
        final(device).wf(),
        final(device).capacity == old(device).capacity,
        final(device).used == old(device).used - resources_total(rs@),
{
    let ghost entry_total = resources_total(rs@);
    let mut rs: Vec<Resource> = rs;
    while 0 < rs.len()
        invariant
            forall|j: int| 0 <= j < rs@.len() ==> (#[trigger] rs@[j]).kind.size_representable(),
            device.wf(),
            device.capacity == old(device).capacity,
            device.used == old(device).used - entry_total + resources_total(rs@),
            device.used >= resources_total(rs@),
        decreases rs@.len(),
    {
        let popped: Option<Resource> = rs.pop();
        match popped {
            Some(r) => {
                proof {
                    lemma_resources_total_nonneg(rs@);
                    lemma_kind_bytes_nonneg(r.kind);
                }
                r.dispose(device);
            },
            None => {
                return unreached();
            },
        }
    }
    proof {
        assert(resources_total(rs@) == 0);
    }
}

/// Releases a set of built pipelines, restoring the device budget.
fn dispose_pipelines(pls: Vec<PipelineInstance>, device: &mut Device)
    requires
        forall|j: int| 0 <= j < pls@.len() ==> (#[trigger] pls@[j]).wf(),
        old(device).wf(),
        old(device).used >= pipelines_owned_total(pls@),
    ensures
        final(device).wf(),
        final(device).capacity == old(device).capacity,
        final(device).used == old(device).used - pipelines_owned_total(pls@),
{
    let ghost entry_total = pipelines_owned_total(pls@);
    let mut pls: Vec<PipelineInstance> = pls;
    while 0 < pls.len()
        invariant
            forall|j: int| 0 <= j < pls@.len() ==> (#[trigger] pls@[j]).wf(),
            device.wf(),
            device.capacity == old(device).capacity,
            device.used == old(device).used - entry_total + pipelines_owned_total(pls@),
            device.used >= pipelines_owned_total(pls@),
        decreases pls@.len(),
    {
        let popped: Option<PipelineInstance> = pls.pop();
        match popped {
            Some(p) => {
                proof {
                    lemma_pipelines_owned_nonneg(pls@);
                    lemma_owned_nonneg(p);
                }
                p.dispose(device);
            },
            None => {
                return unreached();
            },
        }
    }
    proof {
        assert(pipelines_owned_total(pls@) == 0);
    }
}


/// The compiled form of a node: accesses and dependencies as declared, and
/// either the index of its pipeline instance or the resource it presents.
#[derive(Clone, Copy, Debug, PartialEq, Eq, Structural)]
pub enum NodeKind {
    RenderPass { pipeline: usize },
    Present { res: usize },
}

#[derive(Debug)]
pub struct Node {
    pub accesses: Vec<Access>,
    pub deps: Vec<usize>,
    pub kind: NodeKind,
}

pub open spec fn node_accs(nodes: Seq<Node>) -> Seq<Seq<Access>> {
    nodes.map_values(|n: Node| n.accesses@)
}

pub open spec fn node_deps(nodes: Seq<Node>) -> Seq<Seq<usize>> {
    nodes.map_values(|n: Node| n.deps@)
}

pub open spec fn node_pres(nodes: Seq<Node>) -> Seq<Option<usize>> {
    nodes.map_values(
        |n: Node|
            match n.kind {
                NodeKind::Present { res } => Some(res),
                NodeKind::RenderPass { .. } => None::<usize>,
            },
    )
}

/// The pipeline index a compiled node drives, if it is a render pass.
pub open spec fn node_pipe(n: Node) -> Option<usize> {
    match n.kind {
        NodeKind::RenderPass { pipeline } => Some(pipeline),
        NodeKind::Present { .. } => None,
    }
}

/// A compiled node carries its declaration's accesses and dependencies, and
/// its pipeline instance was built from its declaration's descriptor.
pub open spec fn compiled_matches(nd: Node, sp: NodeSpec, pls: Seq<PipelineInstance>) -> bool {
    &&& nd.accesses@ == sp.accesses@
    &&& nd.deps@ == sp.deps@
    &&& match sp.kind {
        NodeSpecKind::RenderPass { desc, .. } => {
            &&& (nd.kind matches NodeKind::RenderPass { pipeline } && pipeline < pls.len()
                && pls[pipeline as int].wf()
                && pls[pipeline as int].kind == desc.kind
                && pls[pipeline as int].vertex_data@ == desc.vertex_data@
                && pls[pipeline as int].last_aux is None)
        },
        NodeSpecKind::Present { res } => nd.kind == (NodeKind::Present { res }),
    }
}

/// The shader set a declared render pass carries matches the reflected
/// interface its pipeline declares.
pub open spec fn spec_iface_ok(sp: NodeSpec) -> bool {
    match sp.kind {
        NodeSpecKind::RenderPass { desc, shaders } => {
            &&& shaders.attribute_sizes@ == crate::pipeline::spec_attr_sizes(desc.kind)
            &&& shaders.bindings@ == crate::pipeline::spec_set_layout(desc.kind)
        },
        NodeSpecKind::Present { .. } => true,
    }
}

/// Any decoded image a declared render pass carries can become a texture.
pub open spec fn spec_tex_ok(sp: NodeSpec) -> bool {
    match sp.kind {
        NodeSpecKind::RenderPass { desc, .. } => match desc.texture {
            Some(t) => t.usable(),
            None => true,
        },
        NodeSpecKind::Present { .. } => true,
    }
}

/// The compiled artifact: the attachment arena, the nodes in declaration
/// order, their pipeline instances, the execution order, and the transition
/// plan. Fixed once compiled; only per-frame state varies between runs.
#[derive(Debug)]
pub struct Graph {
    pub images: Vec<Resource>,
    pub nodes: Vec<Node>,
    pub pipelines: Vec<PipelineInstance>,
    pub order: Vec<usize>,
    pub transitions: Vec<Transition>,
    pub in_flight: bool,
}

impl Graph {
    pub open spec fn wf(self) -> bool {
        let n = self.nodes@.len();
        let n_res = self.images@.len();
        &&& complete_order(n, self.order@)
        &&& order_respects_rel(node_accs(self.nodes@), node_deps(self.nodes@), self.order@)
        &&& na_wf(node_accs(self.nodes@), n_res)
        &&& (forall|i: int|
            0 <= i < n ==> match (#[trigger] self.nodes@[i]).kind {
                NodeKind::RenderPass { pipeline } => pipeline < self.pipelines@.len()
                    && self.pipelines@[pipeline as int].wf(),
                NodeKind::Present { res } => res < n_res,
            })
        &&& (forall|q: int|
            0 <= q < self.pipelines@.len() ==> (#[trigger] self.pipelines@[q]).wf())
        &&& (forall|i: int, j: int|
            0 <= i < j < n && node_pipe(#[trigger] self.nodes@[i]) is Some ==> node_pipe(
                self.nodes@[i],
            ) != node_pipe(#[trigger] self.nodes@[j]))
        &&& (forall|r: int|
            0 <= r < n_res ==> (#[trigger] self.images@[r]).wf() && self.images@[r].kind
                is Image)
        &&& self.transitions@ == planned_transitions(node_accs(self.nodes@), self.order@, n_res)
        &&& presentation_ok(
            node_accs(self.nodes@),
            node_deps(self.nodes@),
            node_pres(self.nodes@),
            self.order@,
        )
    }
}

/// Validation step of the compiler, as a proved fact rather than a runtime
/// check: the resource a present node consumes ends the schedule in the
/// presentation-source layout, because the present node declares that state
/// and nothing touches the resource afterwards.
pub proof fn lemma_present_terminal(
    accs: Seq<Seq<Access>>,
    deps: Seq<Seq<usize>>,
    pres: Seq<Option<usize>>,
    order: Seq<usize>,
    n_res: nat,
    i: usize,
    r: usize,
)
    requires
        accs.len() <= usize::MAX,
        na_wf(accs, n_res),
        complete_order(accs.len(), order),
        presentation_ok(accs, deps, pres, order),
        (i as int) < accs.len(),
        pres[i as int] == Some(r),
        accs[i as int].len() == 1,
        accs[i as int][0] == (Access {
            res: r,
            write: false,
            stage: AccessStage::Present,
            layout: ImageLayout::PresentSrc,
        }),
        (r as nat) < n_res,
    ensures
        states_after(accs, order, n_res, order.len() as int)[r as int] == Some(ResourceState {
            stage: AccessStage::Present,
            layout: ImageLayout::PresentSrc,
        }),
{
    crate::schedule::lemma_complete_order_onto(order, accs.len());
    assert(order.contains(i));
    let pp = order.index_of(i);
    assert(0 <= pp < order.len() && order[pp] == i);
    lemma_transition_correctness(accs, order, n_res, pp, 0);
    assert(states_after(accs, order, n_res, pp + 1)[r as int] == Some(ResourceState {
        stage: AccessStage::Present,
        layout: ImageLayout::PresentSrc,
    }));
    assert forall|p2: int, j: int|
        pp + 1 <= p2 < order.len() && 0 <= j < accs[order[p2] as int].len() implies (#[trigger]
    accs[order[p2] as int][j]).res != r by {
        if accs[order[p2] as int][j].res == r {
            let x = order[p2];
            assert(touches(accs, x, r));
            assert(pres[order[pp] as int] == Some(r));
            assert(touch_after_present(accs, pres, order, x));
            assert(spec_violates(accs, deps, pres, order, x));
        }
    }
    lemma_states_untouched_after(accs, order, n_res, pp + 1, r as int);
}

/// A deep copy of the per-node access lists, for the transition planner.
fn copy_accesses(nodes: &Vec<NodeSpec>) -> (r: Vec<Vec<Access>>)
    ensures
        access_views(r@) == spec_accs(nodes@),
{
    let mut r: Vec<Vec<Access>> = Vec::new();
    let mut i: usize = 0;
    while i < nodes.len()
        invariant
            i <= nodes@.len(),
            r@.len() == i,
            forall|i2: int| 0 <= i2 < i ==> (#[trigger] r@[i2])@ == nodes@[i2].accesses@,
        decreases nodes@.len() - i,
    {
        let mut one: Vec<Access> = Vec::new();
        let mut j: usize = 0;
        while j < nodes[i].accesses.len()
            invariant
                i < nodes@.len(),
                j <= nodes@[i as int].accesses@.len(),
                one@ == nodes@[i as int].accesses@.subrange(0, j as int),
            decreases nodes@[i as int].accesses@.len() - j,
        {
            let a: Access = nodes[i].accesses[j];
            one.push(a);
            proof {
                assert(one@ =~= nodes@[i as int].accesses@.subrange(0, j + 1));
            }
            j = j + 1;
        }
        proof {
            assert(one@ =~= nodes@[i as int].accesses@);
        }
        r.push(one);
        i = i + 1;
    }
    proof {
        assert(access_views(r@) =~= spec_accs(nodes@));
    }
    r
}

/// Creates every declared attachment, or restores the device and reports
/// the allocation failure.
fn create_images(decls: &Vec<ImageDecl>, device: &mut Device) -> (r: Result<
    Vec<Resource>,
    RenderError,
>)
    requires
        forall|i: int| 0 <= i < decls@.len() ==> (#[trigger] decls@[i]).spec_bytes() <= u64::MAX,
        old(device).wf(),
    ensures
        final(device).wf(),
        final(device).capacity == old(device).capacity,
        match r {
            Ok(images) => {
                &&& images@.len() == decls@.len()
                &&& resources_total(images@) == images_total(decls@)
                &&& final(device).used == old(device).used + images_total(decls@)
                &&& (forall|j: int|
                    0 <= j < images@.len() ==> {
                        &&& (#[trigger] images@[j]).kind == (ResourceKind::Image {
                            width: decls@[j].width,
                            height: decls@[j].height,
                        })
                        &&& images@[j].wf()
                        &&& images@[j].state is None
                        &&& images@[j].usage.color_attachment
                        &&& images@[j].clear == decls@[j].clear
                    })
            },
            Err(e) => {
                &&& e matches RenderError::Allocation { .. }
                &&& images_total(decls@) > old(device).spec_available()
                &&& *final(device) == *old(device)
            },
        },
{
    let mut images: Vec<Resource> = Vec::new();
    let mut i: usize = 0;
    while i < decls.len()
        invariant
            forall|i2: int|
                0 <= i2 < decls@.len() ==> (#[trigger] decls@[i2]).spec_bytes() <= u64::MAX,
            i <= decls@.len(),
            images@.len() == i,
            device.wf(),
            device.capacity == old(device).capacity,
            device.used == old(device).used + images_total(decls@.take(i as int)),
            resources_total(images@) == images_total(decls@.take(i as int)),
            forall|j: int|
                0 <= j < i ==> {
                    &&& (#[trigger] images@[j]).kind == (ResourceKind::Image {
                        width: decls@[j].width,
                        height: decls@[j].height,
                    })
                    &&& images@[j].wf()
                    &&& images@[j].state is None
                    &&& images@[j].usage.color_attachment
                    &&& images@[j].clear == decls@[j].clear
                },
        decreases decls@.len() - i,
    {
        let d: ImageDecl = decls[i];
        let usage = UsageFlags {
            vertex: false,
            uniform: false,
            sampled: false,
            color_attachment: true,
        };
        let ghost pre_images = images@;
        let created = Resource::create(
            ResourceKind::Image { width: d.width, height: d.height },
            usage,
            MemoryPolicy::DeviceLocal,
            d.clear,
            device,
        );
        match created {
            Ok(res) => {
                images.push(res);
                proof {
                    assert(decls@.take(i + 1).drop_last() =~= decls@.take(i as int));
                    assert(decls@.take(i + 1).last() == decls@[i as int]);
                    assert(images@.drop_last() =~= pre_images);
                }
                i = i + 1;
            },
            Err(e) => {
                proof {
                    lemma_images_prefix(decls@, i as int);
                }
                dispose_resources(images, device);
                return Err(e);
            },
        }
    }
    proof {
        assert(decls@.take(decls@.len() as int) =~= decls@);
    }
    Ok(images)
}


impl GraphBuilder {
    /// Compiles the description: derives the dependency edges, topologically
    /// sorts the nodes (declaration order breaking ties), checks the
    /// presentation rules, plans the resource-state transitions, creates the
    /// attachment images, and builds every pipeline instance.
    ///
    /// A cyclic dependency set fails with the cyclic-graph error and builds
    /// nothing. A schedule that lets anything depend on a present node, or
    /// touch a presented resource afterwards, fails validation. A shader or
    /// texture mismatch, or a description that outgrows the device budget,
    /// fails with the matching error; every failure leaves the device as it
    /// was.
    pub fn build(self, device: &mut Device) -> (r: Result<Graph, RenderError>)
        requires
            self.wf(),
            old(device).wf(),
        ensures
            final(device).wf(),
            final(device).capacity == old(device).capacity,
            match r {
                Ok(g) => {
                    &&& g.wf()
                    &&& !g.in_flight
                    &&& final(device).used == old(device).used + total_build_bytes(
                        self.images@,
                        self.nodes@,
                    )
                    &&& total_build_bytes(self.images@, self.nodes@) <= old(
                        device,
                    ).spec_available()
                    &&& g.images@.len() == self.images@.len()
                    &&& g.nodes@.len() == self.nodes@.len()
                    &&& g.pipelines@.len() <= self.nodes@.len()
                    &&& node_accs(g.nodes@) == spec_accs(self.nodes@)
                    &&& node_deps(g.nodes@) == spec_deps(self.nodes@)
                    &&& node_pres(g.nodes@) == spec_presents(self.nodes@)
                    &&& (forall|i: int|
                        0 <= i < g.nodes@.len() ==> compiled_matches(
                            #[trigger] g.nodes@[i],
                            self.nodes@[i],
                            g.pipelines@,
                        ))
                    &&& (forall|i: int|
                        0 <= i < g.images@.len() ==> (#[trigger] g.images@[i]).kind
                            == (ResourceKind::Image {
                            width: self.images@[i].width,
                            height: self.images@[i].height,
                        }) && g.images@[i].clear == self.images@[i].clear && g.images@[i].state
                            is None)
                    &&& (forall|i: int|
                        0 <= i < g.nodes@.len() ==> (match (#[trigger] spec_presents(
                            self.nodes@,
                        )[i]) {
                            Some(pr) => states_after(
                                spec_accs(self.nodes@),
                                g.order@,
                                self.images@.len() as nat,
                                g.order@.len() as int,
                            )[pr as int] == Some(ResourceState {
                                stage: AccessStage::Present,
                                layout: ImageLayout::PresentSrc,
                            }),
                            None => true,
                        }))
                },
                Err(RenderError::CyclicGraph { node }) => {
                    &&& !rel_schedulable(spec_accs(self.nodes@), spec_deps(self.nodes@))
                    &&& node < self.nodes@.len()
                    &&& *final(device) == *old(device)
                },
                Err(RenderError::GraphValidation { node }) => {
                    &&& (exists|ord: Seq<usize>|
                        complete_order(self.nodes@.len(), ord) && #[trigger] order_respects_rel(
                            spec_accs(self.nodes@),
                            spec_deps(self.nodes@),
                            ord,
                        ) && spec_violates(
                            spec_accs(self.nodes@),
                            spec_deps(self.nodes@),
                            spec_presents(self.nodes@),
                            ord,
                            node,
                        ))
                    &&& *final(device) == *old(device)
                },
                Err(RenderError::PipelineBuild) => {
                    &&& (exists|i: int|
                        0 <= i < self.nodes@.len() && !spec_iface_ok(#[trigger] self.nodes@[i]))
                    &&& *final(device) == *old(device)
                },
                Err(RenderError::TextureBuild) => {
                    &&& (exists|i: int|
                        0 <= i < self.nodes@.len() && !spec_tex_ok(#[trigger] self.nodes@[i]))
                    &&& *final(device) == *old(device)
                },
                Err(RenderError::Allocation { .. }) => {
                    &&& total_build_bytes(self.images@, self.nodes@) > old(
                        device,
                    ).spec_available()
                    &&& *final(device) == *old(device)
                },
                _ => false,
            },
            (rel_schedulable(spec_accs(self.nodes@), spec_deps(self.nodes@)) && (forall|i: int|
                0 <= i < self.nodes@.len() ==> spec_iface_ok(#[trigger] self.nodes@[i])
                    && spec_tex_ok(self.nodes@[i])) && (forall|ord: Seq<usize>, x: usize|
                complete_order(self.nodes@.len(), ord) && #[trigger] order_respects_rel(
                    spec_accs(self.nodes@),
                    spec_deps(self.nodes@),
                    ord,
                ) ==> !(#[trigger] spec_violates(
                    spec_accs(self.nodes@),
                    spec_deps(self.nodes@),
                    spec_presents(self.nodes@),
                    ord,
                    x,
                ))) && total_build_bytes(self.images@, self.nodes@) <= old(
                device,
            ).spec_available()) ==> r is Ok,
    {
        let ghost bspec = self;
        let n: usize = self.nodes.len();

        let mut i: usize = 0;
        while i < n
            invariant
                n == self.nodes@.len(),
                self == bspec,
                i <= n,
                device.wf(),
                *device == *old(device),
                forall|i2: int|
                    0 <= i2 < i ==> spec_iface_ok(#[trigger] self.nodes@[i2]) && spec_tex_ok(
                        self.nodes@[i2],
                    ),
            decreases n - i,
        {
            match &self.nodes[i].kind {
                NodeSpecKind::RenderPass { desc, shaders } => {
                    if !desc.interface_matches(shaders) {
                        proof {
                            assert(!spec_iface_ok(self.nodes@[i as int]));
                        }
                        return Err(RenderError::PipelineBuild);
                    }
                    let tex_ok: bool = match &desc.texture {
                        Some(t) => t.check_usable(),
                        None => true,
                    };
                    if !tex_ok {
                        proof {
                            assert(!spec_tex_ok(self.nodes@[i as int]));
                        }
                        return Err(RenderError::TextureBuild);
                    }
                },
                NodeSpecKind::Present { .. } => {},
            }
            i = i + 1;
        }

        proof {
            assert forall|b: int, d: int|
                0 <= b < self.nodes@.len() && 0 <= d < self.nodes@[b].deps@.len() implies (
            #[trigger] self.nodes@[b].deps@[d]) < self.nodes@.len() by {
                assert(node_spec_wf(
                    self.nodes@[b],
                    self.images@.len() as nat,
                    self.nodes@.len() as nat,
                ));
            }
        }
        let edges: Vec<(usize, usize)> = collect_edges(&self.nodes);
        let order: Vec<usize> = match schedule(n, &edges) {
            Ok(o) => o,
            Err(e) => {
                proof {
                    lemma_schedulable_iff(spec_accs(self.nodes@), spec_deps(self.nodes@), edges@);
                }
                return Err(e);
            },
        };
        proof {
            lemma_edges_iff(spec_accs(self.nodes@), spec_deps(self.nodes@), edges@, order@);
        }

        match validate(&self.nodes, &order) {
            Ok(()) => (),
            Err(e) => {
                proof {
                    assert(complete_order(self.nodes@.len(), order@) && order_respects_rel(
                        spec_accs(self.nodes@),
                        spec_deps(self.nodes@),
                        order@,
                    ));
                }
                return Err(e);
            },
        }

        let accs_list: Vec<Vec<Access>> = copy_accesses(&self.nodes);
        proof {
            assert forall|i2: int|
                0 <= i2 < access_views(accs_list@).len() implies accesses_wf(
                #[trigger] access_views(accs_list@)[i2],
                self.images@.len() as nat,
            ) by {
                assert(node_spec_wf(
                    self.nodes@[i2],
                    self.images@.len() as nat,
                    self.nodes@.len() as nat,
                ));
                assert(access_views(accs_list@)[i2] == spec_accs(self.nodes@)[i2]);
            }
        }
        proof {
            assert(access_views(accs_list@).len() == accs_list@.len());
            assert(spec_accs(self.nodes@).len() == self.nodes@.len());
            assert(accs_list@.len() == self.nodes@.len());
            assert forall|p2: int| 0 <= p2 < order@.len() implies (#[trigger] order@[p2])
                < accs_list@.len() by {
                assert(valid_order(n as nat, edges@, order@));
            }
        }
        let planned = plan(&accs_list, &order, self.images.len());
        let transitions: Vec<Transition> = planned.0;

        let GraphBuilder { images: decls, nodes: specs } = self;
        let mut specs: Vec<NodeSpec> = specs;
        let images: Vec<Resource> = match create_images(&decls, device) {
            Ok(ims) => ims,
            Err(e) => {
                proof {
                    lemma_nodes_total_nonneg(specs@);
                }
                return Err(e);
            },
        };

        let ghost orig = bspec.nodes@;
        let mut nodes: Vec<Node> = Vec::new();
        let mut pipelines: Vec<PipelineInstance> = Vec::new();
        let mut i: usize = 0;
        #[verifier::loop_isolation(false)]
        while i < n
            invariant
                orig == bspec.nodes@,
                n == orig.len(),
                i <= n,
                specs@ == orig.subrange(i as int, n as int),
                nodes@.len() == i,
                pipelines@.len() <= i,
                device.wf(),
                device.capacity == old(device).capacity,
                device.used == old(device).used + images_total(bspec.images@) + nodes_build_total(
                    orig.take(i as int),
                ),
                pipelines_owned_total(pipelines@) == nodes_build_total(orig.take(i as int)),
                forall|q: int| 0 <= q < pipelines@.len() ==> (#[trigger] pipelines@[q]).wf(),
                forall|i2: int|
                    0 <= i2 < i ==> compiled_matches(#[trigger] nodes@[i2], orig[i2], pipelines@),
                forall|i2: int|
                    0 <= i2 < i ==> (node_pipe(#[trigger] nodes@[i2]) matches Some(q) ==> q
                        < pipelines@.len()),
                forall|i2: int, j2: int|
                    0 <= i2 < j2 < i && node_pipe(#[trigger] nodes@[i2]) is Some ==> node_pipe(
                        nodes@[i2],
                    ) != node_pipe(#[trigger] nodes@[j2]),
                forall|i2: int|
                    0 <= i2 < orig.len() ==> spec_iface_ok(#[trigger] orig[i2]) && spec_tex_ok(
                        orig[i2],
                    ),
                forall|i2: int|
                    0 <= i2 < orig.len() ==> node_spec_wf(
                        #[trigger] orig[i2],
                        bspec.images@.len() as nat,
                        orig.len() as nat,
                    ),
                forall|j: int|
                    0 <= j < images@.len() ==> (#[trigger] images@[j]).wf() && images@[j].kind
                        is Image && images@[j].state is None,
                images@.len() == bspec.images@.len(),
                resources_total(images@) == images_total(bspec.images@),
                forall|j: int| 0 <= j < images@.len() ==> (#[trigger] images@[j]).kind
                    == (ResourceKind::Image {
                    width: bspec.images@[j].width,
                    height: bspec.images@[j].height,
                }) && images@[j].clear == bspec.images@[j].clear,
            decreases n - i,
        {
            let sp: NodeSpec = specs.remove(0);
            proof {
                assert(sp == orig[i as int]);
                assert(specs@ =~= orig.subrange(i + 1, n as int));
                assert(orig.take(i + 1).drop_last() =~= orig.take(i as int));
                assert(orig.take(i + 1).last() == orig[i as int]);
            }
            let ghost pre_nodes = nodes@;
            let ghost pre_pls = pipelines@;
            match sp.kind {
                NodeSpecKind::RenderPass { desc, shaders } => {
                    let q: usize = pipelines.len();
                    let ghost dsnap = desc;
                    proof {
                        assert(node_spec_wf(
                            orig[i as int],
                            bspec.images@.len() as nat,
                            orig.len() as nat,
                        ));
                        assert(spec_iface_ok(orig[i as int]));
                        assert(spec_tex_ok(orig[i as int]));
                        assert(spec_node_bytes(orig[i as int]) == dsnap.spec_build_bytes());
                    }
                    match desc.build(&shaders, device) {
                        Ok(pl) => {
                            pipelines.push(pl);
                            nodes.push(Node {
                                accesses: sp.accesses,
                                deps: sp.deps,
                                kind: NodeKind::RenderPass { pipeline: q },
                            });
                            proof {
                                assert(pipelines@.drop_last() =~= pre_pls);
                                assert forall|i2: int|
                                    0 <= i2 < i + 1 implies compiled_matches(
                                    #[trigger] nodes@[i2],
                                    orig[i2],
                                    pipelines@,
                                ) by {
                                    if i2 < i {
                                        assert(compiled_matches(
                                            pre_nodes[i2],
                                            orig[i2],
                                            pre_pls,
                                        ));
                                        assert(nodes@[i2] == pre_nodes[i2]);
                                    }
                                }
                            }
                        },
                        Err(e) => {
                            proof {
                                assert(shaders.attribute_sizes@ =~= crate::pipeline::spec_attr_sizes(
                                    dsnap.kind,
                                ));
                                assert(shaders.bindings@ =~= crate::pipeline::spec_set_layout(
                                    dsnap.kind,
                                ));
                                assert(e matches RenderError::Allocation { .. });
                                assert(dsnap.spec_build_bytes() > device.spec_available());
                                lemma_nodes_prefix(orig, i as int);
                                lemma_images_total_nonneg(bspec.images@);
                                lemma_nodes_total_nonneg(orig.take(i as int));
                                assert(device.used == old(device).used + images_total(
                                    bspec.images@,
                                ) + nodes_build_total(orig.take(i as int)));
                                assert(nodes_build_total(orig.take(i as int))
                                    + dsnap.spec_build_bytes() <= nodes_build_total(orig));
                                assert(nodes_build_total(bspec.nodes@) == nodes_build_total(orig));
                                assert(total_build_bytes(bspec.images@, bspec.nodes@) > old(
                                    device,
                                ).spec_available());
                            }
                            dispose_pipelines(pipelines, device);
                            dispose_resources(images, device);
                            proof {
                                assert(device.used == old(device).used);
                                assert(*device == *old(device));
                            }
                            return Err(e);
                        },
                    }
                },
                NodeSpecKind::Present { res } => {
                    nodes.push(Node {
                        accesses: sp.accesses,
                        deps: sp.deps,
                        kind: NodeKind::Present { res },
                    });
                    proof {
                        assert forall|i2: int|
                            0 <= i2 < i + 1 implies compiled_matches(
                            #[trigger] nodes@[i2],
                            orig[i2],
                            pipelines@,
                        ) by {
                            if i2 < i {
                                assert(compiled_matches(pre_nodes[i2], orig[i2], pipelines@));
                                assert(nodes@[i2] == pre_nodes[i2]);
                            }
                        }
                    }
                },
            }
            i = i + 1;
        }

        proof {
            assert(orig.take(n as int) =~= orig);
            assert(node_accs(nodes@) =~= spec_accs(orig));
            assert(node_deps(nodes@) =~= spec_deps(orig));
            assert(node_pres(nodes@) =~= spec_presents(orig));
        }
        let g = Graph { images, nodes, pipelines, order, transitions, in_flight: false };
        proof {
            assert forall|i2: int|
                0 <= i2 < g.nodes@.len() implies match (#[trigger] g.nodes@[i2]).kind {
                NodeKind::RenderPass { pipeline } => pipeline < g.pipelines@.len()
                    && g.pipelines@[pipeline as int].wf(),
                NodeKind::Present { res } => res < g.images@.len(),
            } by {
                assert(compiled_matches(g.nodes@[i2], orig[i2], g.pipelines@));
                assert(node_spec_wf(orig[i2], bspec.images@.len() as nat, orig.len() as nat));
            }
            assert(na_wf(node_accs(g.nodes@), g.images@.len() as nat)) by {
                assert forall|i2: int|
                    0 <= i2 < node_accs(g.nodes@).len() implies accesses_wf(
                    #[trigger] node_accs(g.nodes@)[i2],
                    g.images@.len() as nat,
                ) by {
                    assert(node_spec_wf(
                        orig[i2],
                        bspec.images@.len() as nat,
                        orig.len() as nat,
                    ));
                    assert(node_accs(g.nodes@)[i2] == spec_accs(orig)[i2]);
                }
            }
            assert(g.transitions@ == planned_transitions(
                node_accs(g.nodes@),
                g.order@,
                g.images@.len() as nat,
            ));
            assert forall|i2: int|
                0 <= i2 < g.nodes@.len() implies (match (#[trigger] spec_presents(orig)[i2]) {
                Some(pr) => states_after(
                    spec_accs(orig),
                    g.order@,
                    bspec.images@.len() as nat,
                    g.order@.len() as int,
                )[pr as int] == Some(ResourceState {
                    stage: AccessStage::Present,
                    layout: ImageLayout::PresentSrc,
                }),
                None => true,
            }) by {
                match spec_presents(orig)[i2] {
                    Some(pr) => {
                        assert(node_spec_wf(
                            orig[i2],
                            bspec.images@.len() as nat,
                            orig.len() as nat,
                        ));
                        assert(orig[i2].kind matches NodeSpecKind::Present { res } && res == pr);
                        assert(spec_accs(orig)[i2] == orig[i2].accesses@);
                        lemma_present_terminal(
                            spec_accs(orig),
                            spec_deps(orig),
                            spec_presents(orig),
                            g.order@,
                            bspec.images@.len() as nat,
                            i2 as usize,
                            pr,
                        );
                    },
                    None => {},
                }
            }
        }
        Ok(g)
    }
}


/// The tracked state of every resource in the arena.
pub open spec fn images_states(s: Seq<Resource>) -> Seq<Option<ResourceState>> {
    s.map_values(|r: Resource| r.state)
}

/// Device bytes the frame's `prepare` calls still have to allocate, for the
/// scheduled nodes from position `p` on.
pub open spec fn lazy_from(
    nodes: Seq<Node>,
    pls: Seq<PipelineInstance>,
    order: Seq<usize>,
    p: int,
) -> int
    decreases order.len() - p,
{
    if p < 0 || p >= order.len() {
        0
    } else {
        (match nodes[order[p] as int].kind {
            NodeKind::RenderPass { pipeline } => pls[pipeline as int].spec_lazy_bytes(),
            NodeKind::Present { .. } => 0,
        }) + lazy_from(nodes, pls, order, p + 1)
    }
}

/// Device bytes one `run` allocates: the not-yet-populated lazy vertex
/// buffers of its pipelines.
pub open spec fn run_lazy_bytes(g: Graph) -> int {
    lazy_from(g.nodes@, g.pipelines@, g.order@, 0)
}

proof fn lemma_lazy_nonneg(nodes: Seq<Node>, pls: Seq<PipelineInstance>, order: Seq<usize>, p: int)
    ensures
        lazy_from(nodes, pls, order, p) >= 0,
    decreases order.len() - p,
{
    if 0 <= p < order.len() {
        match nodes[order[p] as int].kind {
            NodeKind::RenderPass { pipeline } => {
                let pl = pls[pipeline as int];
                assert(pl.vertex_data@.len() * crate::pipeline::spec_stride(pl.kind) >= 0)
                    by (nonlinear_arith);
            },
            NodeKind::Present { .. } => {},
        }
        lemma_lazy_nonneg(nodes, pls, order, p + 1);
    }
}

/// Replacing a pipeline no position from `p` on refers to leaves the lazy
/// accounting of that suffix alone.
proof fn lemma_lazy_update_other(
    nodes: Seq<Node>,
    pls: Seq<PipelineInstance>,
    order: Seq<usize>,
    p: int,
    q: int,
    npl: PipelineInstance,
)
    requires
        0 <= q < pls.len(),
        forall|p2: int|
            p <= p2 < order.len() ==> (match (#[trigger] nodes[order[p2] as int]).kind {
                NodeKind::RenderPass { pipeline } => pipeline < pls.len() && pipeline != q,
                NodeKind::Present { .. } => true,
            }),
    ensures
        lazy_from(nodes, pls.update(q, npl), order, p) == lazy_from(nodes, pls, order, p),
    decreases order.len() - p,
{
    if 0 <= p < order.len() {
        lemma_lazy_update_other(nodes, pls, order, p + 1, q, npl);
    } else if p < 0 {
        lemma_lazy_update_other(nodes, pls, order, 0, q, npl);
    }
}

/// Transitions rendered as commands.
pub open spec fn trans_to_cmds(ts: Seq<Transition>) -> Seq<Command> {
    ts.map_values(|t: Transition| Command::Transition { res: t.res, from: t.from, to: t.to })
}

/// The commands a node records after its transitions: its pipeline's bind
/// and draw commands, or the present hand-over.
pub open spec fn node_tail_cmds(nd: Node, pls: Seq<PipelineInstance>) -> Seq<Command> {
    match nd.kind {
        NodeKind::RenderPass { pipeline } => pls[pipeline as int].draw_commands(),
        NodeKind::Present { res } => seq![Command::Present { res }],
    }
}

/// The full command stream one frame records, walking the schedule from
/// position `p` with the given tracked states.
pub open spec fn frame_cmds_from(
    nodes: Seq<Node>,
    pls: Seq<PipelineInstance>,
    order: Seq<usize>,
    states: TrackedStates,
    p: int,
) -> Seq<Command>
    decreases order.len() - p,
{
    if p < 0 || p >= order.len() {
        Seq::empty()
    } else {
        let nd = nodes[order[p] as int];
        trans_to_cmds(node_trans(states, nd.accesses@, p as usize, 0)) + node_tail_cmds(nd, pls)
            + frame_cmds_from(nodes, pls, order, node_states(states, nd.accesses@, 0), p + 1)
    }
}

/// The command stream a frame of this graph records.
pub open spec fn spec_frame_commands(g: Graph) -> Seq<Command> {
    frame_cmds_from(g.nodes@, g.pipelines@, g.order@, init_states(g.images@.len() as nat), 0)
}

impl Graph {
    /// Replays the compiled schedule for one frame: applies each node's
    /// planned resource transitions, runs its pipeline's `prepare` and then
    /// `draw`, and records the present hand-over, in schedule order.
    ///
    /// Fails with the concurrent-run error while a previous frame is still
    /// in flight, and with the allocation error when the lazily created
    /// vertex buffers cannot fit the device budget; either failure leaves
    /// graph and device untouched.
    #[verifier::rlimit(80)]
    pub fn run(&mut self, device: &mut Device, aux: u64) -> (r: Result<Encoder, RenderError>)
        requires
            old(self).wf(),
            old(device).wf(),
        ensures
            final(self).wf(),
            final(device).wf(),
            final(device).capacity == old(device).capacity,
            final(self).nodes@ == old(self).nodes@,
            final(self).order@ == old(self).order@,
            final(self).transitions@ == old(self).transitions@,
            final(self).images@.len() == old(self).images@.len(),
            final(self).pipelines@.len() == old(self).pipelines@.len(),
            if old(self).in_flight {
                &&& r == Result::<Encoder, RenderError>::Err(RenderError::ConcurrentRun)
                &&& *final(self) == *old(self)
                &&& *final(device) == *old(device)
            } else if run_lazy_bytes(*old(self)) <= old(device).spec_available() {
                &&& (r matches Ok(enc) && enc.commands@ == spec_frame_commands(*old(self)))
                &&& final(self).in_flight
                &&& images_states(final(self).images@) == states_after(
                    node_accs(old(self).nodes@),
                    old(self).order@,
                    old(self).images@.len() as nat,
                    old(self).order@.len() as int,
                )
                &&& final(device).used == old(device).used + run_lazy_bytes(*old(self))
                &&& (forall|p: int|
                    0 <= p < old(self).order@.len() ==> (match (#[trigger] old(self).nodes@[old(
                        self,
                    ).order@[p] as int]).kind {
                        NodeKind::RenderPass { pipeline } => final(self).pipelines@[
                            pipeline as int
                        ].prepared_for(aux),
                        NodeKind::Present { .. } => true,
                    }))
            } else {
                &&& r == Result::<Encoder, RenderError>::Err(RenderError::Allocation {
                    requested: run_lazy_bytes(*old(self)) as u64,
                    available: old(device).spec_available() as u64,
                })
                &&& *final(self) == *old(self)
                &&& *final(device) == *old(device)
            },
    {
        if self.in_flight {
            return Err(RenderError::ConcurrentRun);
        }
        let ghost g0 = *self;
        let n_ord: usize = self.order.len();
        let n_res: usize = self.images.len();

        let mut lazy: u128 = 0;
        let mut p: usize = 0;
        #[verifier::loop_isolation(false)]
        while p < n_ord
            invariant
                *self == g0,
                *device == *old(device),
                p <= n_ord,
                lazy + lazy_from(g0.nodes@, g0.pipelines@, g0.order@, p as int) == run_lazy_bytes(
                    g0,
                ),
                lazy <= p * 0xffff_ffff_ffff_ffffu128,
            decreases n_ord - p,
        {
            let node_idx: usize = self.order[p];
            let add: u64 = match &self.nodes[node_idx].kind {
                NodeKind::RenderPass { pipeline } => self.pipelines[*pipeline].lazy_bytes(),
                NodeKind::Present { .. } => 0,
            };
            proof {
                assert(add <= 0xffff_ffff_ffff_ffffu64);
                assert((p + 1) * 0xffff_ffff_ffff_ffffu128 == p * 0xffff_ffff_ffff_ffffu128
                    + 0xffff_ffff_ffff_ffffu128) by (nonlinear_arith);
                assert(p * 0xffff_ffff_ffff_ffffu128 <= (n_ord as int)
                    * 0xffff_ffff_ffff_ffffu128) by (nonlinear_arith)
                    requires
                        0 <= p <= n_ord,
                ;
                assert((n_ord as int) * 0xffff_ffff_ffff_ffffu128 < 0x1_0000_0000_0000_0000_0000_0000_0000_0000int)
                    by (nonlinear_arith)
                    requires
                        n_ord <= 0xffff_ffff_ffff_ffffu64,
                ;
            }
            lazy = lazy + add as u128;
            p = p + 1;
        }
        proof {
            assert(lazy == run_lazy_bytes(g0));
            lemma_lazy_nonneg(g0.nodes@, g0.pipelines@, g0.order@, 0);
        }
        let avail: u64 = device.available();
        if lazy > avail as u128 {
            return Err(RenderError::Allocation { requested: lazy as u64, available: avail });
        }

        let mut ri: usize = 0;
        #[verifier::loop_isolation(false)]
        while ri < n_res
            invariant
                ri <= n_res,
                self.images@.len() == n_res,
                self.nodes@ == g0.nodes@,
                self.pipelines@ == g0.pipelines@,
                self.order@ == g0.order@,
                self.transitions@ == g0.transitions@,
                self.in_flight == g0.in_flight,
                *device == *old(device),
                forall|j: int| 0 <= j < ri ==> (#[trigger] self.images@[j]).state is None,
                forall|j: int|
                    0 <= j < n_res ==> (#[trigger] self.images@[j]) == (Resource {
                        state: self.images@[j].state,
                        ..g0.images@[j]
                    }),
            decreases n_res - ri,
        {
            self.images[ri].set_state(None);
            ri = ri + 1;
        }
        proof {
            assert(images_states(self.images@) =~= init_states(n_res as nat));
        }

        let mut enc: Encoder = Encoder::new();
        let mut p: usize = 0;
        proof {
            assert(enc.commands@ + frame_cmds_from(
                g0.nodes@,
                g0.pipelines@,
                g0.order@,
                images_states(self.images@),
                0,
            ) =~= spec_frame_commands(g0));
        }
        #[verifier::loop_isolation(false)]
        while p < n_ord
            invariant
                p <= n_ord,
                self.nodes@ == g0.nodes@,
                self.order@ == g0.order@,
                self.transitions@ == g0.transitions@,
                self.in_flight == g0.in_flight,
                self.images@.len() == n_res,
                forall|j: int|
                    0 <= j < n_res ==> (#[trigger] self.images@[j]) == (Resource {
                        state: self.images@[j].state,
                        ..g0.images@[j]
                    }),
                images_states(self.images@) == states_after(
                    node_accs(g0.nodes@),
                    g0.order@,
                    n_res as nat,
                    p as int,
                ),
                self.pipelines@.len() == g0.pipelines@.len(),
                forall|q: int| 0 <= q < self.pipelines@.len() ==> (#[trigger] self.pipelines@[q]).wf(),
                forall|q: int|
                    0 <= q < self.pipelines@.len() ==> (#[trigger] self.pipelines@[q]).draw_commands()
                        == g0.pipelines@[q].draw_commands(),
                forall|p2: int|
                    p <= p2 < n_ord ==> (match (#[trigger] g0.nodes@[g0.order@[p2] as int]).kind {
                        NodeKind::RenderPass { pipeline } => self.pipelines@[pipeline as int]
                            == g0.pipelines@[pipeline as int],
                        NodeKind::Present { .. } => true,
                    }),
                forall|p2: int|
                    0 <= p2 < p ==> (match (#[trigger] g0.nodes@[g0.order@[p2] as int]).kind {
                        NodeKind::RenderPass { pipeline } => self.pipelines@[pipeline as int]
                            .prepared_for(aux),
                        NodeKind::Present { .. } => true,
                    }),
                device.wf(),
                device.capacity == old(device).capacity,
                device.used == old(device).used + run_lazy_bytes(g0) - lazy_from(
                    g0.nodes@,
                    self.pipelines@,
                    g0.order@,
                    p as int,
                ),
                lazy_from(g0.nodes@, self.pipelines@, g0.order@, p as int) == lazy_from(
                    g0.nodes@,
                    g0.pipelines@,
                    g0.order@,
                    p as int,
                ),
                enc.commands@ + frame_cmds_from(
                    g0.nodes@,
                    g0.pipelines@,
                    g0.order@,
                    images_states(self.images@),
                    p as int,
                ) == spec_frame_commands(g0),
            decreases n_ord - p,
        {
            let node_idx: usize = self.order[p];
            let ghost entry_states = images_states(self.images@);
            let ghost accs = node_accs(g0.nodes@)[node_idx as int];
            let ghost enc_entry = enc.commands@;
            let ghost pls_entry = self.pipelines@;
            let ghost dev_entry = *device;
            proof {
                assert(accs == g0.nodes@[node_idx as int].accesses@);
                assert(accesses_wf(accs, n_res as nat));
            }
            let mut j: usize = 0;
            #[verifier::loop_isolation(false)]
            while j < self.nodes[node_idx].accesses.len()
                invariant
                    j <= accs.len(),
                    self.nodes@ == g0.nodes@,
                    self.order@ == g0.order@,
                    self.transitions@ == g0.transitions@,
                    self.in_flight == g0.in_flight,
                    self.pipelines@ == pls_entry,
                    *device == dev_entry,
                    self.images@.len() == n_res,
                    forall|jj: int|
                        0 <= jj < n_res ==> (#[trigger] self.images@[jj]) == (Resource {
                            state: self.images@[jj].state,
                            ..g0.images@[jj]
                        }),
                    node_states(images_states(self.images@), accs, j as int) == node_states(
                        entry_states,
                        accs,
                        0,
                    ),
                    enc.commands@ + trans_to_cmds(
                        node_trans(images_states(self.images@), accs, p as usize, j as int),
                    ) == enc_entry + trans_to_cmds(node_trans(entry_states, accs, p as usize, 0)),
                decreases accs.len() - j,
            {
                let a: Access = self.nodes[node_idx].accesses[j];
                proof {
                    assert(a == accs[j as int]);
                    assert(a.res < n_res);
                }
                let prev: Option<ResourceState> = self.images[a.res].current_state();
                let declared = ResourceState { stage: a.stage, layout: a.layout };
                let ghost pre_states = images_states(self.images@);
                let ghost pre_enc = enc.commands@;
                match prev {
                    Some(pv) => {
                        if !(pv == declared) {
                            enc.record(Command::Transition { res: a.res, from: pv, to: declared });
                        }
                    },
                    None => {},
                }
                self.images[a.res].set_state(Some(declared));
                proof {
                    assert(declared == a.declared_state());
                    assert(images_states(self.images@) =~= apply_access(pre_states, a));
                    assert(enc.commands@ =~= pre_enc + trans_to_cmds(
                        access_transitions(pre_states, a, p),
                    ));
                    assert(node_trans(pre_states, accs, p as usize, j as int)
                        == access_transitions(pre_states, a, p) + node_trans(
                        images_states(self.images@),
                        accs,
                        p as usize,
                        j as int + 1,
                    ));
                    assert(trans_to_cmds(node_trans(pre_states, accs, p as usize, j as int))
                        =~= trans_to_cmds(access_transitions(pre_states, a, p)) + trans_to_cmds(
                        node_trans(images_states(self.images@), accs, p as usize, j as int + 1),
                    ));
                    assert(enc.commands@ + trans_to_cmds(
                        node_trans(images_states(self.images@), accs, p as usize, j as int + 1),
                    ) =~= pre_enc + trans_to_cmds(
                        node_trans(pre_states, accs, p as usize, j as int),
                    ));
                }
                j = j + 1;
            }
            proof {
                assert(node_trans(images_states(self.images@), accs, p as usize, j as int)
                    == Seq::<Transition>::empty());
                assert(trans_to_cmds(Seq::<Transition>::empty()) =~= Seq::<Command>::empty());
                assert(enc.commands@ + Seq::<Command>::empty() =~= enc.commands@);
                assert(enc.commands@ =~= enc_entry + trans_to_cmds(
                    node_trans(entry_states, accs, p as usize, 0),
                ));
                assert(images_states(self.images@) == node_states(entry_states, accs, 0));
            }
            let kind: NodeKind = self.nodes[node_idx].kind;
            let ghost pre_draw_enc = enc.commands@;
            match kind {
                NodeKind::RenderPass { pipeline } => {
                    proof {
                        assert(g0.nodes@[g0.order@[p as int] as int].kind == (
                        NodeKind::RenderPass { pipeline }));
                        assert(self.pipelines@[pipeline as int]
                            == g0.pipelines@[pipeline as int]);
                        lemma_lazy_nonneg(g0.nodes@, self.pipelines@, g0.order@, p as int + 1);
                    }
                    let ghost pre_pls = self.pipelines@;
                    let pres = self.pipelines[pipeline].prepare(device, aux);
                    match pres {
                        Ok(_) => (),
                        Err(_) => {
                            return unreached();
                        },
                    }
                    proof {
                        assert(self.pipelines@ =~= pre_pls.update(
                            pipeline as int,
                            self.pipelines@[pipeline as int],
                        ));
                        assert forall|p2: int|
                            p + 1 <= p2 < n_ord implies (match (#[trigger] g0.nodes@[g0.order@[p2] as int]).kind {
                            NodeKind::RenderPass { pipeline: q2 } => q2 < pre_pls.len() && q2
                                != pipeline,
                            NodeKind::Present { .. } => true,
                        }) by {
                            match g0.nodes@[g0.order@[p2] as int].kind {
                                NodeKind::RenderPass { pipeline: q2 } => {
                                    let a2 = g0.order@[p2];
                                    let a1 = g0.order@[p as int];
                                    assert(a1 != a2);
                                    assert(node_pipe(g0.nodes@[a1 as int]) == Some(pipeline));
                                    assert(node_pipe(g0.nodes@[a2 as int]) == Some(q2));
                                    if a1 < a2 {
                                        assert(node_pipe(g0.nodes@[a1 as int]) != node_pipe(
                                            g0.nodes@[a2 as int],
                                        ));
                                    } else {
                                        assert(node_pipe(g0.nodes@[a2 as int]) != node_pipe(
                                            g0.nodes@[a1 as int],
                                        ));
                                    }
                                },
                                NodeKind::Present { .. } => {},
                            }
                        }
                        lemma_lazy_update_other(
                            g0.nodes@,
                            pre_pls,
                            g0.order@,
                            p as int + 1,
                            pipeline as int,
                            self.pipelines@[pipeline as int],
                        );
                    }
                    self.pipelines[pipeline].draw(&mut enc);
                    proof {
                        assert(self.pipelines@[pipeline as int].draw_commands()
                            == g0.pipelines@[pipeline as int].draw_commands());
                        assert(enc.commands@ == pre_draw_enc
                            + self.pipelines@[pipeline as int].draw_commands());
                        assert(enc.commands@ =~= pre_draw_enc + node_tail_cmds(
                            g0.nodes@[node_idx as int],
                            g0.pipelines@,
                        ));
                    }
                },
                NodeKind::Present { res } => {
                    enc.record(Command::Present { res });
                    proof {
                        assert(enc.commands@ =~= pre_draw_enc + node_tail_cmds(
                            g0.nodes@[node_idx as int],
                            g0.pipelines@,
                        ));
                    }
                },
            }
            proof {
                assert(states_after(node_accs(g0.nodes@), g0.order@, n_res as nat, p as int + 1)
                    == node_states(entry_states, accs, 0));
                assert(frame_cmds_from(
                    g0.nodes@,
                    g0.pipelines@,
                    g0.order@,
                    entry_states,
                    p as int,
                ) == trans_to_cmds(node_trans(entry_states, accs, p as usize, 0))
                    + node_tail_cmds(g0.nodes@[node_idx as int], g0.pipelines@)
                    + frame_cmds_from(
                    g0.nodes@,
                    g0.pipelines@,
                    g0.order@,
                    node_states(entry_states, accs, 0),
                    p as int + 1,
                ));
                assert(enc.commands@ + frame_cmds_from(
                    g0.nodes@,
                    g0.pipelines@,
                    g0.order@,
                    images_states(self.images@),
                    p as int + 1,
                ) =~= enc_entry + frame_cmds_from(
                    g0.nodes@,
                    g0.pipelines@,
                    g0.order@,
                    entry_states,
                    p as int,
                ));
            }
            p = p + 1;
        }
        proof {
            assert(frame_cmds_from(
                g0.nodes@,
                g0.pipelines@,
                g0.order@,
                images_states(self.images@),
                n_ord as int,
            ) == Seq::<Command>::empty());
            assert(enc.commands@ + Seq::<Command>::empty() =~= enc.commands@);
        }
        self.in_flight = true;
        Ok(enc)
    }

    /// Marks the in-flight frame's recorded commands as submitted, allowing
    /// the next `run`.
    pub fn complete_frame(&mut self)
        ensures
            *final(self) == (Graph { in_flight: false, ..*old(self) }),
    {
        self.in_flight = false;
    }

    /// Tears the graph down, releasing every attachment and every pipeline's
    /// resources back to the device.
    pub fn dispose(self, device: &mut Device)
        requires
            self.wf(),
            old(device).wf(),
            old(device).used >= resources_total(self.images@) + pipelines_owned_total(
                self.pipelines@,
            ),
        ensures
            final(device).wf(),
            final(device).capacity == old(device).capacity,
            final(device).used == old(device).used - resources_total(self.images@)
                - pipelines_owned_total(self.pipelines@),
    {
        proof {
            lemma_resources_total_nonneg(self.images@);
            lemma_pipelines_owned_nonneg(self.pipelines@);
        }
        let Graph { images, pipelines, .. } = self;
        dispose_pipelines(pipelines, device);
        dispose_resources(images, device);
    }
}

} // verus!
