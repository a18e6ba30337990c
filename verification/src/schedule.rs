//! The order in which the passes of a graph are run, and what the settings
//! of a frame make of it.

use crate::graph::{
    main_topology, voxel_topology, RenderGraph, RenderGraphSettings, Topology, VoxelRenderLabel,
};
use vstd::prelude::*;
use vstd::set_lib::{lemma_len_subset, lemma_subset_equality};

verus! {

/// `label` stands in `order` before place `place`.
pub open spec fn placed_before(
    order: Seq<VoxelRenderLabel>,
    place: int,
    label: VoxelRenderLabel,
) -> bool {
    exists|j: int| 0 <= j < place && j < order.len() && #[trigger] order[j] == label
}

/// Every pass that `label` waits for stands in `order`.
pub open spec fn ready(
    graph: Topology,
    order: Seq<VoxelRenderLabel>,
    label: VoxelRenderLabel,
) -> bool {
    forall|e: int|
        0 <= e < graph.edges.len() && (#[trigger] graph.edges[e]).after() == label
            ==> order.contains(graph.edges[e].before())
}

/// `order` holds passes of the graph, none of them twice, and each behind
/// all the passes that it waits for.
pub open spec fn is_partial_schedule(graph: Topology, order: Seq<VoxelRenderLabel>) -> bool {
    &&& order.no_duplicates()
    &&& forall|k: int| 0 <= k < order.len() ==> graph.has_node(#[trigger] order[k])
    &&& forall|e: int, k: int|
        0 <= e < graph.edges.len() && 0 <= k < order.len() && #[trigger] order[k] == (
        #[trigger] graph.edges[e]).after() ==> placed_before(order, k, graph.edges[e].before())
}

/// `order` is a schedule of the graph: it holds every pass of the graph
/// once and nothing else, and each pass behind all that it waits for.
pub open spec fn is_schedule(graph: Topology, order: Seq<VoxelRenderLabel>) -> bool {
    &&& order.len() == graph.nodes.len()
    &&& is_partial_schedule(graph, order)
    &&& forall|i: int|
        0 <= i < graph.nodes.len() ==> order.contains((#[trigger] graph.nodes[i]).label)
}

/// `label` is the pass that comes next after `placed`: of the nodes that are
/// ready and not placed yet, the one that was added to the graph first.
pub open spec fn comes_next(
    graph: Topology,
    placed: Seq<VoxelRenderLabel>,
    label: VoxelRenderLabel,
) -> bool {
    exists|i: int|
        {
            &&& 0 <= i < graph.nodes.len()
            &&& (#[trigger] graph.nodes[i]).label == label
            &&& !placed.contains(label)
            &&& ready(graph, placed, label)
            &&& forall|k: int|
                0 <= k < i ==> placed.contains((#[trigger] graph.nodes[k]).label) || !ready(
                    graph,
                    placed,
                    graph.nodes[k].label,
                )
        }
}

/// Every pass of `order` is the one that comes next after those before it.
pub open spec fn in_graph_order(graph: Topology, order: Seq<VoxelRenderLabel>) -> bool {
    forall|k: int| 0 <= k < order.len() ==> comes_next(graph, order.take(k), #[trigger] order[k])
}

/// Whether `label` stands in `order`.
fn contains_label(order: &Vec<VoxelRenderLabel>, label: VoxelRenderLabel) -> (found: bool)
    ensures
        found == order@.contains(label),
{
    let mut i: usize = 0;
    while i < order.len()
        invariant
            i <= order@.len(),
            forall|k: int| 0 <= k < i ==> order@[k] != label,
        decreases order@.len() - i,
    {
        if order[i] == label {
            return true;
        }
        i += 1;
    }
    false
}

/// Whether every pass that `label` waits for stands in `order`.
fn is_ready(graph: &RenderGraph, order: &Vec<VoxelRenderLabel>, label: VoxelRenderLabel) -> (yes:
    bool)
    ensures
        yes == ready(graph@, order@, label),
{
    let edges = graph.edges();
    let mut e: usize = 0;
    while e < edges.len()
        invariant
            e <= edges@.len(),
            edges@ == graph@.edges,
            forall|k: int|
                0 <= k < e && (#[trigger] edges@[k]).after() == label ==> order@.contains(
                    edges@[k].before(),
                ),
        decreases edges@.len() - e,
    {
        if edges[e].target() == label && !contains_label(order, edges[e].source()) {
            return false;
        }
        e += 1;
    }
    true
}

/// A partial schedule stays one when a pass that is ready and not yet in it
/// is put at its end.
proof fn lemma_extend(graph: Topology, order: Seq<VoxelRenderLabel>, label: VoxelRenderLabel)
    requires
        is_partial_schedule(graph, order),
        graph.has_node(label),
        !order.contains(label),
        ready(graph, order, label),
    ensures
        is_partial_schedule(graph, order.push(label)),
{
    let after = order.push(label);
    let n = order.len() as int;
    assert forall|i: int, j: int| 0 <= i < after.len() && 0 <= j < after.len() && i != j implies
        after[i] != after[j] by {
        if i < n && j < n {
            assert(order[i] != order[j]);
        } else if i < n {
            assert(order.contains(order[i]));
        } else {
            assert(order.contains(order[j]));
        }
    }
    assert forall|k: int| 0 <= k < after.len() implies graph.has_node(#[trigger] after[k]) by {
        if k < n {
            assert(after[k] == order[k]);
        }
    }
    assert forall|e: int, k: int|
        0 <= e < graph.edges.len() && 0 <= k < after.len() && #[trigger] after[k] == (
        #[trigger] graph.edges[e]).after() implies placed_before(
        after,
        k,
        graph.edges[e].before(),
    ) by {
        let before = graph.edges[e].before();
        if k < n {
            assert(order[k] == graph.edges[e].after());
            assert(placed_before(order, k, before));
            let j = choose|j: int| 0 <= j < k && j < order.len() && #[trigger] order[j] == before;
            assert(after[j] == before);
        } else {
            assert(order.contains(before));
            let j = choose|j: int| 0 <= j < order.len() && order[j] == before;
            assert(after[j] == before);
        }
    }
}

/// Where no pass outside a partial schedule is ready, every pass of a
/// schedule stands in the partial one already.
proof fn lemma_stuck_prefix(
    graph: Topology,
    order: Seq<VoxelRenderLabel>,
    full: Seq<VoxelRenderLabel>,
    upto: int,
)
    requires
        is_schedule(graph, full),
        0 <= upto <= full.len(),
        forall|i: int|
            0 <= i < graph.nodes.len() ==> order.contains((#[trigger] graph.nodes[i]).label)
                || !ready(graph, order, graph.nodes[i].label),
    ensures
        forall|m: int| 0 <= m < upto ==> order.contains(#[trigger] full[m]),
    decreases upto,
{
    if upto > 0 {
        lemma_stuck_prefix(graph, order, full, upto - 1);
        let k = upto - 1;
        let label = full[k];
        assert(graph.has_node(label));
        let i = choose|i: int| 0 <= i < graph.nodes.len() && (#[trigger] graph.nodes[i]).label
            == label;
        if !order.contains(label) {
            assert(!ready(graph, order, graph.nodes[i].label));
            let e = choose|e: int|
                0 <= e < graph.edges.len() && (#[trigger] graph.edges[e]).after() == label
                    && !order.contains(graph.edges[e].before());
            assert(placed_before(full, k, graph.edges[e].before()));
            let j = choose|j: int|
                0 <= j < k && j < full.len() && #[trigger] full[j] == graph.edges[e].before();
            assert(order.contains(full[j]));
        }
    }
}

/// A sequence without repetitions whose items all stand in another one is no
/// longer than the other.
proof fn lemma_pigeonhole(a: Seq<VoxelRenderLabel>, b: Seq<VoxelRenderLabel>)
    requires
        a.no_duplicates(),
        forall|k: int| 0 <= k < a.len() ==> b.contains(#[trigger] a[k]),
    ensures
        a.len() <= b.len(),
        a.len() == b.len() ==> forall|k: int| 0 <= k < b.len() ==> a.contains(#[trigger] b[k]),
{
    broadcast use vstd::seq_lib::seq_to_set_is_finite;

    a.unique_seq_to_set();
    b.lemma_cardinality_of_set();
    assert(a.to_set().subset_of(b.to_set())) by {
        assert forall|x: VoxelRenderLabel| a.to_set().contains(x) implies b.to_set().contains(
            x,
        ) by {
            let k = choose|k: int| 0 <= k < a.len() && a[k] == x;
            assert(b.contains(a[k]));
        }
    }
    lemma_len_subset(a.to_set(), b.to_set());
    if a.len() == b.len() {
        lemma_subset_equality(a.to_set(), b.to_set());
        assert forall|k: int| 0 <= k < b.len() implies a.contains(#[trigger] b[k]) by {
            assert(b.contains(b[k]));
            assert(b.to_set().contains(b[k]));
            assert(a.to_set().contains(b[k]));
        }
    }
}

/// Where a partial schedule is short of a pass and no pass outside it is
/// ready, the graph has no schedule.
proof fn lemma_stuck(graph: Topology, order: Seq<VoxelRenderLabel>, full: Seq<VoxelRenderLabel>)
    requires
        order.len() < graph.nodes.len(),
        forall|i: int|
            0 <= i < graph.nodes.len() ==> order.contains((#[trigger] graph.nodes[i]).label)
                || !ready(graph, order, graph.nodes[i].label),
    ensures
        !is_schedule(graph, full),
{
    if is_schedule(graph, full) {
        lemma_stuck_prefix(graph, order, full, full.len() as int);
        lemma_pigeonhole(full, order);
    }
}

/// A partial schedule with as many passes as the graph has nodes is a
/// schedule.
proof fn lemma_complete(graph: Topology, order: Seq<VoxelRenderLabel>)
    requires
        is_partial_schedule(graph, order),
        order.len() == graph.nodes.len(),
    ensures
        is_schedule(graph, order),
{
    let labels = Seq::new(graph.nodes.len(), |i: int| graph.nodes[i].label);
    assert forall|k: int| 0 <= k < order.len() implies labels.contains(#[trigger] order[k]) by {
        assert(graph.has_node(order[k]));
        let i = choose|i: int| 0 <= i < graph.nodes.len() && (#[trigger] graph.nodes[i]).label
            == order[k];
        assert(labels[i] == order[k]);
    }
    lemma_pigeonhole(order, labels);
    assert forall|i: int| 0 <= i < graph.nodes.len() implies order.contains(
        (#[trigger] graph.nodes[i]).label,
    ) by {
        assert(labels[i] == graph.nodes[i].label);
        assert(order.contains(labels[i]));
    }
}

impl RenderGraph {
    /// An order in which the passes can be run: every pass once, each
    /// behind all that it waits for. Among the passes that can come next,
    /// the one that was added to the graph first does. Nothing is returned
    /// when the graph has no such order, which is when its edges go round in
    /// a circle or lead to a pass that is no node.
    pub fn schedule(&self) -> (result: Option<Vec<VoxelRenderLabel>>)
        ensures
            result matches Some(order) ==> is_schedule(self@, order@) && in_graph_order(
                self@,
                order@,
            ),
            result.is_none() ==> forall|order: Seq<VoxelRenderLabel>| !is_schedule(self@, order),
    {
        let nodes = self.nodes();
        let count = nodes.len();
        let mut order: Vec<VoxelRenderLabel> = Vec::new();
        while order.len() < count
            invariant
                nodes@ == self@.nodes,
                count == nodes@.len(),
                order@.len() <= count,
                is_partial_schedule(self@, order@),
                in_graph_order(self@, order@),
            decreases count - order@.len(),
        {
            let mut next: Option<VoxelRenderLabel> = None;
            let mut i: usize = 0;
            while i < count && next.is_none()
                invariant
                    i <= count,
                    nodes@ == self@.nodes,
                    count == nodes@.len(),
                    next.is_none() ==> forall|k: int|
                        0 <= k < i ==> order@.contains((#[trigger] self@.nodes[k]).label) || !ready(
                            self@,
                            order@,
                            self@.nodes[k].label,
                        ),
                    next matches Some(label) ==> self@.has_node(label) && !order@.contains(label)
                        && ready(self@, order@, label) && comes_next(self@, order@, label),
                decreases count - i,
            {
                let label = nodes[i].label;
                if !contains_label(&order, label) && is_ready(self, &order, label) {
                    assert(self@.nodes[i as int].label == label);
                    next = Some(label);
                }
                i += 1;
            }
            match next {
                Some(label) => {
                    proof {
                        lemma_extend(self@, order@, label);
                        let longer = order@.push(label);
                        assert forall|k: int| 0 <= k < longer.len() implies comes_next(
                            self@,
                            longer.take(k),
                            #[trigger] longer[k],
                        ) by {
                            if k < order@.len() {
                                assert(longer.take(k) =~= order@.take(k));
                                assert(longer[k] == order@[k]);
                            } else {
                                assert(longer.take(k) =~= order@);
                            }
                        }
                    }
                    order.push(label);
                },
                None => {
                    proof {
                        assert forall|full: Seq<VoxelRenderLabel>| !is_schedule(
                            self@,
                            full,
                        ) by {
                            lemma_stuck(self@, order@, full);
                        }
                    }
                    return None;
                },
            }
        }
        proof {
            lemma_complete(self@, order@);
        }
        Some(order)
    }
}

/// One pass of a frame: which it is, and whether it submits work to the
/// device or only counts as done.
#[derive(Clone, Copy, Debug, PartialEq, Eq, Structural)]
pub struct Step {
    pub label: VoxelRenderLabel,
    pub submit: bool,
}

/// The steps of a frame: the passes in the order given, each submitting
/// work exactly when the settings switch it on. A pass that is switched off
/// keeps its place.
pub fn frame_steps(order: &Vec<VoxelRenderLabel>, settings: &RenderGraphSettings) -> (steps: Vec<
    Step,
>)
    ensures
        steps@.len() == order@.len(),
        forall|k: int|
            0 <= k < order@.len() ==> (#[trigger] steps@[k]) == (Step {
                label: order@[k],
                submit: settings.enables(order@[k]),
            }),
{
    let mut steps: Vec<Step> = Vec::new();
    let mut k: usize = 0;
    while k < order.len()
        invariant
            k <= order@.len(),
            steps@.len() == k,
            forall|j: int|
                0 <= j < k ==> (#[trigger] steps@[j]) == (Step {
                    label: order@[j],
                    submit: settings.enables(order@[j]),
                }),
        decreases order@.len() - k,
    {
        steps.push(Step { label: order[k], submit: settings.is_enabled(order[k]) });
        k += 1;
    }
    steps
}

/// The order of the passes of one camera.
pub open spec fn voxel_order() -> Seq<VoxelRenderLabel> {
    seq![
        VoxelRenderLabel::Attachments,
        VoxelRenderLabel::Rebuild,
        VoxelRenderLabel::Physics,
        VoxelRenderLabel::Trace,
        VoxelRenderLabel::Tonemapping,
        VoxelRenderLabel::FXAA,
        VoxelRenderLabel::UI,
        VoxelRenderLabel::Upscaling,
    ]
}

/// The order of the passes of a frame.
pub open spec fn main_order() -> Seq<VoxelRenderLabel> {
    seq![
        VoxelRenderLabel::Clear,
        VoxelRenderLabel::Automata,
        VoxelRenderLabel::Animation,
        VoxelRenderLabel::CameraDriver,
    ]
}

/// The graph of a frame has a schedule: clear, automata, animation, and
/// then the cameras.
pub proof fn lemma_main_graph_schedule()
    ensures
        is_schedule(main_topology(), main_order()),
{
    let graph = main_topology();
    let order = main_order();
    assert(graph.nodes[0].label == VoxelRenderLabel::CameraDriver);
    assert(graph.nodes[1].label == VoxelRenderLabel::Clear);
    assert(graph.nodes[2].label == VoxelRenderLabel::Automata);
    assert(graph.nodes[3].label == VoxelRenderLabel::Animation);
    assert(order[0] == VoxelRenderLabel::Clear);
    assert(order[1] == VoxelRenderLabel::Automata);
    assert(order[2] == VoxelRenderLabel::Animation);
    assert(order[3] == VoxelRenderLabel::CameraDriver);
    assert(graph.edges[0].before() == order[0] && graph.edges[0].after() == order[1]);
    assert(graph.edges[1].before() == order[1] && graph.edges[1].after() == order[2]);
    assert(graph.edges[2].before() == order[2] && graph.edges[2].after() == order[3]);
}

/// The graph of one camera has a schedule: the attachments, the rebuild of
/// the grid, the physics, the trace, and then the passes that work on the
/// traced picture.
pub proof fn lemma_voxel_graph_schedule()
    ensures
        is_schedule(voxel_topology(), voxel_order()),
{
    let graph = voxel_topology();
    let order = voxel_order();
    assert(graph.nodes[0].label == order[0]);
    assert(graph.nodes[1].label == order[3]);
    assert(graph.nodes[2].label == order[4]);
    assert(graph.nodes[3].label == order[5]);
    assert(graph.nodes[4].label == order[6]);
    assert(graph.nodes[5].label == order[7]);
    assert(graph.nodes[6].label == order[1]);
    assert(graph.nodes[7].label == order[2]);
    assert(graph.edges[0].before() == order[3] && graph.edges[0].after() == order[4]);
    assert(graph.edges[1].before() == order[4] && graph.edges[1].after() == order[5]);
    assert(graph.edges[2].before() == order[5] && graph.edges[2].after() == order[6]);
    assert(graph.edges[3].before() == order[6] && graph.edges[3].after() == order[7]);
    assert(graph.edges[4].before() == order[0] && graph.edges[4].after() == order[3]);
    assert(graph.edges[5].before() == order[0] && graph.edges[5].after() == order[3]);
    assert(graph.edges[6].before() == order[1] && graph.edges[6].after() == order[2]);
    assert(graph.edges[7].before() == order[2] && graph.edges[7].after() == order[3]);
    assert(order.no_duplicates());
    assert forall|k: int| 0 <= k < order.len() implies graph.has_node(#[trigger] order[k]) by {}
    assert forall|e: int, k: int|
        0 <= e < graph.edges.len() && 0 <= k < order.len() && #[trigger] order[k] == (
        #[trigger] graph.edges[e]).after() implies placed_before(
        order,
        k,
        graph.edges[e].before(),
    ) by {}
}

} // verus!
