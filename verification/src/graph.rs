//! The passes of a frame as a graph: which pass there is, which one has to
//! be done before which, which one hands a resource to which, and which ones
//! the settings of a frame leave out.

use vstd::prelude::*;

verus! {

/// The passes of a frame.
#[derive(Clone, Copy, Debug, PartialEq, Eq, Hash, Structural)]
pub enum VoxelRenderLabel {
    Attachments,
    Trace,
    Tonemapping,
    FXAA,
    UI,
    Upscaling,
    Rebuild,
    Physics,
    Clear,
    Automata,
    Animation,
    CameraDriver,
}

/// The resources that one pass hands to another.
#[derive(Clone, Copy, Debug, PartialEq, Eq, Hash, Structural)]
pub enum SlotName {
    Normal,
    Position,
}

/// A set of slots.
#[derive(Clone, Copy, Debug, PartialEq, Eq, Structural)]
pub struct Slots {
    pub normal: bool,
    pub position: bool,
}

impl Slots {
    pub open spec fn has(self, slot: SlotName) -> bool {
        match slot {
            SlotName::Normal => self.normal,
            SlotName::Position => self.position,
        }
    }

    /// No slot.
    pub fn none() -> (slots: Slots)
        ensures
            slots == (Slots { normal: false, position: false }),
    {
        Slots { normal: false, position: false }
    }

    /// Both slots of the screen-space attachments.
    pub fn attachments() -> (slots: Slots)
        ensures
            slots == (Slots { normal: true, position: true }),
    {
        Slots { normal: true, position: true }
    }

    pub fn contains(&self, slot: SlotName) -> (found: bool)
        ensures
            found == self.has(slot),
    {
        match slot {
            SlotName::Normal => self.normal,
            SlotName::Position => self.position,
        }
    }
}

/// A pass with the slots it takes and the slots it fills.
#[derive(Clone, Copy, Debug, PartialEq, Eq, Structural)]
pub struct GraphNode {
    pub label: VoxelRenderLabel,
    pub inputs: Slots,
    pub outputs: Slots,
}

/// A dependency between two passes.
#[derive(Clone, Copy, Debug, PartialEq, Eq, Structural)]
pub enum Edge {
    /// `before` has to be done when `after` begins.
    NodeEdge { before: VoxelRenderLabel, after: VoxelRenderLabel },
    /// `input_slot` of `input_node` is what `output_node` left in its
    /// `output_slot`; so `output_node` has to be done first.
    SlotEdge {
        output_node: VoxelRenderLabel,
        output_slot: SlotName,
        input_node: VoxelRenderLabel,
        input_slot: SlotName,
    },
}

impl Edge {
    /// The pass that has to be done first.
    pub open spec fn before(self) -> VoxelRenderLabel {
        match self {
            Edge::NodeEdge { before, .. } => before,
            Edge::SlotEdge { output_node, .. } => output_node,
        }
    }

    /// The pass that has to wait.
    pub open spec fn after(self) -> VoxelRenderLabel {
        match self {
            Edge::NodeEdge { after, .. } => after,
            Edge::SlotEdge { input_node, .. } => input_node,
        }
    }

    /// The edge fills `slot` of `node`.
    pub open spec fn fills(self, node: VoxelRenderLabel, slot: SlotName) -> bool {
        self matches Edge::SlotEdge { input_node, input_slot, .. } && input_node == node
            && input_slot == slot
    }

    pub fn source(&self) -> (label: VoxelRenderLabel)
        ensures
            label == self.before(),
    {
        match self {
            Edge::NodeEdge { before, .. } => *before,
            Edge::SlotEdge { output_node, .. } => *output_node,
        }
    }

    pub fn target(&self) -> (label: VoxelRenderLabel)
        ensures
            label == self.after(),
    {
        match self {
            Edge::NodeEdge { after, .. } => *after,
            Edge::SlotEdge { input_node, .. } => *input_node,
        }
    }
}

/// Why a node or an edge was not added to a graph.
#[derive(Clone, Copy, Debug, PartialEq, Eq, Structural)]
pub enum RenderGraphError {
    /// The graph has a node of that label already.
    NodeAlreadyExists,
    /// An end of the edge is no node of the graph.
    InvalidNode,
    /// The node that is to fill the slot does not declare it as an output.
    InvalidOutputNodeSlot,
    /// The node that is to take the slot does not declare it as an input.
    InvalidInputNodeSlot,
    /// Another edge fills that input slot already.
    NodeInputSlotAlreadyOccupied,
    /// The graph has that very edge already.
    EdgeAlreadyExists,
}

/// What a graph is made of.
pub struct Topology {
    pub nodes: Seq<GraphNode>,
    pub edges: Seq<Edge>,
}

impl Topology {
    /// A node of the graph has the label.
    pub open spec fn has_node(self, label: VoxelRenderLabel) -> bool {
        exists|i: int| 0 <= i < self.nodes.len() && (#[trigger] self.nodes[i]).label == label
    }

    /// A node of the graph has the label and declares the slot as an output.
    pub open spec fn has_output(self, label: VoxelRenderLabel, slot: SlotName) -> bool {
        exists|i: int|
            0 <= i < self.nodes.len() && (#[trigger] self.nodes[i]).label == label
                && self.nodes[i].outputs.has(slot)
    }

    /// A node of the graph has the label and declares the slot as an input.
    pub open spec fn has_input(self, label: VoxelRenderLabel, slot: SlotName) -> bool {
        exists|i: int|
            0 <= i < self.nodes.len() && (#[trigger] self.nodes[i]).label == label
                && self.nodes[i].inputs.has(slot)
    }

    /// The graph has the edge.
    pub open spec fn has_edge(self, edge: Edge) -> bool {
        self.edges.contains(edge)
    }

    /// An edge of the graph fills the input slot.
    pub open spec fn occupied(self, node: VoxelRenderLabel, slot: SlotName) -> bool {
        exists|i: int| 0 <= i < self.edges.len() && (#[trigger] self.edges[i]).fills(node, slot)
    }

    /// No two nodes share a label, every edge joins two nodes, a slot edge
    /// joins slots that its nodes declare, and no input slot is filled twice.
    #[verifier::opaque]
    pub open spec fn well_formed(self) -> bool {
        &&& forall|i: int, j: int|
            0 <= i < j < self.nodes.len() ==> (#[trigger] self.nodes[i]).label != (
            #[trigger] self.nodes[j]).label
        &&& forall|i: int|
            0 <= i < self.edges.len() ==> self.has_node((#[trigger] self.edges[i]).before())
                && self.has_node(self.edges[i].after())
        &&& forall|i: int|
            0 <= i < self.edges.len() ==> (
            #[trigger] self.edges[i] matches Edge::SlotEdge {
                output_node,
                output_slot,
                input_node,
                input_slot,
            } ==> self.has_output(output_node, output_slot) && self.has_input(
                input_node,
                input_slot,
            ))
        &&& forall|i: int, j: int|
            0 <= i < j < self.edges.len() ==> !((#[trigger] self.edges[i]) matches Edge::SlotEdge {
                input_node,
                input_slot,
                ..
            } && (#[trigger] self.edges[j]).fills(input_node, input_slot))
    }
}

/// A graph of passes.
pub struct RenderGraph {
    nodes: Vec<GraphNode>,
    edges: Vec<Edge>,
}

impl View for RenderGraph {
    type V = Topology;

    closed spec fn view(&self) -> Topology {
        Topology { nodes: self.nodes@, edges: self.edges@ }
    }
}

impl RenderGraph {
    /// A graph without nodes.
    pub fn new() -> (graph: RenderGraph)
        ensures
            graph@.nodes.len() == 0,
            graph@.edges.len() == 0,
            graph@.well_formed(),
    {
        reveal(Topology::well_formed);
        RenderGraph { nodes: Vec::new(), edges: Vec::new() }
    }

    /// The nodes, in the order in which they were added.
    pub fn nodes(&self) -> (nodes: &Vec<GraphNode>)
        ensures
            nodes@ == self@.nodes,
    {
        &self.nodes
    }

    /// The edges, in the order in which they were added.
    pub fn edges(&self) -> (edges: &Vec<Edge>)
        ensures
            edges@ == self@.edges,
    {
        &self.edges
    }

    /// The node of the given label, if the graph has one.
    pub fn get_node(&self, label: VoxelRenderLabel) -> (node: Option<GraphNode>)
        ensures
            node.is_some() <==> self@.has_node(label),
            node matches Some(found) ==> found.label == label && self@.nodes.contains(found),
    {
        let mut i: usize = 0;
        while i < self.nodes.len()
            invariant
                i <= self@.nodes.len(),
                forall|k: int| 0 <= k < i ==> (#[trigger] self@.nodes[k]).label != label,
            decreases self@.nodes.len() - i,
        {
            if self.nodes[i].label == label {
                return Some(self.nodes[i]);
            }
            i += 1;
        }
        None
    }

    /// Whether the graph has the edge.
    pub fn has_edge(&self, edge: &Edge) -> (found: bool)
        ensures
            found == self@.has_edge(*edge),
    {
        let mut i: usize = 0;
        while i < self.edges.len()
            invariant
                i <= self@.edges.len(),
                forall|k: int| 0 <= k < i ==> self@.edges[k] != *edge,
            decreases self@.edges.len() - i,
        {
            if self.edges[i] == *edge {
                return true;
            }
            i += 1;
        }
        false
    }

    /// Whether an edge of the graph fills the input slot already.
    pub fn input_occupied(&self, node: VoxelRenderLabel, slot: SlotName) -> (found: bool)
        ensures
            found == self@.occupied(node, slot),
    {
        let mut i: usize = 0;
        while i < self.edges.len()
            invariant
                i <= self@.edges.len(),
                forall|k: int| 0 <= k < i ==> !(#[trigger] self@.edges[k]).fills(node, slot),
            decreases self@.edges.len() - i,
        {
            match self.edges[i] {
                Edge::SlotEdge { input_node, input_slot, .. } => {
                    if input_node == node && input_slot == slot {
                        return true;
                    }
                },
                Edge::NodeEdge { .. } => {},
            }
            i += 1;
        }
        false
    }

    /// Adds a node. Refused when the graph has a node of that label.
    pub fn add_node(&mut self, node: GraphNode) -> (result: Result<(), RenderGraphError>)
        ensures
            result == (if old(self)@.has_node(node.label) {
                Err::<(), RenderGraphError>(RenderGraphError::NodeAlreadyExists)
            } else {
                Ok(())
            }),
            result.is_ok() ==> final(self)@.nodes == old(self)@.nodes.push(node)
                && final(self)@.edges == old(self)@.edges,
            result.is_err() ==> final(self)@ == old(self)@,
            old(self)@.well_formed() ==> final(self)@.well_formed(),
    {
        if self.get_node(node.label).is_some() {
            return Err(RenderGraphError::NodeAlreadyExists);
        }
        self.nodes.push(node);
        proof {
            if old(self)@.well_formed() {
                lemma_node_added(old(self)@, node);
            }
        }
        Ok(())
    }

    /// Adds the edge that `before` has to be done when `after` begins.
    /// Refused when one of the two is no node of the graph, or when the graph
    /// has that edge already.
    pub fn add_node_edge(&mut self, before: VoxelRenderLabel, after: VoxelRenderLabel) -> (result:
        Result<(), RenderGraphError>)
        ensures
            result == node_edge_outcome(old(self)@, before, after),
            result.is_ok() ==> final(self)@.nodes == old(self)@.nodes && final(self)@.edges == old(
                self,
            )@.edges.push(Edge::NodeEdge { before, after }),
            result.is_err() ==> final(self)@ == old(self)@,
            old(self)@.well_formed() ==> final(self)@.well_formed(),
    {
        if self.get_node(before).is_none() || self.get_node(after).is_none() {
            return Err(RenderGraphError::InvalidNode);
        }
        let edge = Edge::NodeEdge { before, after };
        if self.has_edge(&edge) {
            return Err(RenderGraphError::EdgeAlreadyExists);
        }
        self.edges.push(edge);
        proof {
            if old(self)@.well_formed() {
                lemma_edge_added(old(self)@, edge);
            }
        }
        Ok(())
    }

    /// Adds the edge that hands `output_slot` of `output_node` to
    /// `input_slot` of `input_node`. Refused when one of the two is no node
    /// of the graph, when a slot is not declared, or when the input slot is
    /// filled already.
    pub fn add_slot_edge(
        &mut self,
        output_node: VoxelRenderLabel,
        output_slot: SlotName,
        input_node: VoxelRenderLabel,
        input_slot: SlotName,
    ) -> (result: Result<(), RenderGraphError>)
        ensures
            result == slot_edge_outcome(
                old(self)@,
                output_node,
                output_slot,
                input_node,
                input_slot,
            ),
            result.is_ok() ==> final(self)@.nodes == old(self)@.nodes && final(self)@.edges == old(
                self,
            )@.edges.push(Edge::SlotEdge { output_node, output_slot, input_node, input_slot }),
            result.is_err() ==> final(self)@ == old(self)@,
            old(self)@.well_formed() ==> final(self)@.well_formed(),
    {
        let from = match self.get_node(output_node) {
            Some(node) => node,
            None => {
                return Err(RenderGraphError::InvalidNode);
            },
        };
        let to = match self.get_node(input_node) {
            Some(node) => node,
            None => {
                return Err(RenderGraphError::InvalidNode);
            },
        };
        proof {
            if old(self)@.well_formed() {
                lemma_node_of_label(old(self)@, from);
                lemma_node_of_label(old(self)@, to);
            }
        }
        if !self.has_output(output_node, output_slot) {
            return Err(RenderGraphError::InvalidOutputNodeSlot);
        }
        if !self.has_input(input_node, input_slot) {
            return Err(RenderGraphError::InvalidInputNodeSlot);
        }
        if self.input_occupied(input_node, input_slot) {
            return Err(RenderGraphError::NodeInputSlotAlreadyOccupied);
        }
        let edge = Edge::SlotEdge { output_node, output_slot, input_node, input_slot };
        self.edges.push(edge);
        proof {
            if old(self)@.well_formed() {
                lemma_edge_added(old(self)@, edge);
            }
        }
        Ok(())
    }

    /// Whether a node of the given label declares the slot as an output.
    pub fn has_output(&self, label: VoxelRenderLabel, slot: SlotName) -> (found: bool)
        ensures
            found == self@.has_output(label, slot),
    {
        let mut i: usize = 0;
        while i < self.nodes.len()
            invariant
                i <= self@.nodes.len(),
                forall|k: int|
                    0 <= k < i ==> !((#[trigger] self@.nodes[k]).label == label
                        && self@.nodes[k].outputs.has(slot)),
            decreases self@.nodes.len() - i,
        {
            if self.nodes[i].label == label && self.nodes[i].outputs.contains(slot) {
                return true;
            }
            i += 1;
        }
        false
    }

    /// Whether a node of the given label declares the slot as an input.
    pub fn has_input(&self, label: VoxelRenderLabel, slot: SlotName) -> (found: bool)
        ensures
            found == self@.has_input(label, slot),
    {
        let mut i: usize = 0;
        while i < self.nodes.len()
            invariant
                i <= self@.nodes.len(),
                forall|k: int|
                    0 <= k < i ==> !((#[trigger] self@.nodes[k]).label == label
                        && self@.nodes[k].inputs.has(slot)),
            decreases self@.nodes.len() - i,
        {
            if self.nodes[i].label == label && self.nodes[i].inputs.contains(slot) {
                return true;
            }
            i += 1;
        }
        false
    }
}

/// What comes of adding an ordering edge to a graph.
pub open spec fn node_edge_outcome(
    graph: Topology,
    before: VoxelRenderLabel,
    after: VoxelRenderLabel,
) -> Result<(), RenderGraphError> {
    if !graph.has_node(before) || !graph.has_node(after) {
        Err(RenderGraphError::InvalidNode)
    } else if graph.has_edge(Edge::NodeEdge { before, after }) {
        Err(RenderGraphError::EdgeAlreadyExists)
    } else {
        Ok(())
    }
}

/// What comes of adding a slot edge to a graph.
pub open spec fn slot_edge_outcome(
    graph: Topology,
    output_node: VoxelRenderLabel,
    output_slot: SlotName,
    input_node: VoxelRenderLabel,
    input_slot: SlotName,
) -> Result<(), RenderGraphError> {
    if !graph.has_node(output_node) || !graph.has_node(input_node) {
        Err(RenderGraphError::InvalidNode)
    } else if !graph.has_output(output_node, output_slot) {
        Err(RenderGraphError::InvalidOutputNodeSlot)
    } else if !graph.has_input(input_node, input_slot) {
        Err(RenderGraphError::InvalidInputNodeSlot)
    } else if graph.occupied(input_node, input_slot) {
        Err(RenderGraphError::NodeInputSlotAlreadyOccupied)
    } else {
        Ok(())
    }
}

/// The graph has each of its nodes, with the slots that the node declares.
proof fn lemma_nodes_present(graph: Topology)
    ensures
        forall|i: int|
            0 <= i < graph.nodes.len() ==> graph.has_node((#[trigger] graph.nodes[i]).label),
        forall|i: int, slot: SlotName|
            0 <= i < graph.nodes.len() && (#[trigger] graph.nodes[i]).outputs.has(slot)
                ==> #[trigger] graph.has_output(graph.nodes[i].label, slot),
        forall|i: int, slot: SlotName|
            0 <= i < graph.nodes.len() && (#[trigger] graph.nodes[i]).inputs.has(slot)
                ==> #[trigger] graph.has_input(graph.nodes[i].label, slot),
{
}

/// A node of a graph makes the graph have its label.
proof fn lemma_node_of_label(graph: Topology, node: GraphNode)
    requires
        graph.nodes.contains(node),
    ensures
        graph.has_node(node.label),
{
    let i = choose|i: int| 0 <= i < graph.nodes.len() && graph.nodes[i] == node;
    assert(graph.nodes[i].label == node.label);
}

/// A well-formed graph stays so when a node of a new label is added.
proof fn lemma_node_added(graph: Topology, node: GraphNode)
    requires
        graph.well_formed(),
        !graph.has_node(node.label),
    ensures
        (Topology { nodes: graph.nodes.push(node), edges: graph.edges }).well_formed(),
{
    reveal(Topology::well_formed);
    let after = Topology { nodes: graph.nodes.push(node), edges: graph.edges };
    assert forall|label: VoxelRenderLabel| graph.has_node(label) implies after.has_node(
        label,
    ) by {
        let i = choose|i: int| 0 <= i < graph.nodes.len() && graph.nodes[i].label == label;
        assert(after.nodes[i].label == label);
    }
    assert forall|label: VoxelRenderLabel, slot: SlotName|
        graph.has_output(label, slot) implies after.has_output(label, slot) by {
        let i = choose|i: int|
            0 <= i < graph.nodes.len() && (#[trigger] graph.nodes[i]).label == label
                && graph.nodes[i].outputs.has(slot);
        assert(after.nodes[i] == graph.nodes[i]);
    }
    assert forall|label: VoxelRenderLabel, slot: SlotName|
        graph.has_input(label, slot) implies after.has_input(label, slot) by {
        let i = choose|i: int|
            0 <= i < graph.nodes.len() && (#[trigger] graph.nodes[i]).label == label
                && graph.nodes[i].inputs.has(slot);
        assert(after.nodes[i] == graph.nodes[i]);
    }
    assert forall|i: int, j: int| 0 <= i < j < after.nodes.len() implies (
    #[trigger] after.nodes[i]).label != (#[trigger] after.nodes[j]).label by {
        if j == graph.nodes.len() {
            assert(graph.nodes[i].label != node.label);
        } else {
            assert(after.nodes[i] == graph.nodes[i]);
            assert(after.nodes[j] == graph.nodes[j]);
        }
    }
}

/// A well-formed graph stays so when an edge is added that joins two of its
/// nodes, by slots that they declare, into an input slot that was free.
proof fn lemma_edge_added(graph: Topology, edge: Edge)
    requires
        graph.well_formed(),
        graph.has_node(edge.before()),
        graph.has_node(edge.after()),
        edge matches Edge::SlotEdge { output_node, output_slot, input_node, input_slot }
            ==> graph.has_output(output_node, output_slot) && graph.has_input(
            input_node,
            input_slot,
        ) && !graph.occupied(input_node, input_slot),
    ensures
        (Topology { nodes: graph.nodes, edges: graph.edges.push(edge) }).well_formed(),
{
    reveal(Topology::well_formed);
    let after = Topology { nodes: graph.nodes, edges: graph.edges.push(edge) };
    assert forall|label: VoxelRenderLabel| graph.has_node(label) == after.has_node(label) by {}
    assert forall|i: int| 0 <= i < after.edges.len() implies after.has_node(
        (#[trigger] after.edges[i]).before(),
    ) && after.has_node(after.edges[i].after()) by {
        if i < graph.edges.len() {
            assert(after.edges[i] == graph.edges[i]);
        }
    }
    assert forall|i: int| 0 <= i < after.edges.len() implies (
    #[trigger] after.edges[i] matches Edge::SlotEdge {
        output_node,
        output_slot,
        input_node,
        input_slot,
    } ==> after.has_output(output_node, output_slot) && after.has_input(
        input_node,
        input_slot,
    )) by {
        if i < graph.edges.len() {
            assert(after.edges[i] == graph.edges[i]);
        }
    }
    assert forall|i: int, j: int| 0 <= i < j < after.edges.len() implies !((
    #[trigger] after.edges[i]) matches Edge::SlotEdge { input_node, input_slot, .. } && (
    #[trigger] after.edges[j]).fills(input_node, input_slot)) by {
        assert(after.edges[i] == graph.edges[i]);
        if j < graph.edges.len() {
            assert(after.edges[j] == graph.edges[j]);
        } else {
            match after.edges[i] {
                Edge::SlotEdge { input_node, input_slot, .. } => {
                    if edge.fills(input_node, input_slot) {
                        assert(graph.edges[i].fills(input_node, input_slot));
                    }
                },
                Edge::NodeEdge { .. } => {},
            }
        }
    }
}

/// Which passes a frame submits to the device. A pass that is switched off
/// submits nothing and counts as done at once, so that what waits for it can
/// go on; the graph itself stays as it is.
#[derive(Clone, Copy, Debug, PartialEq, Eq, Structural)]
pub struct RenderGraphSettings {
    pub clear: bool,
    pub automata: bool,
    pub animation: bool,
    pub voxelization: bool,
    pub rebuild: bool,
    pub physics: bool,
    pub trace: bool,
}

impl Default for RenderGraphSettings {
    /// Every pass is switched on.
    fn default() -> (settings: RenderGraphSettings)
        ensures
            settings == (RenderGraphSettings {
                clear: true,
                automata: true,
                animation: true,
                voxelization: true,
                rebuild: true,
                physics: true,
                trace: true,
            }),
    {
        RenderGraphSettings {
            clear: true,
            automata: true,
            animation: true,
            voxelization: true,
            rebuild: true,
            physics: true,
            trace: true,
        }
    }
}

impl RenderGraphSettings {
    /// Whether the pass submits work: as its switch says, and always for a
    /// pass that has no switch.
    pub open spec fn enables(self, label: VoxelRenderLabel) -> bool {
        match label {
            VoxelRenderLabel::Clear => self.clear,
            VoxelRenderLabel::Automata => self.automata,
            VoxelRenderLabel::Animation => self.animation,
            VoxelRenderLabel::Rebuild => self.rebuild,
            VoxelRenderLabel::Physics => self.physics,
            VoxelRenderLabel::Trace => self.trace,
            _ => true,
        }
    }

    pub fn is_enabled(&self, label: VoxelRenderLabel) -> (enabled: bool)
        ensures
            enabled == self.enables(label),
    {
        match label {
            VoxelRenderLabel::Clear => self.clear,
            VoxelRenderLabel::Automata => self.automata,
            VoxelRenderLabel::Animation => self.animation,
            VoxelRenderLabel::Rebuild => self.rebuild,
            VoxelRenderLabel::Physics => self.physics,
            VoxelRenderLabel::Trace => self.trace,
            _ => true,
        }
    }
}

/// A node that takes and fills no slot.
pub open spec fn plain_node(label: VoxelRenderLabel) -> GraphNode {
    GraphNode {
        label,
        inputs: Slots { normal: false, position: false },
        outputs: Slots { normal: false, position: false },
    }
}

/// The graph that is run once for every camera: the screen-space
/// attachments feed the trace, whose picture is then tone mapped,
/// anti-aliased, overlaid with the user interface and scaled to the window;
/// before the trace, the grid is rebuilt and the physics are simulated.
pub open spec fn voxel_topology() -> Topology {
    Topology {
        nodes: seq![
            GraphNode {
                label: VoxelRenderLabel::Attachments,
                inputs: Slots { normal: false, position: false },
                outputs: Slots { normal: true, position: true },
            },
            GraphNode {
                label: VoxelRenderLabel::Trace,
                inputs: Slots { normal: true, position: true },
                outputs: Slots { normal: false, position: false },
            },
            plain_node(VoxelRenderLabel::Tonemapping),
            plain_node(VoxelRenderLabel::FXAA),
            plain_node(VoxelRenderLabel::UI),
            plain_node(VoxelRenderLabel::Upscaling),
            plain_node(VoxelRenderLabel::Rebuild),
            plain_node(VoxelRenderLabel::Physics),
        ],
        edges: seq![
            Edge::NodeEdge {
                before: VoxelRenderLabel::Trace,
                after: VoxelRenderLabel::Tonemapping,
            },
            Edge::NodeEdge {
                before: VoxelRenderLabel::Tonemapping,
                after: VoxelRenderLabel::FXAA,
            },
            Edge::NodeEdge { before: VoxelRenderLabel::FXAA, after: VoxelRenderLabel::UI },
            Edge::NodeEdge { before: VoxelRenderLabel::UI, after: VoxelRenderLabel::Upscaling },
            Edge::SlotEdge {
                output_node: VoxelRenderLabel::Attachments,
                output_slot: SlotName::Normal,
                input_node: VoxelRenderLabel::Trace,
                input_slot: SlotName::Normal,
            },
            Edge::SlotEdge {
                output_node: VoxelRenderLabel::Attachments,
                output_slot: SlotName::Position,
                input_node: VoxelRenderLabel::Trace,
                input_slot: SlotName::Position,
            },
            Edge::NodeEdge {
                before: VoxelRenderLabel::Rebuild,
                after: VoxelRenderLabel::Physics,
            },
            Edge::NodeEdge { before: VoxelRenderLabel::Physics, after: VoxelRenderLabel::Trace },
        ],
    }
}

/// The graph that is run once a frame, whatever the cameras: the grid is
/// cleared, the automata step, the animation is written, and then the
/// cameras are driven.
pub open spec fn main_topology() -> Topology {
    Topology {
        nodes: seq![
            plain_node(VoxelRenderLabel::CameraDriver),
            plain_node(VoxelRenderLabel::Clear),
            plain_node(VoxelRenderLabel::Automata),
            plain_node(VoxelRenderLabel::Animation),
        ],
        edges: seq![
            Edge::NodeEdge { before: VoxelRenderLabel::Clear, after: VoxelRenderLabel::Automata },
            Edge::NodeEdge {
                before: VoxelRenderLabel::Automata,
                after: VoxelRenderLabel::Animation,
            },
            Edge::NodeEdge {
                before: VoxelRenderLabel::Animation,
                after: VoxelRenderLabel::CameraDriver,
            },
        ],
    }
}

fn plain(label: VoxelRenderLabel) -> (node: GraphNode)
    ensures
        node == plain_node(label),
{
    GraphNode { label, inputs: Slots::none(), outputs: Slots::none() }
}

/// Builds the graph of one camera.
pub fn voxel_graph() -> (graph: RenderGraph)
    ensures
        graph@ == voxel_topology(),
        graph@.well_formed(),
{
    let mut graph = RenderGraph::new();
    let _ = graph.add_node(
        GraphNode {
            label: VoxelRenderLabel::Attachments,
            inputs: Slots::none(),
            outputs: Slots::attachments(),
        },
    );
    let _ = graph.add_node(
        GraphNode {
            label: VoxelRenderLabel::Trace,
            inputs: Slots::attachments(),
            outputs: Slots::none(),
        },
    );
    let _ = graph.add_node(plain(VoxelRenderLabel::Tonemapping));
    let _ = graph.add_node(plain(VoxelRenderLabel::FXAA));
    let _ = graph.add_node(plain(VoxelRenderLabel::UI));
    let _ = graph.add_node(plain(VoxelRenderLabel::Upscaling));
    assert(graph@.nodes =~= voxel_topology().nodes.take(6));
    proof {
        lemma_nodes_present(graph@);
        assert(graph@.nodes[0].label == VoxelRenderLabel::Attachments);
        assert(graph@.nodes[1].label == VoxelRenderLabel::Trace);
        assert(graph@.nodes[2].label == VoxelRenderLabel::Tonemapping);
        assert(graph@.nodes[3].label == VoxelRenderLabel::FXAA);
        assert(graph@.nodes[4].label == VoxelRenderLabel::UI);
        assert(graph@.nodes[5].label == VoxelRenderLabel::Upscaling);
        assert(graph@.has_output(VoxelRenderLabel::Attachments, SlotName::Normal));
        assert(graph@.has_output(VoxelRenderLabel::Attachments, SlotName::Position));
        assert(graph@.has_input(VoxelRenderLabel::Trace, SlotName::Normal));
        assert(graph@.has_input(VoxelRenderLabel::Trace, SlotName::Position));
    }

    let _ = graph.add_node_edge(VoxelRenderLabel::Trace, VoxelRenderLabel::Tonemapping);
    let _ = graph.add_node_edge(VoxelRenderLabel::Tonemapping, VoxelRenderLabel::FXAA);
    let _ = graph.add_node_edge(VoxelRenderLabel::FXAA, VoxelRenderLabel::UI);
    let _ = graph.add_node_edge(VoxelRenderLabel::UI, VoxelRenderLabel::Upscaling);
    assert(graph@.edges =~= voxel_topology().edges.take(4));

    let _ = graph.add_slot_edge(
        VoxelRenderLabel::Attachments,
        SlotName::Normal,
        VoxelRenderLabel::Trace,
        SlotName::Normal,
    );
    let _ = graph.add_slot_edge(
        VoxelRenderLabel::Attachments,
        SlotName::Position,
        VoxelRenderLabel::Trace,
        SlotName::Position,
    );
    assert(graph@.edges =~= voxel_topology().edges.take(6));

    let _ = graph.add_node(plain(VoxelRenderLabel::Rebuild));
    let _ = graph.add_node(plain(VoxelRenderLabel::Physics));
    assert(graph@.nodes =~= voxel_topology().nodes);
    proof {
        lemma_nodes_present(graph@);
        assert(graph@.nodes[1].label == VoxelRenderLabel::Trace);
        assert(graph@.nodes[6].label == VoxelRenderLabel::Rebuild);
        assert(graph@.nodes[7].label == VoxelRenderLabel::Physics);
    }

    let _ = graph.add_node_edge(VoxelRenderLabel::Rebuild, VoxelRenderLabel::Physics);
    let _ = graph.add_node_edge(VoxelRenderLabel::Physics, VoxelRenderLabel::Trace);
    assert(graph@.edges =~= voxel_topology().edges);
    graph
}

/// Builds the graph of a frame.
pub fn main_graph() -> (graph: RenderGraph)
    ensures
        graph@ == main_topology(),
        graph@.well_formed(),
{
    let mut graph = RenderGraph::new();
    let _ = graph.add_node(plain(VoxelRenderLabel::CameraDriver));
    let _ = graph.add_node(plain(VoxelRenderLabel::Clear));
    let _ = graph.add_node(plain(VoxelRenderLabel::Automata));
    let _ = graph.add_node(plain(VoxelRenderLabel::Animation));
    assert(graph@.nodes =~= main_topology().nodes);
    proof {
        lemma_nodes_present(graph@);
        assert(graph@.nodes[0].label == VoxelRenderLabel::CameraDriver);
        assert(graph@.nodes[1].label == VoxelRenderLabel::Clear);
        assert(graph@.nodes[2].label == VoxelRenderLabel::Automata);
        assert(graph@.nodes[3].label == VoxelRenderLabel::Animation);
    }

    let _ = graph.add_node_edge(VoxelRenderLabel::Clear, VoxelRenderLabel::Automata);
    let _ = graph.add_node_edge(VoxelRenderLabel::Automata, VoxelRenderLabel::Animation);
    let _ = graph.add_node_edge(VoxelRenderLabel::Animation, VoxelRenderLabel::CameraDriver);
    assert(graph@.edges =~= main_topology().edges);
    graph
}

} // verus!
