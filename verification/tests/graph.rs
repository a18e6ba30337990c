use bevy_voxel_engine::graph::{
    main_graph, voxel_graph, Edge, GraphNode, RenderGraph, RenderGraphError, RenderGraphSettings,
    SlotName, Slots, VoxelRenderLabel,
};
use bevy_voxel_engine::schedule::{frame_steps, Step};
use bevy_voxel_engine::trace::{TraceAction, TraceError, TraceInputs, TraceNode};

use VoxelRenderLabel::{
    Animation, Attachments, Automata, CameraDriver, Clear, Physics, Rebuild, Tonemapping, Trace,
    Upscaling, FXAA, UI,
};

fn plain(label: VoxelRenderLabel) -> GraphNode {
    GraphNode { label, inputs: Slots::none(), outputs: Slots::none() }
}

fn position(order: &[VoxelRenderLabel], label: VoxelRenderLabel) -> usize {
    order.iter().position(|l| *l == label).unwrap()
}

#[test]
fn settings_switch_every_pass_on_by_default() {
    let settings = RenderGraphSettings::default();
    assert!(settings.clear && settings.automata && settings.animation);
    assert!(settings.voxelization && settings.rebuild && settings.physics && settings.trace);
    for label in [Clear, Automata, Animation, Rebuild, Physics, Trace, Attachments, UI] {
        assert!(settings.is_enabled(label));
    }
}

#[test]
fn a_switch_turns_off_its_own_pass_only() {
    let settings = RenderGraphSettings { physics: false, voxelization: false, ..Default::default() };
    assert!(!settings.is_enabled(Physics));
    for label in [Clear, Automata, Animation, Rebuild, Trace, Attachments, Tonemapping, FXAA, UI, Upscaling, CameraDriver] {
        assert!(settings.is_enabled(label));
    }
    let off = RenderGraphSettings {
        clear: false, automata: false, animation: false, voxelization: false,
        rebuild: false, physics: false, trace: false,
    };
    for label in [Clear, Automata, Animation, Rebuild, Physics, Trace] {
        assert!(!off.is_enabled(label));
    }
    for label in [Attachments, Tonemapping, FXAA, UI, Upscaling, CameraDriver] {
        assert!(off.is_enabled(label));
    }
}

#[test]
fn the_voxel_graph_has_its_nodes_and_edges() {
    let graph = voxel_graph();
    let labels: Vec<VoxelRenderLabel> = graph.nodes().iter().map(|n| n.label).collect();
    assert_eq!(labels, vec![Attachments, Trace, Tonemapping, FXAA, UI, Upscaling, Rebuild, Physics]);
    assert_eq!(graph.edges().len(), 8);
    assert!(graph.has_edge(&Edge::NodeEdge { before: Physics, after: Trace }));
    assert!(graph.has_edge(&Edge::NodeEdge { before: Rebuild, after: Physics }));
    assert!(!graph.has_edge(&Edge::NodeEdge { before: Trace, after: Physics }));
    assert!(graph.has_edge(&Edge::SlotEdge {
        output_node: Attachments, output_slot: SlotName::Normal,
        input_node: Trace, input_slot: SlotName::Normal,
    }));
    assert!(graph.has_output(Attachments, SlotName::Position));
    assert!(!graph.has_output(Trace, SlotName::Position));
    assert!(graph.has_input(Trace, SlotName::Normal));
    assert!(graph.input_occupied(Trace, SlotName::Normal));
    assert!(graph.input_occupied(Trace, SlotName::Position));
    assert!(!graph.input_occupied(Attachments, SlotName::Normal));
    assert_eq!(graph.get_node(Trace).unwrap().inputs, TraceNode::new().input());
    assert_eq!(graph.get_node(Clear), None);
}

#[test]
fn the_voxel_graph_runs_compute_before_the_trace() {
    let order = voxel_graph().schedule().unwrap();
    assert_eq!(order, vec![Attachments, Rebuild, Physics, Trace, Tonemapping, FXAA, UI, Upscaling]);
}

#[test]
fn the_main_graph_ends_with_the_cameras() {
    let graph = main_graph();
    assert_eq!(graph.nodes().len(), 4);
    assert_eq!(graph.edges().len(), 3);
    assert_eq!(graph.schedule().unwrap(), vec![Clear, Automata, Animation, CameraDriver]);
}

#[test]
fn a_schedule_respects_every_edge() {
    for graph in [voxel_graph(), main_graph()] {
        let order = graph.schedule().unwrap();
        assert_eq!(order.len(), graph.nodes().len());
        for node in graph.nodes() {
            assert_eq!(order.iter().filter(|l| **l == node.label).count(), 1);
        }
        for edge in graph.edges() {
            assert!(position(&order, edge.source()) < position(&order, edge.target()));
        }
    }
}

#[test]
fn a_pass_that_is_switched_off_keeps_its_place() {
    let order = voxel_graph().schedule().unwrap();
    let all_on = frame_steps(&order, &RenderGraphSettings::default());
    assert!(all_on.iter().all(|s| s.submit));
    let settings = RenderGraphSettings { physics: false, trace: false, ..Default::default() };
    let steps = frame_steps(&order, &settings);
    let labels: Vec<VoxelRenderLabel> = steps.iter().map(|s| s.label).collect();
    assert_eq!(labels, order);
    assert_eq!(steps[2], Step { label: Physics, submit: false });
    assert_eq!(steps[3], Step { label: Trace, submit: false });
    assert_eq!(steps[1], Step { label: Rebuild, submit: true });
    assert_eq!(steps[4], Step { label: Tonemapping, submit: true });
    assert!(frame_steps(&Vec::new(), &settings).is_empty());
}

#[test]
fn a_node_is_added_once() {
    let mut graph = RenderGraph::new();
    assert_eq!(graph.add_node(plain(Clear)), Ok(()));
    assert_eq!(graph.add_node(plain(Clear)), Err(RenderGraphError::NodeAlreadyExists));
    assert_eq!(
        graph.add_node(GraphNode { label: Clear, inputs: Slots::attachments(), outputs: Slots::none() }),
        Err(RenderGraphError::NodeAlreadyExists)
    );
    assert_eq!(graph.nodes().len(), 1);
}

#[test]
fn an_edge_needs_both_its_nodes_and_is_added_once() {
    let mut graph = RenderGraph::new();
    graph.add_node(plain(Clear)).unwrap();
    assert_eq!(graph.add_node_edge(Clear, Automata), Err(RenderGraphError::InvalidNode));
    assert_eq!(graph.add_node_edge(Automata, Clear), Err(RenderGraphError::InvalidNode));
    graph.add_node(plain(Automata)).unwrap();
    assert_eq!(graph.add_node_edge(Clear, Automata), Ok(()));
    assert_eq!(graph.add_node_edge(Clear, Automata), Err(RenderGraphError::EdgeAlreadyExists));
    assert_eq!(graph.edges().len(), 1);
    assert_eq!(graph.edges()[0].source(), Clear);
    assert_eq!(graph.edges()[0].target(), Automata);
}

#[test]
fn a_slot_edge_needs_declared_and_free_slots() {
    let mut graph = RenderGraph::new();
    graph
        .add_node(GraphNode {
            label: Attachments,
            inputs: Slots::none(),
            outputs: Slots { normal: true, position: false },
        })
        .unwrap();
    assert_eq!(
        graph.add_slot_edge(Attachments, SlotName::Normal, Trace, SlotName::Normal),
        Err(RenderGraphError::InvalidNode)
    );
    graph
        .add_node(GraphNode {
            label: Trace,
            inputs: Slots { normal: true, position: false },
            outputs: Slots::none(),
        })
        .unwrap();
    assert_eq!(
        graph.add_slot_edge(Attachments, SlotName::Position, Trace, SlotName::Normal),
        Err(RenderGraphError::InvalidOutputNodeSlot)
    );
    assert_eq!(
        graph.add_slot_edge(Attachments, SlotName::Normal, Trace, SlotName::Position),
        Err(RenderGraphError::InvalidInputNodeSlot)
    );
    assert_eq!(graph.add_slot_edge(Attachments, SlotName::Normal, Trace, SlotName::Normal), Ok(()));
    assert_eq!(
        graph.add_slot_edge(Attachments, SlotName::Normal, Trace, SlotName::Normal),
        Err(RenderGraphError::NodeInputSlotAlreadyOccupied)
    );
    assert_eq!(graph.edges().len(), 1);
    assert_eq!(graph.schedule(), Some(vec![Attachments, Trace]));
}

#[test]
fn a_circle_has_no_schedule() {
    let mut graph = RenderGraph::new();
    for label in [Clear, Automata, Animation] {
        graph.add_node(plain(label)).unwrap();
    }
    graph.add_node_edge(Clear, Automata).unwrap();
    graph.add_node_edge(Automata, Animation).unwrap();
    assert_eq!(graph.schedule(), Some(vec![Clear, Automata, Animation]));
    graph.add_node_edge(Animation, Automata).unwrap();
    assert_eq!(graph.schedule(), None);
    let mut own = RenderGraph::new();
    own.add_node(plain(Clear)).unwrap();
    own.add_node_edge(Clear, Clear).unwrap();
    assert_eq!(own.schedule(), None);
    assert_eq!(RenderGraph::new().schedule(), Some(Vec::new()));
}

#[test]
fn among_ready_passes_the_one_added_first_comes_next() {
    let mut graph = RenderGraph::new();
    for label in [Trace, Physics, Rebuild, Clear] {
        graph.add_node(plain(label)).unwrap();
    }
    graph.add_node_edge(Rebuild, Trace).unwrap();
    assert_eq!(graph.schedule(), Some(vec![Physics, Rebuild, Trace, Clear]));
}

#[test]
fn the_trace_is_skipped_when_switched_off() {
    let node = TraceNode::new();
    let off = RenderGraphSettings { trace: false, ..Default::default() };
    let nothing = TraceInputs { camera_ready: false, pipeline_ready: false, filled: Slots::none() };
    let all = TraceInputs { camera_ready: true, pipeline_ready: true, filled: Slots::attachments() };
    assert_eq!(node.run(&off, &nothing), Ok(TraceAction::Skip));
    assert_eq!(node.run(&off, &all), Ok(TraceAction::Skip));
}

#[test]
fn a_camera_without_its_components_is_an_error_not_an_exit() {
    let node = TraceNode::new();
    let on = RenderGraphSettings::default();
    let inputs = TraceInputs { camera_ready: false, pipeline_ready: true, filled: Slots::attachments() };
    assert_eq!(node.run(&on, &inputs), Err(TraceError::MissingCameraComponents));
    let inputs = TraceInputs { camera_ready: false, pipeline_ready: false, filled: Slots::none() };
    assert_eq!(node.run(&on, &inputs), Err(TraceError::MissingCameraComponents));
}

#[test]
fn a_pipeline_that_is_not_compiled_yet_skips_the_frame() {
    let node = TraceNode::new();
    let on = RenderGraphSettings::default();
    let inputs = TraceInputs { camera_ready: true, pipeline_ready: false, filled: Slots::none() };
    assert_eq!(node.run(&on, &inputs), Ok(TraceAction::Skip));
}

#[test]
fn an_empty_input_slot_is_an_error() {
    let node = TraceNode::new();
    let on = RenderGraphSettings::default();
    let mut inputs = TraceInputs { camera_ready: true, pipeline_ready: true, filled: Slots::none() };
    assert_eq!(node.run(&on, &inputs), Err(TraceError::MissingInput(SlotName::Normal)));
    inputs.filled = Slots { normal: false, position: true };
    assert_eq!(node.run(&on, &inputs), Err(TraceError::MissingInput(SlotName::Normal)));
    inputs.filled = Slots { normal: true, position: false };
    assert_eq!(node.run(&on, &inputs), Err(TraceError::MissingInput(SlotName::Position)));
}

#[test]
fn the_trace_draws_one_triangle() {
    let node = TraceNode::new();
    let inputs = TraceInputs { camera_ready: true, pipeline_ready: true, filled: Slots::attachments() };
    assert_eq!(
        node.run(&RenderGraphSettings::default(), &inputs),
        Ok(TraceAction::Draw { vertices: 3, instances: 1 })
    );
    assert!(node.input().contains(SlotName::Normal));
    assert!(node.input().contains(SlotName::Position));
}
