//! Host-side core of a GPU voxel engine: the tagged word buffers that carry
//! scene objects and physics bodies to the device, the read-back of simulated
//! bodies one frame later, and the topology of the per-frame pass graph.

pub mod animation;
pub mod components;
pub mod graph;
pub mod math;
pub mod objects;
pub mod physics;
pub mod schedule;
pub mod trace;
pub mod type_buffer;

pub use animation::{
    extract_animation_data, world_to_voxel, ExtractedAnimationData, ExtractedPortal, PlacedBox,
    PlacedEdges, PlacedParticle, PlacedPortal, PortalPair, VOXELS_PER_METER,
};
pub use components::{Box, BoxCollider, Edges, Particle, Portal, Velocity};
pub use graph::{RenderGraph, RenderGraphSettings, VoxelRenderLabel};
pub use physics::{
    extract_physics_data, insert_physics_data, ExtractedPhysicsData, PhysicsBody, ReadbackError,
};
pub use trace::{TraceAction, TraceError, TraceInputs, TraceNode};
pub use type_buffer::{CapacityError, TypeBuffer};
