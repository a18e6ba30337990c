//! The trace pass: what it does in a frame, given what the camera and the
//! graph have ready for it.

use crate::graph::{RenderGraphSettings, SlotName, Slots};
use vstd::prelude::*;

verus! {

/// What the trace pass finds when it is run for a camera.
#[derive(Clone, Copy, Debug, PartialEq, Eq, Structural)]
pub struct TraceInputs {
    /// The camera has a render target and the uniform buffer of the trace.
    pub camera_ready: bool,
    /// The render pipeline of the trace is compiled.
    pub pipeline_ready: bool,
    /// The graph has filled the input slots with textures.
    pub filled: Slots,
}

/// What the trace pass does in a frame.
#[derive(Clone, Copy, Debug, PartialEq, Eq, Structural)]
pub enum TraceAction {
    /// Nothing is submitted: the pass is switched off, or its pipeline is
    /// still being compiled and the next frame tries again.
    Skip,
    /// One render pass into the camera's target that draws the given number
    /// of vertices once: a triangle that covers the screen.
    Draw { vertices: u32, instances: u32 },
}

/// Why the trace pass could not run for a camera.
#[derive(Clone, Copy, Debug, PartialEq, Eq, Structural)]
pub enum TraceError {
    /// The camera lacks the render target or the uniform buffer.
    MissingCameraComponents,
    /// The graph has not filled the input slot.
    MissingInput(SlotName),
}

/// What the trace pass does, case by case: nothing when it is switched off,
/// whatever else holds; an error when the camera is not fit for it; nothing
/// while the pipeline is not compiled; an error when an input slot is empty,
/// the normal before the position; else one draw of three vertices.
pub open spec fn trace_outcome(settings: RenderGraphSettings, inputs: TraceInputs) -> Result<
    TraceAction,
    TraceError,
> {
    if !settings.trace {
        Ok(TraceAction::Skip)
    } else if !inputs.camera_ready {
        Err(TraceError::MissingCameraComponents)
    } else if !inputs.pipeline_ready {
        Ok(TraceAction::Skip)
    } else if !inputs.filled.normal {
        Err(TraceError::MissingInput(SlotName::Normal))
    } else if !inputs.filled.position {
        Err(TraceError::MissingInput(SlotName::Position))
    } else {
        Ok(TraceAction::Draw { vertices: 3, instances: 1 })
    }
}

/// The pass that traces the voxel grid into the camera's picture.
#[derive(Clone, Copy, Debug, PartialEq, Eq, Structural)]
pub struct TraceNode;

impl TraceNode {
    pub fn new() -> (node: TraceNode) {
        TraceNode
    }

    /// The slots that the pass takes: the normal and the position texture.
    pub fn input(&self) -> (slots: Slots)
        ensures
            slots == (Slots { normal: true, position: true }),
    {
        Slots::attachments()
    }

    /// Decides what the pass does for one camera in one frame. A camera
    /// that is not fit for the trace is reported to the caller, who goes on
    /// with the other cameras.
    pub fn run(&self, settings: &RenderGraphSettings, inputs: &TraceInputs) -> (result: Result<
        TraceAction,
        TraceError,
    >)
        ensures
            result == trace_outcome(*settings, *inputs),
    {
        if !settings.trace {
            return Ok(TraceAction::Skip);
        }
        if !inputs.camera_ready {
            return Err(TraceError::MissingCameraComponents);
        }
        if !inputs.pipeline_ready {
            return Ok(TraceAction::Skip);
        }
        if !inputs.filled.contains(SlotName::Normal) {
            return Err(TraceError::MissingInput(SlotName::Normal));
        }
        if !inputs.filled.contains(SlotName::Position) {
            return Err(TraceError::MissingInput(SlotName::Position));
        }
        Ok(TraceAction::Draw { vertices: 3, instances: 1 })
    }
}

} // verus!
