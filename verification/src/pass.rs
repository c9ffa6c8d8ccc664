//! Declared render and compute passes.
//!
//! A scene executes its passes in declared order every frame: compute passes
//! dispatch fixed workgroup counts, render passes draw into the target view,
//! and shadertoy passes draw a full-screen quad with an implicit binding of
//! the shadertoy uniform.

use crate::resource::BufferVertex;
use vstd::prelude::*;

verus! {

/// One declared pass.
#[derive(Clone, Debug)]
pub enum RenderPass {
    Compute { label: Option<String>, pipeline: ComputePipeline, workgroups: [u32; 3] },
    Render {
        label: Option<String>,
        pipeline: RenderPipeline,
        clear: Option<RenderClear>,
        draw: Vec<RenderDraw>,
    },
    ShaderToy { label: Option<String>, source: String, bindings: Option<Vec<String>> },
}

/// The shader and bindings of a compute pass.
#[derive(Clone, Debug)]
pub struct ComputePipeline {
    pub shader: String,
    pub bindings: Vec<String>,
}

/// The shaders, bindings and fixed-function state of a render pass.
#[derive(Clone, Debug)]
pub struct RenderPipeline {
    pub shader_vertex: String,
    pub bindings: Option<Vec<String>>,
    pub bindings_visibility: Option<Vec<RenderPipelineBindingVisibility>>,
    pub shader_fragment: Option<String>,
    pub topology: RenderPipelineTopology,
    pub polygon_mode: RenderPipelinePolygonMode,
    pub front_face: RenderPipelineFrontFace,
    pub cull_mode: RenderPipelineCullMode,
    pub vertex: Option<BufferVertex>,
}

/// Which shader stages see a binding.
#[derive(Clone, Copy, Debug, PartialEq, Eq, Structural)]
pub enum RenderPipelineBindingVisibility {
    Unused,
    Vertex,
    Fragment,
    VertexFragment,
    Compute,
}

#[derive(Clone, Copy, Debug, PartialEq, Eq, Structural)]
pub enum RenderPipelineTopology {
    PointList,
    LineList,
    LineStrip,
    TriangleList,
    TriangleStrip,
}

#[derive(Clone, Copy, Debug, PartialEq, Eq, Structural)]
pub enum RenderPipelinePolygonMode {
    Fill,
    Line,
    Point,
}

#[derive(Clone, Copy, Debug, PartialEq, Eq, Structural)]
pub enum RenderPipelineFrontFace {
    Ccw,
    Cw,
}

#[derive(Clone, Copy, Debug, PartialEq, Eq, Structural)]
pub enum RenderPipelineCullMode {
    Front,
    Back,
    Disabled,
}

/// The declared clear behaviour of a render pass. Declared but not yet
/// consulted by the frame planner, which always clears to black.
#[derive(Clone, Debug)]
pub struct RenderClear {
    pub colour: Option<String>,
    pub depth_stencil: Option<()>,
}

/// One draw call of a render pass: an optional vertex buffer (whose derived
/// vertex count then wins), an explicit vertex count, and an instance count
/// that defaults to one.
#[derive(Clone, Debug)]
pub struct RenderDraw {
    pub vertex_buffer: Option<String>,
    pub vertex_count: Option<u32>,
    pub instances: Option<u32>,
}

} // verus!
