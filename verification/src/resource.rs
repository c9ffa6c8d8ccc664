//! Declared GPU resources.
//!
//! Each resource a scene uses is declared by id in the descriptor: a raw or
//! vertex buffer, a camera, a shader module, a shadertoy-style wrapped
//! fragment shader, or a uniform block packed from settings. Float data is
//! held as IEEE-754 single-precision bit patterns.

use vstd::prelude::*;

verus! {

/// One declared resource.
#[derive(Clone, Debug)]
pub enum Resource {
    Buffer {
        label: Option<String>,
        size: Option<usize>,
        storage: Option<BufferStorage>,
        vertex: Option<BufferVertex>,
        vertices: Option<Vec<Vec<u32>>>,
    },
    Camera { projection: CameraProjection, position: [u32; 3], look_at: [u32; 3] },
    Shader {
        src: String,
        label: Option<String>,
        main: Option<String>,
        format: Option<ShaderFormat>,
        stage: Option<ShaderStage>,
        vertex_main: Option<String>,
        fragment_main: Option<String>,
    },
    ShaderToy { src: String, label: Option<String> },
    Uniform { label: Option<String>, values: Vec<String> },
}

/// Marks a buffer as GPU storage, readable or read-write from shaders.
#[derive(Clone, Debug)]
pub struct BufferStorage {
    pub storage_type: BufferStorageType,
}

#[derive(Clone, Copy, Debug, PartialEq, Eq, Structural)]
pub enum BufferStorageType {
    Read,
    ReadWrite,
}

/// The vertex layout of a buffer: its stride, step mode and attributes.
#[derive(Clone, Debug)]
pub struct BufferVertex {
    pub stride: usize,
    pub step: Option<BufferVertexStep>,
    pub attributes: Vec<BufferVertexAttribute>,
}

#[derive(Clone, Copy, Debug, PartialEq, Eq, Structural)]
pub enum BufferVertexStep {
    Vertex,
    Instance,
}

#[derive(Clone, Copy, Debug, PartialEq, Eq, Structural)]
pub struct BufferVertexAttribute {
    pub offset: usize,
    pub location: usize,
    pub format: BufferVertexAttributeFormat,
}

#[derive(Clone, Copy, Debug, PartialEq, Eq, Structural)]
pub enum BufferVertexAttributeFormat {
    Float32x2,
    Float32x3,
}

#[derive(Clone, Copy, Debug, PartialEq, Eq, Structural)]
pub enum CameraProjection {
    Perspective,
    Orthographic,
}

#[derive(Clone, Copy, Debug, PartialEq, Eq, Structural)]
pub enum ShaderFormat {
    Wgsl,
    Glsl,
    Spirv,
}

#[derive(Clone, Copy, Debug, PartialEq, Eq, Structural)]
pub enum ShaderStage {
    Vertex,
    Fragment,
    Compute,
}

} // verus!
