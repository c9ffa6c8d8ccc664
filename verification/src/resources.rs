//! The scene resource compiler and frame planner.
//!
//! Compiling a scene walks its declared resources in order, validating every
//! cross-reference and computing the byte layout of each setting-backed
//! uniform block, then builds one pipeline plan per declared pass. The
//! result owns no GPU objects: it is the complete, validated plan — buffer
//! sizes and initial contents, shader sources and entry points, binding
//! classifications, draw lists — that a host executes against its own
//! device. Setting updates patch uniform bytes in place and mark the buffer
//! dirty; planning a frame drains the dirty set into one upload per buffer.

use crate::buffer::{ShaderToy, Time};
use crate::pass::{
    RenderClear, RenderDraw, RenderPass, RenderPipelineBindingVisibility, RenderPipelineCullMode,
    RenderPipelineFrontFace, RenderPipelinePolygonMode, RenderPipelineTopology,
};
use crate::resource::{
    BufferStorage, BufferStorageType, BufferVertex, BufferVertexAttribute,
    BufferVertexAttributeFormat, BufferVertexStep, CameraProjection, Resource, ShaderFormat,
    ShaderStage,
};
use crate::scene::Scene;
use crate::setting::SettingValue;
use crate::settings::{same_variant, Settings};
use crate::util::{seq_get, DeserializableMap};
use vstd::string::{StrSliceExecFns, StringSliceAdditionalSpecFns};
use vstd::prelude::*;

verus! {

/// Failure to compile a scene's resources or passes.
#[derive(Debug)]
pub enum ResourceError {
    /// A shader source file is not valid UTF-8.
    InvalidShaderUtf8 { id: String },
    /// A resource's own declaration is inconsistent.
    InvalidResource { id: String, reason: String },
    /// A reference names a resource of the wrong kind.
    IncorrectResource { id: String, expected: String, actual: String },
    /// A reference names no declared resource.
    MissingResource { id: String },
    /// A uniform block references a setting key the settings do not hold.
    MissingSetting { id: String },
}

/// How a compiled buffer is created and first filled.
#[derive(Debug)]
pub enum BufferInit {
    /// Allocated at `size` bytes, zero-filled.
    Zeroed { size: usize },
    /// Allocated at the data's length and uploaded once.
    Data { data: Vec<u8> },
    /// Allocated at `size` bytes and filled by the host from the camera
    /// resource of the same id: a projection and a view matrix of sixteen
    /// 32-bit floats each.
    CameraMatrix { size: usize },
}

/// The usage a compiled buffer is created with.
#[derive(Clone, Copy, Debug, PartialEq, Eq, Structural)]
pub struct BufferUsage {
    pub uniform: bool,
    pub storage: bool,
    pub vertex: bool,
    pub copy_dst: bool,
}

/// One compiled buffer: its creation plan plus the vertex and storage
/// annotations passes consult.
#[derive(Debug)]
pub struct BufferResource {
    pub label: Option<String>,
    pub init: BufferInit,
    pub usage: BufferUsage,
    pub vertex: Option<BufferVertex>,
    pub vertex_count: Option<u32>,
    pub storage: Option<BufferStorage>,
}

/// One compiled camera: the parameters the host turns into matrices.
#[derive(Debug)]
pub struct CameraResource {
    pub projection: CameraProjection,
    pub position: [u32; 3],
    pub look_at: [u32; 3],
    pub width: u32,
    pub height: u32,
}

/// One compiled shader module: the final source text and its entry points.
#[derive(Debug)]
pub struct ShaderResource {
    pub label: Option<String>,
    pub source: Vec<u8>,
    pub format: ShaderFormat,
    pub stage: Option<ShaderStage>,
    pub entry: Option<String>,
    pub vertex_entry: Option<String>,
    pub fragment_entry: Option<String>,
}

/// One compiled uniform block: the reserved built-ins, or a custom block
/// whose bytes mirror the GPU buffer and whose offsets place each setting.
#[derive(Debug)]
pub enum UniformResource {
    Custom { content: Vec<u8>, offsets: DeserializableMap<usize> },
    Internal,
}

/// How one binding of a pass reaches its buffer.
#[derive(Clone, Copy, Debug, PartialEq, Eq, Structural)]
pub enum BindingType {
    Uniform,
    Storage { read_only: bool },
}

/// One classified binding of a pass.
#[derive(Debug)]
pub struct BindingEntry {
    pub id: String,
    pub binding_type: BindingType,
    pub visibility: RenderPipelineBindingVisibility,
}

/// One compiled pass, ready for a host to realize as a pipeline.
#[derive(Debug)]
pub enum PassResource {
    Compute {
        label: Option<String>,
        shader: String,
        entry_point: String,
        bindings: Vec<BindingEntry>,
        workgroups: [u32; 3],
    },
    Render {
        label: Option<String>,
        vertex_shader: String,
        vertex_entry: String,
        fragment_shader: Option<String>,
        fragment_entry: Option<String>,
        bindings: Vec<BindingEntry>,
        topology: RenderPipelineTopology,
        polygon_mode: RenderPipelinePolygonMode,
        front_face: RenderPipelineFrontFace,
        cull_mode: RenderPipelineCullMode,
        vertex_layout: Option<BufferVertex>,
        clear: Option<RenderClear>,
        draw: Vec<RenderDraw>,
    },
    ShaderToy {
        label: Option<String>,
        fragment_shader: String,
        fragment_entry: String,
        bindings: Vec<BindingEntry>,
    },
}

/// `s` padded with zero bytes up to length `n`.
pub open spec fn zero_pad(s: Seq<u8>, n: nat) -> Seq<u8> {
    s + Seq::new((n - s.len()) as nat, |i: int| 0u8)
}

/// The largest alignment any of the referenced settings demands.
pub open spec fn spec_uniform_align(values: Seq<String>, m: Map<Seq<char>, SettingValue>) -> nat
    decreases values.len(),
{
    if values.len() == 0 {
        0
    } else {
        let rest = spec_uniform_align(values.drop_last(), m);
        let a = m[values.last()@].spec_alignment();
        if a > rest {
            a
        } else {
            rest
        }
    }
}

/// The packed bytes of a uniform block: one `align`-sized slot per
/// referenced setting, in order, each slot the setting's bytes zero-padded.
pub open spec fn spec_uniform_content(
    values: Seq<String>,
    m: Map<Seq<char>, SettingValue>,
    align: nat,
) -> Seq<u8>
    decreases values.len(),
{
    if values.len() == 0 {
        Seq::<u8>::empty()
    } else {
        spec_uniform_content(values.drop_last(), m, align) + zero_pad(
            m[values.last()@].spec_bytes(),
            align,
        )
    }
}

/// How packing a uniform block fails: a referenced key the settings do not
/// hold (by index into the value list), or a block with no values at all.
pub enum PackError {
    Missing { index: int },
    Empty,
}

/// The first packing failure of a uniform block, if any: the first value
/// key absent from the settings, else emptiness.
pub open spec fn spec_pack_error(values: Seq<String>, m: Map<Seq<char>, SettingValue>) -> Option<
    PackError,
>
    decreases values.len(),
{
    if values.len() == 0 {
        Some(PackError::Empty)
    } else if !m.contains_key(values[0]@) {
        Some(PackError::Missing { index: 0 })
    } else {
        match spec_pack_error(values.drop_first(), m) {
            Some(PackError::Missing { index }) => Some(PackError::Missing { index: index + 1 }),
            Some(PackError::Empty) => None,
            None => None,
        }
    }
}

/// The reason text of an unalignable (empty) uniform block.
fn empty_uniform_reason() -> (r: String)
    ensures
        r@ == "Error finding the largest alignment of uniform values"@,
{
    String::from_str("Error finding the largest alignment of uniform values")
}

/// Packs one uniform block: finds the shared alignment, lays every value at
/// the next multiple of it, and records each key's byte offset.
fn pack_uniform(id: &String, values: &Vec<String>, settings: &Settings) -> (r: Result<
    (Vec<u8>, DeserializableMap<usize>, usize),
    ResourceError,
>)
    requires
        settings.wf(),
    ensures
        r is Ok <==> spec_pack_error(values@, settings@) is None,
        r is Ok ==> {
            let align = spec_uniform_align(values@, settings@);
            let (content, offsets, align_r) = r->Ok_0;
            &&& align_r == align
            &&& 1 <= align <= 16
            &&& content@ == spec_uniform_content(values@, settings@, align)
            &&& content@.len() == values@.len() * align
            &&& offsets.wf()
            &&& forall|k: Seq<char>|
                offsets@.contains_key(k) <==> exists|j: int|
                    0 <= j < values@.len() && (#[trigger] values@[j])@ == k
            &&& forall|j: int|
                0 <= j < values@.len() && (forall|j2: int|
                    j < j2 < values@.len() ==> (#[trigger] values@[j2])@ != values@[j]@)
                    ==> offsets@[(#[trigger] values@[j])@] == j * align
        },
        r is Err ==> match spec_pack_error(values@, settings@) {
            Some(PackError::Missing { index }) => r->Err_0 matches ResourceError::MissingSetting {
                id: mid,
            } && mid@ == values@[index]@,
            Some(PackError::Empty) => r->Err_0 matches ResourceError::InvalidResource {
                id: rid,
                reason,
            } && rid@ == id@ && reason@ == "Error finding the largest alignment of uniform values"@,
            None => false,
        },
{
    let n = values.len();

    // Find the first missing key, if any, and the largest alignment.
    let mut align: usize = 0;
    let mut i: usize = 0;
    proof {
        lemma_align_of_empty(values@, settings@);
    }
    while i < n
        invariant
            settings.wf(),
            n == values@.len(),
            i <= n,
            forall|j: int| 0 <= j < i ==> settings@.contains_key((#[trigger] values@[j])@),
            align == spec_uniform_align(values@.take(i as int), settings@),
            align <= 16,
        decreases n - i,
    {
        let key = &values[i];
        match settings.get(key) {
            Some(v) => {
                let a = v.alignment();
                if a > align {
                    align = a;
                }
                proof {
                    assert(values@.take(i + 1).drop_last() =~= values@.take(i as int));
                    assert(values@.take(i + 1).last() == values@[i as int]);
                }
            },
            None => {
                proof {
                    lemma_pack_error_missing(values@, settings@, i as int);
                }
                return Err(ResourceError::MissingSetting { id: key.clone() });
            },
        }
        i = i + 1;
    }
    if n == 0 {
        return Err(
            ResourceError::InvalidResource { id: id.clone(), reason: empty_uniform_reason() },
        );
    }
    proof {
        assert(values@.take(n as int) =~= values@);
        lemma_pack_error_none(values@, settings@);
        lemma_align_bounds(values@, settings@);
    }

    // Lay the values out, one aligned slot each.
    let mut content: Vec<u8> = Vec::new();
    let mut offsets = DeserializableMap::<usize>::empty();
    let mut i: usize = 0;
    proof {
        assert(values@.take(0) =~= Seq::<String>::empty());
    }
    while i < n
        invariant
            settings.wf(),
            n == values@.len(),
            i <= n,
            forall|j: int| 0 <= j < n ==> settings@.contains_key((#[trigger] values@[j])@),
            1 <= align <= 16,
            align == spec_uniform_align(values@, settings@),
            forall|j: int|
                0 <= j < n ==> settings@[(#[trigger] values@[j])@].spec_alignment() <= align,
            content@ == spec_uniform_content(values@.take(i as int), settings@, align as nat),
            content@.len() == i * align,
            offsets.wf(),
            forall|k: Seq<char>|
                offsets@.contains_key(k) <==> exists|j: int|
                    0 <= j < i && (#[trigger] values@[j])@ == k,
            forall|j: int|
                0 <= j < i && (forall|j2: int| j < j2 < i ==> (#[trigger] values@[j2])@
                    != values@[j]@) ==> offsets@[(#[trigger] values@[j])@] == j * align,
        decreases n - i,
    {
        let key = &values[i];
        let index = content.len();
        match settings.get(key) {
            Some(v) => {
                let mut slot = v.to_bytes();
                proof {
                    assert(v.spec_size() <= v.spec_alignment());
                }
                while slot.len() < align
                    invariant
                        slot@.len() <= align,
                        align <= 16,
                        slot@ =~= zero_pad(slot@, slot@.len() as nat),
                        zero_pad(slot@, align as nat) == zero_pad(
                            settings@[values@[i as int]@].spec_bytes(),
                            align as nat,
                        ),
                        slot@.len() >= settings@[values@[i as int]@].spec_bytes().len(),
                    decreases align - slot.len(),
                {
                    let ghost pre = slot@;
                    slot.push(0);
                    proof {
                        assert(zero_pad(slot@, align as nat) =~= zero_pad(pre, align as nat));
                    }
                }
                proof {
                    assert(slot@ =~= zero_pad(
                        settings@[values@[i as int]@].spec_bytes(),
                        align as nat,
                    ));
                }
                content.append(&mut slot);
                offsets.insert(key.clone(), index);
                proof {
                    assert((i + 1) * align == i * align + align) by (nonlinear_arith);
                    assert(values@.take(i + 1).drop_last() =~= values@.take(i as int));
                    assert(values@.take(i + 1).last() == values@[i as int]);
                    assert(content@ == spec_uniform_content(
                        values@.take(i + 1),
                        settings@,
                        align as nat,
                    ));
                    assert forall|k: Seq<char>|
                        offsets@.contains_key(k) <==> exists|j: int|
                            0 <= j < i + 1 && (#[trigger] values@[j])@ == k by {
                        if offsets@.contains_key(k) {
                            if k != values@[i as int]@ {
                                assert(exists|j: int|
                                    0 <= j < i && (#[trigger] values@[j])@ == k);
                            } else {
                                assert(values@[i as int]@ == k);
                            }
                        } else {
                        }
                    }
                }
            },
            None => {
                proof {
                    assert(settings@.contains_key(values@[i as int]@));
                    assert(false);
                }
                return Err(ResourceError::MissingSetting { id: key.clone() });
            },
        }
        i = i + 1;
    }
    proof {
        assert(values@.take(n as int) =~= values@);
    }
    Ok((content, offsets, align))
}

/// Relies on core::str::from_utf8: it returns `Ok` exactly on valid UTF-8.
#[verifier::external_body]
fn utf8_valid(v: &[u8]) -> (r: bool)
    ensures
        r == vstd::utf8::valid_utf8(v@),
{
    core::str::from_utf8(v).is_ok()
}

/// The declaration stored under `id`, if any.
pub open spec fn decl_of(desc: crate::descriptor::Descriptor, id: Seq<char>) -> Option<Resource> {
    seq_get(desc.resources.pairs(), id)
}

/// Whether `id` is one of the reserved built-in uniform ids.
pub open spec fn is_reserved_id(id: Seq<char>) -> bool {
    id == "time"@ || id == "shadertoy"@
}

/// Whether `id` names a camera resource.
pub open spec fn is_camera_id(desc: crate::descriptor::Descriptor, id: Seq<char>) -> bool {
    decl_of(desc, id) matches Some(Resource::Camera { .. })
}

/// Whether `id` reaches a uniform buffer: a built-in or a declared uniform
/// block.
pub open spec fn is_uniform_id(desc: crate::descriptor::Descriptor, id: Seq<char>) -> bool {
    is_reserved_id(id) || decl_of(desc, id) matches Some(Resource::Uniform { .. })
}

/// How classifying one binding fails.
#[derive(Clone, Copy, Debug, PartialEq, Eq, Structural)]
pub enum BindErr {
    /// The id names a buffer, but one without a storage marker.
    NotStorage,
    /// The id names nothing bindable.
    NotBindable,
}

/// What binding `id` in a pass resolves to: cameras and uniform blocks (and
/// the built-ins) bind as uniforms, storage-marked buffers as storage; a
/// plain buffer — including the full-screen quad a shadertoy pass plants —
/// is unbindable, and an unknown id is an error of its own.
pub open spec fn spec_classify(desc: crate::descriptor::Descriptor, id: Seq<char>, quad: bool) -> Result<
    BindingType,
    BindErr,
> {
    if is_camera_id(desc, id) {
        Ok(BindingType::Uniform)
    } else if is_uniform_id(desc, id) {
        Ok(BindingType::Uniform)
    } else {
        match decl_of(desc, id) {
            Some(Resource::Buffer { storage, .. }) => match storage {
                Some(st) => Ok(
                    BindingType::Storage { read_only: st.storage_type is Read },
                ),
                None => Err(BindErr::NotStorage),
            },
            _ => if quad && id == "shadertoy_quad"@ {
                Err(BindErr::NotStorage)
            } else {
                Err(BindErr::NotBindable)
            },
        }
    }
}

/// The kind of shader module an id reaches after the resource walk.
pub enum ShaderKind {
    /// A declared `Shader`, with its three optional entry points.
    Declared { main: Option<String>, vertex_main: Option<String>, fragment_main: Option<String> },
    /// The fragment module of a declared `ShaderToy`.
    ToyFragment,
    /// The fixed vertex harness a `ShaderToy` declaration brings along.
    ToyVertex,
}

/// The shader module `id` reaches: the *last* declaration wins, since later
/// inserts replace earlier ones; every `ShaderToy` declaration also plants
/// the vertex harness under its reserved id.
pub open spec fn spec_shader_of(decls: Seq<(String, Resource)>, id: Seq<char>) -> Option<ShaderKind>
    decreases decls.len(),
{
    if decls.len() == 0 {
        None
    } else {
        let last = decls.last();
        match last.1 {
            Resource::Shader { main, vertex_main, fragment_main, .. } => if last.0@ == id {
                Some(ShaderKind::Declared { main, vertex_main, fragment_main })
            } else {
                spec_shader_of(decls.drop_last(), id)
            },
            Resource::ShaderToy { .. } => if last.0@ == id {
                Some(ShaderKind::ToyFragment)
            } else if id == "shadertoy_vertex_shader"@ {
                Some(ShaderKind::ToyVertex)
            } else {
                spec_shader_of(decls.drop_last(), id)
            },
            _ => spec_shader_of(decls.drop_last(), id),
        }
    }
}

/// The role a pass asks a shader to fill.
#[derive(Clone, Copy, Debug, PartialEq, Eq, Structural)]
pub enum ShaderRole {
    Compute,
    Vertex,
    Fragment,
}

/// The entry point a shader module offers for a role, if any.
pub open spec fn spec_entry_for(kind: ShaderKind, role: ShaderRole) -> Option<Seq<char>> {
    match kind {
        ShaderKind::Declared { main, vertex_main, fragment_main } => match role {
            ShaderRole::Compute => if main is Some {
                Some(main->0@)
            } else {
                None
            },
            ShaderRole::Vertex => if vertex_main is Some {
                Some(vertex_main->0@)
            } else {
                None
            },
            ShaderRole::Fragment => if fragment_main is Some {
                Some(fragment_main->0@)
            } else {
                None
            },
        },
        ShaderKind::ToyFragment => if role is Fragment {
            Some("main"@)
        } else {
            None
        },
        ShaderKind::ToyVertex => if role is Vertex {
            Some("main"@)
        } else {
            None
        },
    }
}

/// How resolving a shader reference fails.
#[derive(Clone, Copy, Debug, PartialEq, Eq, Structural)]
pub enum EntryErr {
    /// The id reaches no shader module: a dangling reference.
    MissingShader,
    /// The module exists but offers no entry point for the role.
    MissingEntry,
}

/// The entry point `id` offers for `role`, or how the lookup fails.
pub open spec fn spec_shader_entry(
    decls: Seq<(String, Resource)>,
    id: Seq<char>,
    role: ShaderRole,
) -> Result<Seq<char>, EntryErr> {
    match spec_shader_of(decls, id) {
        None => Err(EntryErr::MissingShader),
        Some(kind) => match spec_entry_for(kind, role) {
            Some(e) => Ok(e),
            None => Err(EntryErr::MissingEntry),
        },
    }
}

/// A user fragment source wrapped in the fixed shadertoy harness: the
/// harness declares the `shadertoy` uniform (resolution, time, delta,
/// mouse) and calls the user's `mainImage` from its own `main`. This text
/// is part of the library's interface: shadertoy-style sources see exactly
/// these names.
pub open spec fn spec_shadertoy_wrapped(src: Seq<u8>) -> Seq<u8> {
    ("#version 450\nlayout(location = 0) in vec2 iTexCoord;\nlayout(location = 0) out vec4 fragColor;\nlayout(set = 0, binding = 0) uniform ShaderToyUniform {\n    vec3 iResolution;\n    float iTime;\n    float iTimeDelta;\n    vec4 iMouse;\n};\n").spec_bytes()
        + src
        + ("\nvoid main() {\n    mainImage(fragColor, iTexCoord * iResolution.xy);\n}\n").spec_bytes()
}

/// Wraps a user fragment source in the fixed shadertoy harness.
fn shadertoy_wrap(src: &Vec<u8>) -> (r: Vec<u8>)
    ensures
        r@ == spec_shadertoy_wrapped(src@),
{
    let prefix =
        "#version 450\nlayout(location = 0) in vec2 iTexCoord;\nlayout(location = 0) out vec4 fragColor;\nlayout(set = 0, binding = 0) uniform ShaderToyUniform {\n    vec3 iResolution;\n    float iTime;\n    float iTimeDelta;\n    vec4 iMouse;\n};\n";
    let suffix = "\nvoid main() {\n    mainImage(fragColor, iTexCoord * iResolution.xy);\n}\n";
    let mut r = prefix.as_bytes_vec();
    let mut mid = vstd::slice::slice_to_vec(src.as_slice());
    r.append(&mut mid);
    let mut tail = suffix.as_bytes_vec();
    r.append(&mut tail);
    r
}

/// The fixed vertex harness of a shadertoy pass: a full-screen quad of
/// positions and texture coordinates passed through unchanged.
pub open spec fn spec_shadertoy_vertex_source() -> Seq<u8> {
    ("#version 450\nlayout(location = 0) in vec2 position;\nlayout(location = 1) in vec2 texture;\nlayout(location = 0) out vec2 iTexCoord;\nvoid main() {\n    gl_Position = vec4(position, 0, 1);\n    iTexCoord = texture;\n}\n").spec_bytes()
}

/// The vertex harness's source text.
fn shadertoy_vertex_source() -> (r: Vec<u8>)
    ensures
        r@ == spec_shadertoy_vertex_source(),
{
    let text =
        "#version 450\nlayout(location = 0) in vec2 position;\nlayout(location = 1) in vec2 texture;\nlayout(location = 0) out vec2 iTexCoord;\nvoid main() {\n    gl_Position = vec4(position, 0, 1);\n    iTexCoord = texture;\n}\n";
    text.as_bytes_vec()
}

/// How one resource declaration fails to compile.
pub enum ResErr {
    /// The declaration uses a reserved id.
    Reserved,
    /// A buffer with neither a size nor vertex data.
    BufferNoContent,
    /// A buffer whose vertex list is empty.
    BufferEmptyVertices,
    /// A buffer whose vertex tuples differ in length.
    BufferUnequalVertices,
    /// A buffer whose vertex layout has a zero stride, which would make the
    /// vertex count undefined.
    BufferZeroStride,
    /// A shader source that is not valid UTF-8.
    ShaderUtf8,
    /// A GLSL shader without an explicit stage.
    GlslNoStage,
    /// A shader format the compiler does not take.
    UnsupportedFormat,
    /// A uniform block that cannot pack.
    Pack { err: PackError },
}

/// How one pass fails to compile.
pub enum PassErr {
    /// A render pass whose bindings and visibilities differ in length.
    LenMismatch,
    /// A binding that cannot classify; `bindex` counts the pass's own
    /// binding list (the extras, for a shadertoy pass).
    Binding { bindex: int, err: BindErr },
    /// A shader reference that cannot resolve.
    Shader { role: ShaderRole, err: EntryErr },
}

/// One failure the compiler can detect, located by resource or pass index;
/// the concrete error value is read off the descriptor by `err_matches`.
pub enum CompileErr {
    Res { rindex: int, err: ResErr },
    Pass { pindex: int, err: PassErr },
}

/// The stride of the vertex layout a buffer declaration ends up with: the
/// synthesized layout's when one is synthesized, the declared one's where a
/// layout is declared, none otherwise.
pub open spec fn spec_buffer_stride(
    size: Option<usize>,
    vertex: Option<BufferVertex>,
    vertices: Option<Vec<Vec<u32>>>,
) -> Option<int> {
    if size is None && vertices is Some {
        Some((vertices->0@[0]@.len() * 4) as int)
    } else {
        match vertex {
            Some(v) => Some(v.stride as int),
            None => None,
        }
    }
}

/// The failure a buffer declaration carries in itself, if any.
pub open spec fn spec_buffer_err(
    size: Option<usize>,
    vertex: Option<BufferVertex>,
    vertices: Option<Vec<Vec<u32>>>,
) -> Option<ResErr> {
    match vertices {
        Some(vs) => if vs@.len() == 0 {
            Some(ResErr::BufferEmptyVertices)
        } else if exists|a: int| 0 <= a < vs@.len() && (#[trigger] vs@[a])@.len() != vs@[0]@.len() {
            Some(ResErr::BufferUnequalVertices)
        } else if spec_buffer_stride(size, vertex, vertices) == Some(0int) {
            Some(ResErr::BufferZeroStride)
        } else {
            None
        },
        None => if size is None {
            Some(ResErr::BufferNoContent)
        } else if spec_buffer_stride(size, vertex, vertices) == Some(0int) {
            Some(ResErr::BufferZeroStride)
        } else {
            None
        },
    }
}

/// The failure a shader declaration carries, given its source bytes.
pub open spec fn spec_shader_err(
    format: Option<ShaderFormat>,
    stage: Option<ShaderStage>,
    src: Seq<u8>,
) -> Option<ResErr> {
    if !vstd::utf8::valid_utf8(src) {
        Some(ResErr::ShaderUtf8)
    } else {
        let f = if format is Some {
            format->0
        } else {
            ShaderFormat::Wgsl
        };
        match f {
            ShaderFormat::Wgsl => None,
            ShaderFormat::Glsl => if stage is None {
                Some(ResErr::GlslNoStage)
            } else {
                None
            },
            ShaderFormat::Spirv => Some(ResErr::UnsupportedFormat),
        }
    }
}

/// The failure one resource declaration contributes, if any.
pub open spec fn spec_res_err(
    decl: (String, Resource),
    smap: Map<Seq<char>, SettingValue>,
    fmap: Map<Seq<char>, Vec<u8>>,
) -> Option<ResErr> {
    if is_internal_id(decl.0@) {
        Some(ResErr::Reserved)
    } else {
        match decl.1 {
            Resource::Buffer { size, vertex, vertices, .. } => spec_buffer_err(
                size,
                vertex,
                vertices,
            ),
            Resource::Camera { .. } => None,
            Resource::Shader { format, stage, .. } => spec_shader_err(
                format,
                stage,
                fmap[decl.0@]@,
            ),
            Resource::ShaderToy { .. } => if !vstd::utf8::valid_utf8(fmap[decl.0@]@) {
                Some(ResErr::ShaderUtf8)
            } else {
                None
            },
            Resource::Uniform { values, .. } => match spec_pack_error(values@, smap) {
                Some(e) => Some(ResErr::Pack { err: e }),
                None => None,
            },
        }
    }
}

/// The same failure, located at declaration index `j`.
pub open spec fn spec_resource_err_one(
    decl: (String, Resource),
    smap: Map<Seq<char>, SettingValue>,
    fmap: Map<Seq<char>, Vec<u8>>,
    j: int,
) -> Option<CompileErr> {
    match spec_res_err(decl, smap, fmap) {
        Some(e) => Some(CompileErr::Res { rindex: j, err: e }),
        None => None,
    }
}

/// The first failure among the first `n` resource declarations.
pub open spec fn spec_resources_err_upto(
    decls: Seq<(String, Resource)>,
    smap: Map<Seq<char>, SettingValue>,
    fmap: Map<Seq<char>, Vec<u8>>,
    n: int,
) -> Option<CompileErr>
    decreases n,
{
    if n <= 0 {
        None
    } else {
        match spec_resources_err_upto(decls, smap, fmap, n - 1) {
            Some(e) => Some(e),
            None => spec_resource_err_one(decls[n - 1], smap, fmap, n - 1),
        }
    }
}

/// The first classification failure in a binding list, with its index.
pub open spec fn spec_first_bind_err(
    desc: crate::descriptor::Descriptor,
    binds: Seq<String>,
    quad: bool,
) -> Option<(int, BindErr)>
    decreases binds.len(),
{
    if binds.len() == 0 {
        None
    } else {
        match spec_classify(desc, binds[0]@, quad) {
            Err(e) => Some((0, e)),
            Ok(_) => match spec_first_bind_err(desc, binds.drop_first(), quad) {
                Some((b, e)) => Some((b + 1, e)),
                None => None,
            },
        }
    }
}

/// The failure one pass contributes, if any, with the quad buffer already
/// planted by an earlier shadertoy pass or not.
pub open spec fn spec_pass_err(
    desc: crate::descriptor::Descriptor,
    pass: RenderPass,
    quad: bool,
) -> Option<PassErr> {
    match pass {
        RenderPass::Compute { pipeline, .. } => match spec_first_bind_err(
            desc,
            pipeline.bindings@,
            quad,
        ) {
            Some((b, e)) => Some(PassErr::Binding { bindex: b, err: e }),
            None => match spec_shader_entry(
                desc.resources.pairs(),
                pipeline.shader@,
                ShaderRole::Compute,
            ) {
                Err(e) => Some(PassErr::Shader { role: ShaderRole::Compute, err: e }),
                Ok(_) => None,
            },
        },
        RenderPass::Render { pipeline, .. } => {
            let blen: Option<int> = match pipeline.bindings {
                Some(b) => Some(b@.len() as int),
                None => None,
            };
            let vlen: Option<int> = match pipeline.bindings_visibility {
                Some(v) => Some(v@.len() as int),
                None => None,
            };
            if blen != vlen {
                Some(PassErr::LenMismatch)
            } else {
                let binds: Seq<String> = match pipeline.bindings {
                    Some(b) => b@,
                    None => Seq::<String>::empty(),
                };
                match spec_first_bind_err(desc, binds, quad) {
                    Some((b, e)) => Some(PassErr::Binding { bindex: b, err: e }),
                    None => match spec_shader_entry(
                        desc.resources.pairs(),
                        pipeline.shader_vertex@,
                        ShaderRole::Vertex,
                    ) {
                        Err(e) => Some(PassErr::Shader { role: ShaderRole::Vertex, err: e }),
                        Ok(_) => match pipeline.shader_fragment {
                            Some(fid) => match spec_shader_entry(
                                desc.resources.pairs(),
                                fid@,
                                ShaderRole::Fragment,
                            ) {
                                Err(e) => Some(
                                    PassErr::Shader { role: ShaderRole::Fragment, err: e },
                                ),
                                Ok(_) => None,
                            },
                            None => None,
                        },
                    },
                }
            }
        },
        RenderPass::ShaderToy { source, bindings, .. } => {
            let extras: Seq<String> = match bindings {
                Some(b) => b@,
                None => Seq::<String>::empty(),
            };
            match spec_first_bind_err(desc, extras, quad) {
                Some((b, e)) => Some(PassErr::Binding { bindex: b, err: e }),
                None => match spec_shader_entry(
                    desc.resources.pairs(),
                    "shadertoy_vertex_shader"@,
                    ShaderRole::Vertex,
                ) {
                    Err(e) => Some(PassErr::Shader { role: ShaderRole::Vertex, err: e }),
                    Ok(_) => match spec_shader_entry(
                        desc.resources.pairs(),
                        source@,
                        ShaderRole::Fragment,
                    ) {
                        Err(e) => Some(PassErr::Shader { role: ShaderRole::Fragment, err: e }),
                        Ok(_) => None,
                    },
                },
            }
        },
    }
}

/// The same failure, located at pass index `p`.
pub open spec fn spec_pass_err_one(
    desc: crate::descriptor::Descriptor,
    pass: RenderPass,
    quad: bool,
    p: int,
) -> Option<CompileErr> {
    match spec_pass_err(desc, pass, quad) {
        Some(e) => Some(CompileErr::Pass { pindex: p, err: e }),
        None => None,
    }
}

/// Whether any of the first `p` passes is a shadertoy pass (which plants
/// the full-screen quad buffer for every later pass to see).
pub open spec fn spec_quad_before(passes: Seq<RenderPass>, p: int) -> bool {
    exists|q: int| 0 <= q < p && passes[q] is ShaderToy
}

/// The first failure among the first `n` passes.
pub open spec fn spec_passes_err_upto(
    desc: crate::descriptor::Descriptor,
    passes: Seq<RenderPass>,
    n: int,
) -> Option<CompileErr>
    decreases n,
{
    if n <= 0 {
        None
    } else {
        match spec_passes_err_upto(desc, passes, n - 1) {
            Some(e) => Some(e),
            None => spec_pass_err_one(desc, passes[n - 1], spec_quad_before(passes, n - 1), n - 1),
        }
    }
}

/// The first failure of the whole compilation: resources in declaration
/// order, then passes in declaration order.
pub open spec fn spec_compile_err(scene: Scene) -> Option<CompileErr> {
    match spec_resources_err_upto(
        scene.descriptor.resources.pairs(),
        scene.settings@,
        scene.files@,
        scene.descriptor.resources.pairs().len() as int,
    ) {
        Some(e) => Some(e),
        None => spec_passes_err_upto(
            scene.descriptor,
            scene.descriptor.render_passes@,
            scene.descriptor.render_passes@.len() as int,
        ),
    }
}

/// The id the binding at `bindex` of a pass names; for a shadertoy pass,
/// `bindex` counts its extra bindings.
pub open spec fn spec_pass_binding_id(pass: RenderPass, b: int) -> Seq<char> {
    match pass {
        RenderPass::Compute { pipeline, .. } => pipeline.bindings@[b]@,
        RenderPass::Render { pipeline, .. } => match pipeline.bindings {
            Some(bs) => bs@[b]@,
            None => Seq::<char>::empty(),
        },
        RenderPass::ShaderToy { bindings, .. } => match bindings {
            Some(bs) => bs@[b]@,
            None => Seq::<char>::empty(),
        },
    }
}

/// The shader id a pass names for `role`.
pub open spec fn spec_pass_shader_id(pass: RenderPass, role: ShaderRole) -> Seq<char> {
    match pass {
        RenderPass::Compute { pipeline, .. } => pipeline.shader@,
        RenderPass::Render { pipeline, .. } => match role {
            ShaderRole::Vertex => pipeline.shader_vertex@,
            ShaderRole::Fragment => match pipeline.shader_fragment {
                Some(f) => f@,
                None => Seq::<char>::empty(),
            },
            ShaderRole::Compute => Seq::<char>::empty(),
        },
        RenderPass::ShaderToy { source, .. } => match role {
            ShaderRole::Vertex => "shadertoy_vertex_shader"@,
            _ => source@,
        },
    }
}

/// The entry-point reason text for a role.
pub open spec fn spec_entry_reason(role: ShaderRole) -> Seq<char> {
    match role {
        ShaderRole::Compute => "Shader does not have a compute entrypoint"@,
        ShaderRole::Vertex => "Shader does not have a vertex entrypoint"@,
        ShaderRole::Fragment => "Shader does not have a fragment entrypoint"@,
    }
}

/// Whether `err` is the concrete form of the resource failure `e` of the
/// declaration `decl`.
pub open spec fn res_err_concrete(decl: (String, Resource), e: ResErr, err: ResourceError) -> bool {
    match e {
        ResErr::Reserved => err matches ResourceError::InvalidResource { id, reason } && id@
            == decl.0@ && reason@ == "Resource id is reserved"@,
        ResErr::BufferNoContent => err matches ResourceError::InvalidResource { id, reason } && id@
            == decl.0@ && reason@ == "Buffer has neither size nor content"@,
        ResErr::BufferEmptyVertices => err matches ResourceError::InvalidResource { id, reason }
            && id@ == decl.0@ && reason@ == "Vertices must not be empty"@,
        ResErr::BufferUnequalVertices => err matches ResourceError::InvalidResource { id, reason }
            && id@ == decl.0@ && reason@ == "Vertices must all be the same size"@,
        ResErr::BufferZeroStride => err matches ResourceError::InvalidResource { id, reason }
            && id@ == decl.0@ && reason@ == "Vertex stride must not be zero"@,
        ResErr::ShaderUtf8 => err matches ResourceError::InvalidShaderUtf8 { id } && id@
            == decl.0@,
        ResErr::GlslNoStage => err matches ResourceError::InvalidResource { id, reason } && id@
            == decl.0@ && reason@ == "GLSL shaders must specify a stage"@,
        ResErr::UnsupportedFormat => err matches ResourceError::InvalidResource { id, reason }
            && id@ == decl.0@ && reason@ == "Unsupported shader format"@,
        ResErr::Pack { err: pe } => match pe {
            PackError::Missing { index } => err matches ResourceError::MissingSetting { id } && (
            decl.1 matches Resource::Uniform { values, .. } && id@ == values@[index]@),
            PackError::Empty => err matches ResourceError::InvalidResource { id, reason } && id@
                == decl.0@ && reason@
                == "Error finding the largest alignment of uniform values"@,
        },
    }
}

/// Whether `err` is the concrete form of the pass failure `e` of `pass`.
pub open spec fn pass_err_concrete(pass: RenderPass, e: PassErr, err: ResourceError) -> bool {
    match e {
        PassErr::LenMismatch => err matches ResourceError::InvalidResource { id, reason } && id@
            == "Render Pipeline"@ && reason@
            == "Bindings and Bindings Visibility do not have matching lengths"@,
        PassErr::Binding { bindex, err: be } => match be {
            BindErr::NotStorage => err matches ResourceError::InvalidResource { id, reason }
                && id@ == spec_pass_binding_id(pass, bindex) && reason@
                == "Attempted to bind buffer, but it is not a storage buffer"@,
            BindErr::NotBindable => err matches ResourceError::IncorrectResource {
                id,
                expected,
                actual,
            } && id@ == spec_pass_binding_id(pass, bindex) && expected@ == "Bindable resource"@
                && actual@ == "Not bindable"@,
        },
        PassErr::Shader { role, err: ee } => match ee {
            EntryErr::MissingShader => err matches ResourceError::MissingResource { id } && id@
                == spec_pass_shader_id(pass, role),
            EntryErr::MissingEntry => err matches ResourceError::InvalidResource { id, reason }
                && id@ == spec_pass_shader_id(pass, role) && reason@ == spec_entry_reason(role),
        },
    }
}

/// Whether the concrete error `err` is the one the located failure `e`
/// describes, its id and message read off the scene.
pub open spec fn err_matches(scene: Scene, e: CompileErr, err: ResourceError) -> bool {
    match e {
        CompileErr::Res { rindex, err: re } => res_err_concrete(
            scene.descriptor.resources.pairs()[rindex],
            re,
            err,
        ),
        CompileErr::Pass { pindex, err: pe } => pass_err_concrete(
            scene.descriptor.render_passes@[pindex],
            pe,
            err,
        ),
    }
}

/// Whether `id` is a reserved built-in id.
fn is_reserved(id: &String) -> (r: bool)
    ensures
        r == is_reserved_id(id@),
{
    let time_id = String::from_str("time");
    let toy_id = String::from_str("shadertoy");
    id.eq(&time_id) || id.eq(&toy_id)
}

/// Whether `id` is reserved for the library's own plumbing: a built-in
/// uniform, the shadertoy vertex harness, or the full-screen quad.
pub open spec fn is_internal_id(id: Seq<char>) -> bool {
    is_reserved_id(id) || id == "shadertoy_vertex_shader"@ || id == "shadertoy_quad"@
}

/// Whether `id` is reserved for the library's own plumbing.
fn is_internal(id: &String) -> (r: bool)
    ensures
        r == is_internal_id(id@),
{
    let harness_id = String::from_str("shadertoy_vertex_shader");
    let quad_id = String::from_str("shadertoy_quad");
    is_reserved(id) || id.eq(&harness_id) || id.eq(&quad_id)
}

/// Classifies one pass binding against the descriptor.
fn classify_binding(descriptor: &crate::descriptor::Descriptor, id: &String, quad: bool) -> (r:
    Result<BindingType, BindErr>)
    ensures
        r == spec_classify(*descriptor, id@, quad),
{
    let decl = descriptor.resources.get(id);
    let is_cam = match decl {
        Some(Resource::Camera { .. }) => true,
        _ => false,
    };
    if is_cam {
        return Ok(BindingType::Uniform);
    }
    if is_reserved(id) {
        return Ok(BindingType::Uniform);
    }
    match decl {
        Some(Resource::Uniform { .. }) => Ok(BindingType::Uniform),
        Some(Resource::Buffer { storage, .. }) => match storage {
            Some(st) => Ok(
                BindingType::Storage {
                    read_only: match st.storage_type {
                        BufferStorageType::Read => true,
                        BufferStorageType::ReadWrite => false,
                    },
                },
            ),
            None => Err(BindErr::NotStorage),
        },
        _ => {
            let quad_id = String::from_str("shadertoy_quad");
            if quad && id.eq(&quad_id) {
                Err(BindErr::NotStorage)
            } else {
                Err(BindErr::NotBindable)
            }
        },
    }
}

/// The message of a missing-entry-point error, per role.
fn entry_reason(role: ShaderRole) -> (r: String)
    ensures
        r@ == spec_entry_reason(role),
{
    match role {
        ShaderRole::Compute => String::from_str("Shader does not have a compute entrypoint"),
        ShaderRole::Vertex => String::from_str("Shader does not have a vertex entrypoint"),
        ShaderRole::Fragment => String::from_str("Shader does not have a fragment entrypoint"),
    }
}

/// Resolves a shader reference to the entry point it offers for `role`:
/// a dangling id is a missing resource, a module without the role's entry
/// point an invalid one.
fn get_shader_and_entrypoint(
    descriptor: &crate::descriptor::Descriptor,
    id: &String,
    role: ShaderRole,
) -> (r: Result<String, ResourceError>)
    ensures
        r is Ok <==> spec_shader_entry(descriptor.resources.pairs(), id@, role) is Ok,
        r is Ok ==> r->Ok_0@ == spec_shader_entry(descriptor.resources.pairs(), id@, role)->Ok_0,
        r is Err ==> match spec_shader_entry(descriptor.resources.pairs(), id@, role) {
            Err(EntryErr::MissingShader) => r->Err_0 matches ResourceError::MissingResource {
                id: rid,
            } && rid@ == id@,
            Err(EntryErr::MissingEntry) => r->Err_0 matches ResourceError::InvalidResource {
                id: rid,
                reason,
            } && rid@ == id@ && reason@ == spec_entry_reason(role),
            Ok(_) => false,
        },
{
    let ghost decls = descriptor.resources.pairs();
    let entries = descriptor.resources.iter();
    let n = entries.len();
    let mut i: usize = n;
    proof {
        assert(decls.take(n as int) =~= decls);
    }
    while i > 0
        invariant
            decls == descriptor.resources.pairs(),
            entries@ == decls,
            n == decls.len(),
            i <= n,
            spec_shader_of(decls, id@) == spec_shader_of(decls.take(i as int), id@),
        decreases i,
    {
        let j = i - 1;
        proof {
            assert(decls.take(i as int).last() == decls[j as int]);
            assert(decls.take(i as int).drop_last() =~= decls.take(j as int));
        }
        let found: Option<ShaderKind> = match &entries[j].1 {
            Resource::Shader { main, vertex_main, fragment_main, .. } => {
                if entries[j].0.eq(id) {
                    let entry_opt: &Option<String> = match role {
                        ShaderRole::Compute => main,
                        ShaderRole::Vertex => vertex_main,
                        ShaderRole::Fragment => fragment_main,
                    };
                    match entry_opt {
                        Some(e) => {
                            return Ok(e.clone());
                        },
                        None => {
                            return Err(
                                ResourceError::InvalidResource {
                                    id: id.clone(),
                                    reason: entry_reason(role),
                                },
                            );
                        },
                    }
                } else {
                    None
                }
            },
            Resource::ShaderToy { .. } => {
                let harness_id = String::from_str("shadertoy_vertex_shader");
                if entries[j].0.eq(id) {
                    match role {
                        ShaderRole::Fragment => {
                            return Ok(String::from_str("main"));
                        },
                        _ => {
                            return Err(
                                ResourceError::InvalidResource {
                                    id: id.clone(),
                                    reason: entry_reason(role),
                                },
                            );
                        },
                    }
                } else if id.eq(&harness_id) {
                    match role {
                        ShaderRole::Vertex => {
                            return Ok(String::from_str("main"));
                        },
                        _ => {
                            return Err(
                                ResourceError::InvalidResource {
                                    id: id.clone(),
                                    reason: entry_reason(role),
                                },
                            );
                        },
                    }
                } else {
                    None
                }
            },
            _ => None,
        };
        proof {
            assert(found is None);
        }
        i = j;
    }
    proof {
        assert(decls.take(0) =~= Seq::<(String, Resource)>::empty());
    }
    Err(ResourceError::MissingResource { id: id.clone() })
}

/// An owned copy of an optional label.
fn clone_label(label: &Option<String>) -> (r: Option<String>)
    ensures
        r == *label,
{
    match label {
        Some(s) => Some(s.clone()),
        None => None,
    }
}

/// An owned copy of an optional storage marker.
fn clone_storage(storage: &Option<BufferStorage>) -> (r: Option<BufferStorage>)
    ensures
        match (r, storage) {
            (Some(a), Some(b)) => a.storage_type == b.storage_type,
            (None, None) => true,
            _ => false,
        },
{
    match storage {
        Some(st) => Some(
            BufferStorage {
                storage_type: match st.storage_type {
                    BufferStorageType::Read => BufferStorageType::Read,
                    BufferStorageType::ReadWrite => BufferStorageType::ReadWrite,
                },
            },
        ),
        None => None,
    }
}

/// Whether two optional vertex layouts agree (vectors by view).
pub open spec fn vertex_layout_eq(a: Option<BufferVertex>, b: Option<BufferVertex>) -> bool {
    match (a, b) {
        (Some(x), Some(y)) => x.stride == y.stride && x.step == y.step && x.attributes@
            == y.attributes@,
        (None, None) => true,
        _ => false,
    }
}

/// An owned copy of a vertex layout.
fn clone_vertex(v: &BufferVertex) -> (r: BufferVertex)
    ensures
        r.stride == v.stride,
        r.step == v.step,
        r.attributes@ == v.attributes@,
{
    let mut attributes: Vec<BufferVertexAttribute> = Vec::new();
    let n = v.attributes.len();
    let mut i: usize = 0;
    while i < n
        invariant
            n == v.attributes@.len(),
            i <= n,
            attributes@ =~= v.attributes@.take(i as int),
        decreases n - i,
    {
        attributes.push(v.attributes[i]);
        i = i + 1;
    }
    proof {
        assert(v.attributes@.take(n as int) =~= v.attributes@);
    }
    BufferVertex { stride: v.stride, step: v.step, attributes }
}

/// An owned copy of an optional vertex layout.
fn clone_vertex_opt(v: &Option<BufferVertex>) -> (r: Option<BufferVertex>)
    ensures
        vertex_layout_eq(r, *v),
{
    match v {
        Some(x) => Some(clone_vertex(x)),
        None => None,
    }
}

/// An owned copy of a draw list.
fn clone_draws(draws: &Vec<RenderDraw>) -> (r: Vec<RenderDraw>)
    ensures
        r@ == draws@,
{
    let n = draws.len();
    let mut r: Vec<RenderDraw> = Vec::new();
    let mut i: usize = 0;
    while i < n
        invariant
            n == draws@.len(),
            i <= n,
            r@ =~= draws@.take(i as int),
        decreases n - i,
    {
        let d = &draws[i];
        let vb = match &d.vertex_buffer {
            Some(s) => Some(s.clone()),
            None => None,
        };
        r.push(RenderDraw { vertex_buffer: vb, vertex_count: d.vertex_count, instances: d.instances });
        proof {
            assert(r@.last() == draws@[i as int]);
            assert(r@ =~= draws@.take(i + 1));
        }
        i = i + 1;
    }
    proof {
        assert(draws@.take(n as int) =~= draws@);
    }
    r
}

/// Whether two optional strings agree by view.
pub open spec fn ostr_eq(a: Option<String>, b: Option<String>) -> bool {
    match (a, b) {
        (Some(x), Some(y)) => x@ == y@,
        (None, None) => true,
        _ => false,
    }
}

/// An owned copy of an optional clear declaration.
fn clone_clear(clear: &Option<RenderClear>) -> (r: Option<RenderClear>)
    ensures
        match (r, clear) {
            (Some(a), Some(b)) => ostr_eq(a.colour, b.colour) && a.depth_stencil
                == b.depth_stencil,
            (None, None) => true,
            _ => false,
        },
{
    match clear {
        Some(c) => Some(
            RenderClear { colour: clone_label(&c.colour), depth_stencil: c.depth_stencil },
        ),
        None => None,
    }
}

/// Flattened little-endian bytes of one vertex tuple.
pub open spec fn spec_row_bytes(row: Seq<u32>) -> Seq<u8>
    decreases row.len(),
{
    if row.len() == 0 {
        Seq::<u8>::empty()
    } else {
        spec_row_bytes(row.drop_last()) + vstd::bytes::spec_u32_to_le_bytes(row.last())
    }
}

/// Flattened little-endian bytes of a vertex list, row by row.
pub open spec fn spec_flat_bytes(vs: Seq<Vec<u32>>) -> Seq<u8>
    decreases vs.len(),
{
    if vs.len() == 0 {
        Seq::<u8>::empty()
    } else {
        spec_flat_bytes(vs.drop_last()) + spec_row_bytes(vs.last()@)
    }
}

/// Whether `v` is the one-attribute layout synthesized for a vertex list of
/// tuples of `len` floats: a `Float32x2` at location zero, stepping per
/// vertex.
pub open spec fn synthesized_layout(v: BufferVertex, len: int) -> bool {
    &&& v.stride == len * 4
    &&& v.step == Some(BufferVertexStep::Vertex)
    &&& v.attributes@.len() == 1
    &&& v.attributes@[0] == (BufferVertexAttribute {
        offset: 0,
        location: 0,
        format: BufferVertexAttributeFormat::Float32x2,
    })
}

/// What compiling one `Buffer` declaration must produce.
pub open spec fn spec_buffer_res_ok(decl: Resource, b: BufferResource) -> bool {
    match decl {
        Resource::Buffer { label, size, storage, vertex, vertices } => {
            let total: int = if size is Some {
                size->0 as int
            } else {
                (vertices->0@.len() * vertices->0@[0]@.len() * 4) as int
            };
            let layout: Option<BufferVertex> = if size is None && vertices is Some {
                b.vertex
            } else {
                vertex
            };
            &&& (match label {
                Some(l) => b.label matches Some(bl) && bl@ == l@,
                None => b.label is None,
            })
            &&& (match vertices {
                Some(vs) => b.init matches BufferInit::Data { data } && data@ == spec_flat_bytes(
                    vs@,
                ),
                None => b.init matches BufferInit::Zeroed { size: s } && s == size->0,
            })
            &&& (size is None && vertices is Some ==> (b.vertex matches Some(v)
                && synthesized_layout(v, vertices->0@[0]@.len() as int)))
            &&& (!(size is None && vertices is Some) ==> vertex_layout_eq(b.vertex, vertex))
            &&& b.usage == (BufferUsage {
                uniform: false,
                storage: storage is Some,
                vertex: vertex is Some || vertices is Some,
                copy_dst: false,
            })
            &&& (match layout {
                Some(v) => b.vertex_count == Some((total / (v.stride as int)) as u32),
                None => b.vertex_count is None,
            })
            &&& (match storage {
                Some(st) => b.storage matches Some(bst) && bst.storage_type == st.storage_type,
                None => b.storage is None,
            })
        },
        _ => false,
    }
}

/// What compiling one `Camera` declaration must produce: the recorded
/// parameters, and a 128-byte matrix buffer the host fills.
pub open spec fn spec_camera_res_ok(
    decl: Resource,
    width: u32,
    height: u32,
    c: CameraResource,
    b: BufferResource,
) -> bool {
    match decl {
        Resource::Camera { projection, position, look_at } => {
            &&& c.projection == projection
            &&& c.position == position
            &&& c.look_at == look_at
            &&& c.width == width
            &&& c.height == height
            &&& (b.init matches BufferInit::CameraMatrix { size } && size == 128)
            &&& b.usage == (BufferUsage {
                uniform: true,
                storage: false,
                vertex: false,
                copy_dst: true,
            })
            &&& b.vertex is None
            &&& b.vertex_count is None
            &&& b.storage is None
        },
        _ => false,
    }
}

/// What compiling one `Uniform` declaration must produce: the packed block
/// mirrored in a uniform resource and an upload-initialized buffer.
pub open spec fn spec_uniform_res_ok(
    decl: Resource,
    smap: Map<Seq<char>, SettingValue>,
    u: UniformResource,
    b: BufferResource,
) -> bool {
    match decl {
        Resource::Uniform { label, values } => {
            let align = spec_uniform_align(values@, smap);
            &&& (u matches UniformResource::Custom { content, offsets } && {
                &&& content@ == spec_uniform_content(values@, smap, align)
                &&& offsets.wf()
                &&& (forall|k: Seq<char>|
                    offsets@.contains_key(k) <==> exists|j: int|
                        0 <= j < values@.len() && (#[trigger] values@[j])@ == k)
                &&& (forall|j: int|
                    0 <= j < values@.len() && (forall|j2: int|
                        j < j2 < values@.len() ==> (#[trigger] values@[j2])@ != values@[j]@)
                        ==> offsets@[(#[trigger] values@[j])@] == j * align)
            })
            &&& 1 <= align <= 16
            &&& (b.init matches BufferInit::Data { data } && data@ == spec_uniform_content(
                values@,
                smap,
                align,
            ))
            &&& b.usage == (BufferUsage {
                uniform: true,
                storage: false,
                vertex: false,
                copy_dst: true,
            })
        },
        _ => false,
    }
}

/// What compiling one `Shader` declaration must produce.
pub open spec fn spec_shader_res_ok(
    decl: Resource,
    source: Seq<u8>,
    s: ShaderResource,
) -> bool {
    match decl {
        Resource::Shader { label, main, vertex_main, fragment_main, format, stage, .. } => {
            &&& s.source@ == source
            &&& s.format == (if format is Some {
                format->0
            } else {
                ShaderFormat::Wgsl
            })
            &&& s.stage == stage
            &&& ostr_eq(s.entry, main)
            &&& ostr_eq(s.vertex_entry, vertex_main)
            &&& ostr_eq(s.fragment_entry, fragment_main)
        },
        _ => false,
    }
}

/// What compiling one `ShaderToy` declaration must produce for its fragment
/// module: the wrapped source, compiled as a GLSL fragment stage with the
/// harness's `main`.
pub open spec fn spec_toy_fragment_ok(source: Seq<u8>, s: ShaderResource) -> bool {
    &&& s.source@ == spec_shadertoy_wrapped(source)
    &&& s.format is Glsl
    &&& s.stage == Some(ShaderStage::Fragment)
    &&& s.entry is None
    &&& s.vertex_entry is None
    &&& (s.fragment_entry matches Some(e) && e@ == "main"@)
}

/// What every `ShaderToy` declaration plants under the reserved vertex
/// harness id.
pub open spec fn spec_toy_vertex_ok(s: ShaderResource) -> bool {
    &&& s.source@ == spec_shadertoy_vertex_source()
    &&& s.format is Glsl
    &&& s.stage == Some(ShaderStage::Vertex)
    &&& s.entry is None
    &&& (s.vertex_entry matches Some(e) && e@ == "main"@)
    &&& s.fragment_entry is None
}

/// The reserved built-ins every compiled scene carries: the `time` and
/// `shadertoy` uniforms with zeroed upload buffers of their fixed sizes.
pub open spec fn spec_builtins_ok(
    bufm: Map<Seq<char>, BufferResource>,
    unim: Map<Seq<char>, UniformResource>,
) -> bool {
    &&& bufm.contains_key("time"@) && (bufm["time"@].init matches BufferInit::Zeroed { size: s }
        && s == 8)
    &&& bufm["time"@].usage == (BufferUsage {
        uniform: true,
        storage: false,
        vertex: false,
        copy_dst: true,
    })
    &&& unim.contains_key("time"@) && unim["time"@] is Internal
    &&& bufm.contains_key("shadertoy"@) && (bufm["shadertoy"@].init
        matches BufferInit::Zeroed { size: s2 } && s2 == 48)
    &&& bufm["shadertoy"@].usage == (BufferUsage {
        uniform: true,
        storage: false,
        vertex: false,
        copy_dst: true,
    })
    &&& unim.contains_key("shadertoy"@) && unim["shadertoy"@] is Internal
}

/// The id of the last uniform declaration among the first `i` whose value
/// list holds `k`, if any: the one whose block a setting update patches.
pub open spec fn spec_lookup_target(
    decls: Seq<(String, Resource)>,
    k: Seq<char>,
    i: int,
) -> Option<Seq<char>>
    decreases i,
{
    if i <= 0 {
        None
    } else {
        match decls[i - 1].1 {
            Resource::Uniform { values, .. } => if exists|v: int|
                0 <= v < values@.len() && (#[trigger] values@[v])@ == k {
                Some(decls[i - 1].0@)
            } else {
                spec_lookup_target(decls, k, i - 1)
            },
            _ => spec_lookup_target(decls, k, i - 1),
        }
    }
}

/// A failure seen at step `i` is the failure of every longer prefix.
proof fn lemma_resources_err_sticks(
    decls: Seq<(String, Resource)>,
    smap: Map<Seq<char>, SettingValue>,
    fmap: Map<Seq<char>, Vec<u8>>,
    i: int,
    n: int,
)
    requires
        0 <= i <= n,
        spec_resources_err_upto(decls, smap, fmap, i) is Some,
    ensures
        spec_resources_err_upto(decls, smap, fmap, n) == spec_resources_err_upto(
            decls,
            smap,
            fmap,
            i,
        ),
    decreases n - i,
{
    if i < n {
        lemma_resources_err_sticks(decls, smap, fmap, i + 1, n);
    }
}

/// The same, over passes.
proof fn lemma_passes_err_sticks(
    desc: crate::descriptor::Descriptor,
    passes: Seq<RenderPass>,
    i: int,
    n: int,
)
    requires
        0 <= i <= n,
        spec_passes_err_upto(desc, passes, i) is Some,
    ensures
        spec_passes_err_upto(desc, passes, n) == spec_passes_err_upto(desc, passes, i),
    decreases n - i,
{
    if i < n {
        lemma_passes_err_sticks(desc, passes, i + 1, n);
    }
}

/// A nonempty value list with a key missing at `i`/// A nonempty value list with a key missing at `i` (and none missing
/// before) packs to exactly that missing-key failure.
proof fn lemma_pack_error_missing(values: Seq<String>, m: Map<Seq<char>, SettingValue>, i: int)
    requires
        0 <= i < values.len(),
        forall|j: int| 0 <= j < i ==> m.contains_key((#[trigger] values[j])@),
        !m.contains_key(values[i]@),
    ensures
        spec_pack_error(values, m) == Some(PackError::Missing { index: i }),
    decreases values.len(),
{
    if i > 0 {
        assert(forall|j: int|
            0 <= j < i - 1 ==> values.drop_first()[j] == values[j + 1]);
        assert(values.drop_first()[i - 1] == values[i]);
        lemma_pack_error_missing(values.drop_first(), m, i - 1);
    }
}

/// A nonempty value list with every key present packs without failure.
proof fn lemma_pack_error_none(values: Seq<String>, m: Map<Seq<char>, SettingValue>)
    requires
        values.len() >= 1,
        forall|j: int| 0 <= j < values.len() ==> m.contains_key((#[trigger] values[j])@),
    ensures
        spec_pack_error(values, m) is None,
    decreases values.len(),
{
    if values.len() > 1 {
        assert(forall|j: int|
            0 <= j < values.drop_first().len() ==> values.drop_first()[j] == values[j + 1]);
        lemma_pack_error_none(values.drop_first(), m);
    } else {
        assert(spec_pack_error(values.drop_first(), m) == Some(PackError::Empty));
    }
}

/// The shared alignment of no values at all is zero.
proof fn lemma_align_of_empty(values: Seq<String>, m: Map<Seq<char>, SettingValue>)
    ensures
        spec_uniform_align(values.take(0), m) == 0,
{
    assert(values.take(0) =~= Seq::<String>::empty());
}

/// With every key present, the shared alignment of a nonempty block is one
/// of the two alignments settings can demand, and bounds each value's own.
proof fn lemma_align_bounds(values: Seq<String>, m: Map<Seq<char>, SettingValue>)
    requires
        values.len() >= 1,
        forall|j: int| 0 <= j < values.len() ==> m.contains_key((#[trigger] values[j])@),
    ensures
        1 <= spec_uniform_align(values, m) <= 16,
        forall|j: int|
            0 <= j < values.len() ==> m[(#[trigger] values[j])@].spec_alignment()
                <= spec_uniform_align(values, m),
    decreases values.len(),
{
    if values.len() == 1 {
        assert(values.last() == values[0]);
    } else {
        assert(forall|j: int|
            0 <= j < values.drop_last().len() ==> values.drop_last()[j] == values[j]);
        lemma_align_bounds(values.drop_last(), m);
        assert forall|j: int|
            0 <= j < values.len() implies m[(#[trigger] values[j])@].spec_alignment()
            <= spec_uniform_align(values, m) by {
            if j < values.len() - 1 {
                assert(m[values.drop_last()[j]@].spec_alignment() <= spec_uniform_align(
                    values.drop_last(),
                    m,
                ));
            } else {
                assert(values[j] == values.last());
            }
        }
    }
}

/// Every key of a block that packs without failure is a live setting.
proof fn lemma_pack_none_present(values: Seq<String>, m: Map<Seq<char>, SettingValue>)
    requires
        spec_pack_error(values, m) is None,
    ensures
        values.len() >= 1,
        forall|j: int| 0 <= j < values.len() ==> m.contains_key((#[trigger] values[j])@),
    decreases values.len(),
{
    if values.len() > 0 {
        assert(m.contains_key(values[0]@));
        if spec_pack_error(values.drop_first(), m) is None {
            lemma_pack_none_present(values.drop_first(), m);
            assert forall|j: int|
                0 <= j < values.len() implies m.contains_key((#[trigger] values[j])@) by {
                if j > 0 {
                    assert(values.drop_first()[j - 1] == values[j]);
                }
            }
        } else {
            assert(spec_pack_error(values.drop_first(), m) == Some(PackError::Empty));
            assert(values.len() == 1);
        }
    }
}

/// A packed block is as long as its value count times the shared alignment.
proof fn lemma_uniform_content_len(
    values: Seq<String>,
    m: Map<Seq<char>, SettingValue>,
    align: nat,
)
    requires
        forall|j: int| 0 <= j < values.len() ==> m.contains_key((#[trigger] values[j])@),
        forall|j: int|
            0 <= j < values.len() ==> m[(#[trigger] values[j])@].spec_alignment() <= align,
    ensures
        spec_uniform_content(values, m, align).len() == values.len() * align,
    decreases values.len(),
{
    if values.len() > 0 {
        assert(forall|j: int|
            0 <= j < values.drop_last().len() ==> values.drop_last()[j] == values[j]);
        lemma_uniform_content_len(values.drop_last(), m, align);
        let v = m[values.last()@];
        vstd::bytes::lemma_auto_spec_u32_to_from_le_bytes();
        assert(v.spec_bytes().len() == v.spec_size());
        assert(v.spec_size() <= v.spec_alignment());
        assert(zero_pad(v.spec_bytes(), align).len() == align);
        assert(values.len() * align == (values.len() - 1) * align + align) by (nonlinear_arith);
    }
}

/// A value list containing `k` contains a last occurrence of `k`.
proof fn lemma_last_occurrence(values: Seq<String>, k: Seq<char>)
    requires
        exists|j: int| 0 <= j < values.len() && (#[trigger] values[j])@ == k,
    ensures
        exists|j: int|
            0 <= j < values.len() && (#[trigger] values[j])@ == k && (forall|j2: int|
                j < j2 < values.len() ==> (#[trigger] values[j2])@ != k),
    decreases values.len(),
{
    if values.last()@ == k {
        let j = values.len() - 1;
        assert(0 <= j < values.len() && values[j]@ == k && (forall|j2: int|
            j < j2 < values.len() ==> (#[trigger] values[j2])@ != k));
    } else {
        let jw = choose|j: int| 0 <= j < values.len() && (#[trigger] values[j])@ == k;
        assert(values.drop_last()[jw] == values[jw]);
        lemma_last_occurrence(values.drop_last(), k);
        let j = choose|j: int|
            0 <= j < values.drop_last().len() && (#[trigger] values.drop_last()[j])@ == k && (
            forall|j2: int|
                j < j2 < values.drop_last().len() ==> (#[trigger] values.drop_last()[j2])@ != k);
        assert(values[j]@ == k);
        assert(forall|j2: int|
            j < j2 < values.len() - 1 ==> values.drop_last()[j2] == (#[trigger] values[j2]));
        assert(forall|j2: int| j < j2 < values.len() ==> (#[trigger] values[j2])@ != k);
    }
}

/// A first classification failure indexes into the list.
proof fn lemma_first_bind_err_bounds(
    desc: crate::descriptor::Descriptor,
    binds: Seq<String>,
    quad: bool,
)
    ensures
        spec_first_bind_err(desc, binds, quad) matches Some(be) ==> 0 <= be.0 < binds.len(),
    decreases binds.len(),
{
    if binds.len() > 0 && spec_classify(desc, binds[0]@, quad) is Ok {
        lemma_first_bind_err_bounds(desc, binds.drop_first(), quad);
    }
}

/// A classification failure at `b` (and none before) is the list's first.
proof fn lemma_first_bind_err_found(
    desc: crate::descriptor::Descriptor,
    binds: Seq<String>,
    quad: bool,
    b: int,
)
    requires
        0 <= b < binds.len(),
        forall|c: int| 0 <= c < b ==> spec_classify(desc, (#[trigger] binds[c])@, quad) is Ok,
        spec_classify(desc, binds[b]@, quad) is Err,
    ensures
        spec_first_bind_err(desc, binds, quad) == Some(
            (b, spec_classify(desc, binds[b]@, quad)->Err_0),
        ),
    decreases binds.len(),
{
    if b > 0 {
        assert(forall|c: int|
            0 <= c < binds.drop_first().len() ==> binds.drop_first()[c] == binds[c + 1]);
        lemma_first_bind_err_found(desc, binds.drop_first(), quad, b - 1);
    }
}

/// A list whose every binding classifies has no first failure.
proof fn lemma_first_bind_err_none(
    desc: crate::descriptor::Descriptor,
    binds: Seq<String>,
    quad: bool,
)
    requires
        forall|c: int|
            0 <= c < binds.len() ==> spec_classify(desc, (#[trigger] binds[c])@, quad) is Ok,
    ensures
        spec_first_bind_err(desc, binds, quad) is None,
    decreases binds.len(),
{
    if binds.len() > 0 {
        assert(forall|c: int|
            0 <= c < binds.drop_first().len() ==> binds.drop_first()[c] == binds[c + 1]);
        lemma_first_bind_err_none(desc, binds.drop_first(), quad);
    }
}

/// A combined binding list whose head classifies fails exactly where its
/// tail fails, one position later.
proof fn lemma_first_bind_err_cons(
    desc: crate::descriptor::Descriptor,
    binds: Seq<String>,
    quad: bool,
)
    requires
        binds.len() >= 1,
        spec_classify(desc, binds[0]@, quad) is Ok,
    ensures
        spec_first_bind_err(desc, binds, quad) == match spec_first_bind_err(
            desc,
            binds.drop_first(),
            quad,
        ) {
            Some((b, e)) => Some((b + 1, e)),
            None => None::<(int, BindErr)>,
        },
{
}

/// Classified bindings ready for one pass, or the pass's first failure as a
/// concrete error.
fn build_bindings(
    descriptor: &crate::descriptor::Descriptor,
    ids: &Vec<String>,
    vis: Option<&Vec<RenderPipelineBindingVisibility>>,
    default_vis: RenderPipelineBindingVisibility,
    quad: bool,
) -> (r: Result<Vec<BindingEntry>, ResourceError>)
    requires
        vis is Some ==> vis->0@.len() == ids@.len(),
    ensures
        r is Ok <==> spec_first_bind_err(*descriptor, ids@, quad) is None,
        r is Ok ==> {
            let entries = r->Ok_0;
            &&& entries@.len() == ids@.len()
            &&& forall|b: int|
                0 <= b < ids@.len() ==> {
                    &&& (#[trigger] entries@[b]).id@ == ids@[b]@
                    &&& entries@[b].binding_type == spec_classify(
                        *descriptor,
                        ids@[b]@,
                        quad,
                    )->Ok_0
                    &&& entries@[b].visibility == (match vis {
                        Some(vs) => vs@[b],
                        None => default_vis,
                    })
                }
        },
        r is Err ==> match spec_first_bind_err(*descriptor, ids@, quad) {
            Some((b, e)) => match e {
                BindErr::NotStorage => r->Err_0 matches ResourceError::InvalidResource {
                    id,
                    reason,
                } && id@ == ids@[b]@ && reason@
                    == "Attempted to bind buffer, but it is not a storage buffer"@,
                BindErr::NotBindable => r->Err_0 matches ResourceError::IncorrectResource {
                    id,
                    expected,
                    actual,
                } && id@ == ids@[b]@ && expected@ == "Bindable resource"@ && actual@
                    == "Not bindable"@,
            },
            None => false,
        },
{
    let n = ids.len();
    let mut entries: Vec<BindingEntry> = Vec::new();
    let mut b: usize = 0;
    while b < n
        invariant
            n == ids@.len(),
            b <= n,
            vis is Some ==> vis->0@.len() == n,
            entries@.len() == b,
            forall|c: int| 0 <= c < b ==> spec_classify(*descriptor, (#[trigger] ids@[c])@, quad) is Ok,
            forall|c: int|
                0 <= c < b ==> {
                    &&& (#[trigger] entries@[c]).id@ == ids@[c]@
                    &&& entries@[c].binding_type == spec_classify(
                        *descriptor,
                        ids@[c]@,
                        quad,
                    )->Ok_0
                    &&& entries@[c].visibility == (match vis {
                        Some(vs) => vs@[c],
                        None => default_vis,
                    })
                },
        decreases n - b,
    {
        let id = &ids[b];
        match classify_binding(descriptor, id, quad) {
            Ok(bt) => {
                let visibility = match vis {
                    Some(vs) => vs[b],
                    None => default_vis,
                };
                entries.push(BindingEntry { id: id.clone(), binding_type: bt, visibility });
            },
            Err(BindErr::NotStorage) => {
                proof {
                    lemma_first_bind_err_found(*descriptor, ids@, quad, b as int);
                }
                return Err(
                    ResourceError::InvalidResource {
                        id: id.clone(),
                        reason: String::from_str(
                            "Attempted to bind buffer, but it is not a storage buffer",
                        ),
                    },
                );
            },
            Err(BindErr::NotBindable) => {
                proof {
                    lemma_first_bind_err_found(*descriptor, ids@, quad, b as int);
                }
                return Err(
                    ResourceError::IncorrectResource {
                        id: id.clone(),
                        expected: String::from_str("Bindable resource"),
                        actual: String::from_str("Not bindable"),
                    },
                );
            },
        }
        b = b + 1;
    }
    proof {
        lemma_first_bind_err_none(*descriptor, ids@, quad);
    }
    Ok(entries)
}

/// Whether two optional clear declarations agree by view.
pub open spec fn oclear_eq(a: Option<RenderClear>, b: Option<RenderClear>) -> bool {
    match (a, b) {
        (Some(x), Some(y)) => ostr_eq(x.colour, y.colour) && x.depth_stencil == y.depth_stencil,
        (None, None) => true,
        _ => false,
    }
}

/// What the compiled form of a declared pass must look like, given whether
/// an earlier shadertoy pass already planted the quad.
pub open spec fn spec_pass_matches_decl(
    desc: crate::descriptor::Descriptor,
    pass: RenderPass,
    quad: bool,
    pr: PassResource,
) -> bool {
    match pass {
        RenderPass::Compute { label, pipeline, workgroups } => pr
            matches PassResource::Compute {
            label: rl,
            shader,
            entry_point,
            bindings,
            workgroups: wg,
        } && {
            &&& ostr_eq(rl, label)
            &&& shader@ == pipeline.shader@
            &&& entry_point@ == spec_shader_entry(
                desc.resources.pairs(),
                pipeline.shader@,
                ShaderRole::Compute,
            )->Ok_0
            &&& wg == workgroups
            &&& bindings@.len() == pipeline.bindings@.len()
            &&& forall|b: int|
                0 <= b < bindings@.len() ==> {
                    &&& (#[trigger] bindings@[b]).id@ == pipeline.bindings@[b]@
                    &&& bindings@[b].binding_type == spec_classify(
                        desc,
                        pipeline.bindings@[b]@,
                        quad,
                    )->Ok_0
                    &&& bindings@[b].visibility is Compute
                }
        },
        RenderPass::Render { label, pipeline, clear, draw } => pr
            matches PassResource::Render {
            label: rl,
            vertex_shader,
            vertex_entry,
            fragment_shader,
            fragment_entry,
            bindings,
            topology,
            polygon_mode,
            front_face,
            cull_mode,
            vertex_layout,
            clear: rclear,
            draw: rdraw,
        } && {
            let ids: Seq<String> = match pipeline.bindings {
                Some(bs) => bs@,
                None => Seq::<String>::empty(),
            };
            &&& ostr_eq(rl, label)
            &&& vertex_shader@ == pipeline.shader_vertex@
            &&& vertex_entry@ == spec_shader_entry(
                desc.resources.pairs(),
                pipeline.shader_vertex@,
                ShaderRole::Vertex,
            )->Ok_0
            &&& (match (fragment_shader, pipeline.shader_fragment) {
                (Some(fs), Some(pf)) => fs@ == pf@ && (fragment_entry matches Some(fe) && fe@
                    == spec_shader_entry(
                    desc.resources.pairs(),
                    pf@,
                    ShaderRole::Fragment,
                )->Ok_0),
                (None, None) => fragment_entry is None,
                _ => false,
            })
            &&& bindings@.len() == ids.len()
            &&& forall|b: int|
                0 <= b < bindings@.len() ==> {
                    &&& (#[trigger] bindings@[b]).id@ == ids[b]@
                    &&& bindings@[b].binding_type == spec_classify(desc, ids[b]@, quad)->Ok_0
                    &&& bindings@[b].visibility == pipeline.bindings_visibility->0@[b]
                }
            &&& topology == pipeline.topology
            &&& polygon_mode == pipeline.polygon_mode
            &&& front_face == pipeline.front_face
            &&& cull_mode == pipeline.cull_mode
            &&& vertex_layout_eq(vertex_layout, pipeline.vertex)
            &&& oclear_eq(rclear, clear)
            &&& rdraw@ == draw@
        },
        RenderPass::ShaderToy { label, source, bindings } => pr
            matches PassResource::ShaderToy {
            label: rl,
            fragment_shader,
            fragment_entry,
            bindings: rbinds,
        } && {
            let extras: Seq<String> = match bindings {
                Some(bs) => bs@,
                None => Seq::<String>::empty(),
            };
            &&& ostr_eq(rl, label)
            &&& fragment_shader@ == source@
            &&& fragment_entry@ == spec_shader_entry(
                desc.resources.pairs(),
                source@,
                ShaderRole::Fragment,
            )->Ok_0
            &&& rbinds@.len() == 1 + extras.len()
            &&& rbinds@[0].id@ == "shadertoy"@
            &&& rbinds@[0].binding_type is Uniform
            &&& forall|b: int|
                1 <= b < rbinds@.len() ==> {
                    &&& (#[trigger] rbinds@[b]).id@ == extras[b - 1]@
                    &&& rbinds@[b].binding_type == spec_classify(desc, extras[b - 1]@, quad)->Ok_0
                }
            &&& forall|b: int|
                0 <= b < rbinds@.len() ==> (#[trigger] rbinds@[b]).visibility is Fragment
        },
    }
}

/// What the compiled pass at `p` must look like.
pub open spec fn spec_pass_matches(
    desc: crate::descriptor::Descriptor,
    p: int,
    quad: bool,
    pr: PassResource,
) -> bool {
    spec_pass_matches_decl(desc, desc.render_passes@[p], quad, pr)
}

/// Whether every vertex list in the descriptor flattens to a byte count a
/// `usize` can hold — the machine limit compilation leans on.
pub open spec fn spec_sizes_fit(desc: crate::descriptor::Descriptor) -> bool {
    forall|j: int|
        0 <= j < desc.resources.pairs().len() ==> match (#[trigger] desc.resources.pairs()[j]).1 {
            Resource::Buffer { vertices: Some(vs), .. } => vs@.len() * (if vs@.len() > 0 {
                vs@[0]@.len()
            } else {
                0
            }) * 4 <= usize::MAX,
            _ => true,
        }
}

/// What the full-screen quad buffer a shadertoy pass plants must look like.
pub open spec fn spec_quad_buffer_ok(b: BufferResource) -> bool {
    &&& b.init matches BufferInit::Data { data } && data@ == spec_quad_bytes()
    &&& b.usage == (BufferUsage { uniform: false, storage: false, vertex: true, copy_dst: false })
    &&& b.vertex matches Some(v) && {
        &&& v.stride == 16
        &&& v.step == Some(BufferVertexStep::Vertex)
        &&& v.attributes@.len() == 2
        &&& v.attributes@[0] == (BufferVertexAttribute {
            offset: 0,
            location: 0,
            format: BufferVertexAttributeFormat::Float32x2,
        })
        &&& v.attributes@[1] == (BufferVertexAttribute {
            offset: 8,
            location: 1,
            format: BufferVertexAttributeFormat::Float32x2,
        })
    }
    &&& b.vertex_count == Some(6u32)
    &&& b.storage is None
}

/// The six vertices of the full-screen quad: two triangles covering the
/// clip-space square, with texture coordinates, as position/texture float
/// pairs. `0xBF80_0000` and `0x3F80_0000` are the float bit patterns of
/// minus one and one.
pub open spec fn spec_quad_words() -> Seq<u32> {
    seq![
        0xBF80_0000u32, 0xBF80_0000u32, 0u32, 0u32,
        0xBF80_0000u32, 0x3F80_0000u32, 0u32, 0x3F80_0000u32,
        0x3F80_0000u32, 0xBF80_0000u32, 0x3F80_0000u32, 0u32,
        0x3F80_0000u32, 0xBF80_0000u32, 0x3F80_0000u32, 0u32,
        0xBF80_0000u32, 0x3F80_0000u32, 0u32, 0x3F80_0000u32,
        0x3F80_0000u32, 0x3F80_0000u32, 0x3F80_0000u32, 0x3F80_0000u32,
    ]
}

/// The quad's bytes: its 24 words, little-endian.
pub open spec fn spec_quad_bytes() -> Seq<u8> {
    spec_row_bytes(spec_quad_words())
}

/// Builds the quad's bytes.
fn quad_bytes() -> (r: Vec<u8>)
    ensures
        r@ == spec_quad_bytes(),
{
    let words: [u32; 24] = [
        0xBF80_0000, 0xBF80_0000, 0, 0,
        0xBF80_0000, 0x3F80_0000, 0, 0x3F80_0000,
        0x3F80_0000, 0xBF80_0000, 0x3F80_0000, 0,
        0x3F80_0000, 0xBF80_0000, 0x3F80_0000, 0,
        0xBF80_0000, 0x3F80_0000, 0, 0x3F80_0000,
        0x3F80_0000, 0x3F80_0000, 0x3F80_0000, 0x3F80_0000,
    ];
    let mut r: Vec<u8> = Vec::new();
    let mut i: usize = 0;
    while i < 24
        invariant
            i <= 24,
            words@ =~= spec_quad_words(),
            r@ == spec_row_bytes(spec_quad_words().take(i as int)),
        decreases 24 - i,
    {
        let mut word = vstd::bytes::u32_to_le_bytes(words[i]);
        r.append(&mut word);
        proof {
            assert(spec_quad_words().take(i + 1).drop_last() =~= spec_quad_words().take(i as int));
            assert(spec_quad_words().take(i + 1).last() == spec_quad_words()[i as int]);
        }
        i = i + 1;
    }
    proof {
        assert(spec_quad_words().take(24) =~= spec_quad_words());
    }
    r
}

/// Flattens a validated vertex list (all rows the same length) to bytes.
fn flatten_vertices(vs: &Vec<Vec<u32>>) -> (r: Vec<u8>)
    ensures
        r@ == spec_flat_bytes(vs@),
{
    let n = vs.len();
    let mut r: Vec<u8> = Vec::new();
    let mut i: usize = 0;
    proof {
        assert(vs@.take(0) =~= Seq::<Vec<u32>>::empty());
    }
    while i < n
        invariant
            n == vs@.len(),
            i <= n,
            r@ == spec_flat_bytes(vs@.take(i as int)),
        decreases n - i,
    {
        let row = &vs[i];
        let m = row.len();
        let mut j: usize = 0;
        proof {
            assert(row@.take(0) =~= Seq::<u32>::empty());
        }
        while j < m
            invariant
                m == row@.len(),
                j <= m,
                row@ == vs@[i as int]@,
                i < n,
                n == vs@.len(),
                r@ == spec_flat_bytes(vs@.take(i as int)) + spec_row_bytes(row@.take(j as int)),
            decreases m - j,
        {
            let mut word = vstd::bytes::u32_to_le_bytes(row[j]);
            r.append(&mut word);
            proof {
                assert(row@.take(j + 1).drop_last() =~= row@.take(j as int));
                assert(row@.take(j + 1).last() == row@[j as int]);
            }
            j = j + 1;
        }
        proof {
            assert(row@.take(m as int) =~= row@);
            assert(vs@.take(i + 1).drop_last() =~= vs@.take(i as int));
            assert(vs@.take(i + 1).last() == vs@[i as int]);
        }
        i = i + 1;
    }
    proof {
        assert(vs@.take(n as int) =~= vs@);
    }
    r
}

/// The compiled form of the first `i` declarations, in the given tables.
pub open spec fn spec_decls_built(
    scene: Scene,
    width: u32,
    height: u32,
    i: int,
    bufm: Map<Seq<char>, BufferResource>,
    camm: Map<Seq<char>, CameraResource>,
    unim: Map<Seq<char>, UniformResource>,
    shm: Map<Seq<char>, ShaderResource>,
) -> bool {
    let decls = scene.descriptor.resources.pairs();
    forall|j: int|
        0 <= j < i ==> {
            let id = (#[trigger] decls[j]).0@;
            match decls[j].1 {
                Resource::Buffer { .. } => bufm.contains_key(id) && spec_buffer_res_ok(
                    decls[j].1,
                    bufm[id],
                ),
                Resource::Camera { .. } => camm.contains_key(id) && bufm.contains_key(id)
                    && spec_camera_res_ok(decls[j].1, width, height, camm[id], bufm[id]),
                Resource::Uniform { .. } => unim.contains_key(id) && bufm.contains_key(id)
                    && spec_uniform_res_ok(decls[j].1, scene.settings@, unim[id], bufm[id]),
                Resource::Shader { .. } => shm.contains_key(id) && spec_shader_res_ok(
                    decls[j].1,
                    scene.files@[id]@,
                    shm[id],
                ),
                Resource::ShaderToy { .. } => shm.contains_key(id) && spec_toy_fragment_ok(
                    scene.files@[id]@,
                    shm[id],
                ),
            }
        }
}

/// When any of the first `i` declarations is a shadertoy, the vertex
/// harness stands under its reserved id.
pub open spec fn spec_harness_built(
    decls: Seq<(String, Resource)>,
    i: int,
    shm: Map<Seq<char>, ShaderResource>,
) -> bool {
    (exists|j: int| 0 <= j < i && (#[trigger] decls[j]).1 is ShaderToy)
        ==> shm.contains_key("shadertoy_vertex_shader"@) && spec_toy_vertex_ok(
        shm["shadertoy_vertex_shader"@],
    )
}

/// The bridge derived from the first `i` declarations: keyed by exactly the
/// setting keys their uniform blocks reference, each pointing at the last
/// such block.
pub open spec fn spec_lookup_built(
    decls: Seq<(String, Resource)>,
    i: int,
    lookm: Map<Seq<char>, String>,
) -> bool {
    &&& forall|k: Seq<char>|
        #[trigger] lookm.contains_key(k) <==> spec_lookup_target(decls, k, i) is Some
    &&& forall|k: Seq<char>|
        #[trigger] lookm.contains_key(k) ==> lookm[k]@ == spec_lookup_target(decls, k, i)->0
}

/// Two camera tables with the same keys in the same order resolve every
/// key at the same position.
proof fn lemma_resized_lookup(
    olds: Seq<(String, CameraResource)>,
    news: Seq<(String, CameraResource)>,
)
    requires
        olds.len() == news.len(),
        forall|j: int| 0 <= j < olds.len() ==> (#[trigger] news[j]).0 == olds[j].0,
    ensures
        forall|k: Seq<char>| #[trigger] seq_get(news, k) is Some <==> seq_get(olds, k) is Some,
        forall|k: Seq<char>|
            #[trigger] seq_get(olds, k) is Some ==> exists|j: int|
                0 <= j < olds.len() && (#[trigger] olds[j]).0@ == k && seq_get(olds, k) == Some(
                    olds[j].1,
                ) && seq_get(news, k) == Some(news[j].1),
    decreases olds.len(),
{
    if olds.len() > 0 {
        assert(forall|j: int|
            0 <= j < olds.drop_first().len() ==> olds.drop_first()[j] == olds[j + 1]);
        assert(forall|j: int|
            0 <= j < news.drop_first().len() ==> news.drop_first()[j] == news[j + 1]);
        lemma_resized_lookup(olds.drop_first(), news.drop_first());
        assert(news[0].0 == olds[0].0);
        assert forall|k: Seq<char>|
            #[trigger] seq_get(news, k) is Some <==> seq_get(olds, k) is Some by {
            if olds[0].0@ != k {
                assert(seq_get(news.drop_first(), k) is Some <==> seq_get(
                    olds.drop_first(),
                    k,
                ) is Some);
            }
        }
        assert forall|k: Seq<char>|
            #[trigger] seq_get(olds, k) is Some implies exists|j: int|
            0 <= j < olds.len() && (#[trigger] olds[j]).0@ == k && seq_get(olds, k) == Some(
                olds[j].1,
            ) && seq_get(news, k) == Some(news[j].1) by {
            if olds[0].0@ == k {
                assert(0 <= 0 < olds.len() && olds[0].0@ == k && seq_get(olds, k) == Some(
                    olds[0].1,
                ) && seq_get(news, k) == Some(news[0].1));
            } else {
                let j = choose|j: int|
                    0 <= j < olds.drop_first().len() && (#[trigger] olds.drop_first()[j]).0@ == k
                        && seq_get(olds.drop_first(), k) == Some(olds.drop_first()[j].1)
                        && seq_get(news.drop_first(), k) == Some(news.drop_first()[j].1);
                assert(0 <= j + 1 < olds.len() && olds[j + 1].0@ == k && seq_get(olds, k) == Some(
                    olds[j + 1].1,
                ) && seq_get(news, k) == Some(news[j + 1].1));
            }
        }
    }
}

/// Whether every vertex tuple has the first tuple's length.
fn rows_equal_len(vs: &Vec<Vec<u32>>) -> (r: bool)
    requires
        vs@.len() >= 1,
    ensures
        r == (forall|a: int| 0 <= a < vs@.len() ==> (#[trigger] vs@[a])@.len() == vs@[0]@.len()),
{
    let row_len = vs[0].len();
    let rows = vs.len();
    let mut a: usize = 1;
    while a < rows
        invariant
            rows == vs@.len(),
            1 <= a <= rows,
            rows >= 1,
            row_len == vs@[0]@.len(),
            forall|c: int| 0 <= c < a ==> (#[trigger] vs@[c])@.len() == row_len,
        decreases rows - a,
    {
        if vs[a].len() != row_len {
            proof {
                assert((#[trigger] vs@[a as int])@.len() != vs@[0]@.len());
            }
            return false;
        }
        a = a + 1;
    }
    true
}

/// Compiles one `Buffer` declaration to its creation plan.
fn compile_buffer(
    id: &String,
    label: &Option<String>,
    size: &Option<usize>,
    storage: &Option<BufferStorage>,
    vertex: &Option<BufferVertex>,
    vertices: &Option<Vec<Vec<u32>>>,
) -> (r: Result<BufferResource, ResourceError>)
    requires
        vertices matches Some(vs) ==> vs@.len() * (if vs@.len() > 0 {
            vs@[0]@.len()
        } else {
            0
        }) * 4 <= usize::MAX,
    ensures
        r is Ok <==> spec_buffer_err(*size, *vertex, *vertices) is None,
        r is Ok ==> spec_buffer_res_ok(
            Resource::Buffer {
                label: *label,
                size: *size,
                storage: *storage,
                vertex: *vertex,
                vertices: *vertices,
            },
            r->Ok_0,
        ),
        r is Err ==> match spec_buffer_err(*size, *vertex, *vertices) {
            Some(e) => (e is BufferNoContent || e is BufferEmptyVertices
                || e is BufferUnequalVertices || e is BufferZeroStride) && (r->Err_0
                matches ResourceError::InvalidResource { id: eid, reason } && eid@ == id@
                && reason@ == (if e is BufferNoContent {
                "Buffer has neither size nor content"@
            } else if e is BufferEmptyVertices {
                "Vertices must not be empty"@
            } else if e is BufferUnequalVertices {
                "Vertices must all be the same size"@
            } else {
                "Vertex stride must not be zero"@
            })),
            None => false,
        },
{
    let mut row_len: usize = 0;
    if let Some(vs) = vertices {
        if vs.len() == 0 {
            return Err(
                ResourceError::InvalidResource {
                    id: id.clone(),
                    reason: String::from_str("Vertices must not be empty"),
                },
            );
        }
        row_len = vs[0].len();
        if !rows_equal_len(vs) {
            return Err(
                ResourceError::InvalidResource {
                    id: id.clone(),
                    reason: String::from_str("Vertices must all be the same size"),
                },
            );
        }
    }
    if size.is_none() && vertices.is_none() {
        return Err(
            ResourceError::InvalidResource {
                id: id.clone(),
                reason: String::from_str("Buffer has neither size nor content"),
            },
        );
    }
    // Resolve the layout.
    let layout: Option<BufferVertex> = if size.is_none() && vertices.is_some() {
        proof {
            assert(row_len * 4 <= usize::MAX) by (nonlinear_arith)
                requires
                    vertices->0@.len() * (row_len as nat) * 4 <= usize::MAX,
                    vertices->0@.len() >= 1,
                    row_len >= 0,
            ;
        }
        Some(
            BufferVertex {
                stride: row_len * 4,
                step: Some(BufferVertexStep::Vertex),
                attributes: vec![
                    BufferVertexAttribute {
                        offset: 0,
                        location: 0,
                        format: BufferVertexAttributeFormat::Float32x2,
                    },
                ],
            },
        )
    } else {
        clone_vertex_opt(vertex)
    };
    let stride_zero = match &layout {
        Some(v) => v.stride == 0,
        None => false,
    };
    if stride_zero {
        proof {
            assert(spec_buffer_stride(*size, *vertex, *vertices) == Some(0int));
        }
        return Err(
            ResourceError::InvalidResource {
                id: id.clone(),
                reason: String::from_str("Vertex stride must not be zero"),
            },
        );
    }
    // Resolve the byte size and contents.
    let total: usize = match (size, vertices) {
        (Some(sz), _) => *sz,
        (None, Some(vs)) => {
            proof {
                assert(vs@.len() * (row_len as nat) <= usize::MAX) by (nonlinear_arith)
                    requires
                        vs@.len() * (row_len as nat) * 4 <= usize::MAX,
                        row_len >= 0,
                        vs@.len() >= 0,
                ;
            }
            let rl: usize = vs.len() * row_len;
            proof {
                assert(rl * 4 <= usize::MAX) by (nonlinear_arith)
                    requires
                        vs@.len() * (row_len as nat) * 4 <= usize::MAX,
                        rl == vs@.len() * (row_len as nat),
                ;
            }
            rl * 4
        },
        (None, None) => {
            proof {
                assert(false);
            }
            0
        },
    };
    let init = match vertices {
        Some(vs) => BufferInit::Data { data: flatten_vertices(vs) },
        None => BufferInit::Zeroed { size: total },
    };
    let vertex_count: Option<u32> = match &layout {
        Some(v) => {
            proof {
                assert(spec_buffer_stride(*size, *vertex, *vertices) matches Some(st)
                    && st == v.stride && st != 0);
            }
            Some(#[verifier::truncate] ((total / v.stride) as u32))
        },
        None => None,
    };
    let usage = BufferUsage {
        uniform: false,
        storage: storage.is_some(),
        vertex: vertex.is_some() || vertices.is_some(),
        copy_dst: false,
    };
    Ok(
        BufferResource {
            label: clone_label(label),
            init,
            usage,
            vertex: layout,
            vertex_count,
            storage: clone_storage(storage),
        },
    )
}

/// Compiles one `Shader` declaration against its source bytes.
fn compile_shader_decl(
    id: &String,
    label: &Option<String>,
    main: &Option<String>,
    vertex_main: &Option<String>,
    fragment_main: &Option<String>,
    format: &Option<ShaderFormat>,
    stage: &Option<ShaderStage>,
    source: &Vec<u8>,
) -> (r: Result<ShaderResource, ResourceError>)
    ensures
        r is Ok <==> spec_shader_err(*format, *stage, source@) is None,
        r is Ok ==> spec_shader_res_ok(
            Resource::Shader {
                src: arbitrary(),
                label: *label,
                main: *main,
                format: *format,
                stage: *stage,
                vertex_main: *vertex_main,
                fragment_main: *fragment_main,
            },
            source@,
            r->Ok_0,
        ),
        r is Err ==> match spec_shader_err(*format, *stage, source@) {
            Some(ResErr::ShaderUtf8) => r->Err_0 matches ResourceError::InvalidShaderUtf8 {
                id: eid,
            } && eid@ == id@,
            Some(ResErr::GlslNoStage) => r->Err_0 matches ResourceError::InvalidResource {
                id: eid,
                reason,
            } && eid@ == id@ && reason@ == "GLSL shaders must specify a stage"@,
            Some(ResErr::UnsupportedFormat) => r->Err_0 matches ResourceError::InvalidResource {
                id: eid,
                reason,
            } && eid@ == id@ && reason@ == "Unsupported shader format"@,
            _ => false,
        },
{
    if !utf8_valid(source.as_slice()) {
        return Err(ResourceError::InvalidShaderUtf8 { id: id.clone() });
    }
    let resolved_format = match format {
        Some(ShaderFormat::Wgsl) | None => ShaderFormat::Wgsl,
        Some(ShaderFormat::Glsl) => ShaderFormat::Glsl,
        Some(ShaderFormat::Spirv) => {
            return Err(
                ResourceError::InvalidResource {
                    id: id.clone(),
                    reason: String::from_str("Unsupported shader format"),
                },
            );
        },
    };
    let resolved_stage: Option<ShaderStage> = match stage {
        Some(st) => Some(*st),
        None => None,
    };
    if matches!(resolved_format, ShaderFormat::Glsl) && resolved_stage.is_none() {
        return Err(
            ResourceError::InvalidResource {
                id: id.clone(),
                reason: String::from_str("GLSL shaders must specify a stage"),
            },
        );
    }
    Ok(
        ShaderResource {
            label: clone_label(label),
            source: vstd::slice::slice_to_vec(source.as_slice()),
            format: resolved_format,
            stage: resolved_stage,
            entry: clone_label(main),
            vertex_entry: clone_label(vertex_main),
            fragment_entry: clone_label(fragment_main),
        },
    )
}

/// Compiles one `ShaderToy` declaration: the wrapped fragment module and
/// the vertex harness it brings along.
fn compile_shadertoy_decl(id: &String, label: &Option<String>, source: &Vec<u8>) -> (r: Result<
    (ShaderResource, ShaderResource),
    ResourceError,
>)
    ensures
        r is Ok <==> vstd::utf8::valid_utf8(source@),
        r is Ok ==> spec_toy_fragment_ok(source@, r->Ok_0.0) && spec_toy_vertex_ok(r->Ok_0.1),
        r is Err ==> (r->Err_0 matches ResourceError::InvalidShaderUtf8 { id: eid } && eid@
            == id@),
{
    if !utf8_valid(source.as_slice()) {
        return Err(ResourceError::InvalidShaderUtf8 { id: id.clone() });
    }
    let fragment = ShaderResource {
        label: clone_label(label),
        source: shadertoy_wrap(source),
        format: ShaderFormat::Glsl,
        stage: Some(ShaderStage::Fragment),
        entry: None,
        vertex_entry: None,
        fragment_entry: Some(String::from_str("main")),
    };
    let vertex = ShaderResource {
        label: clone_label(label),
        source: shadertoy_vertex_source(),
        format: ShaderFormat::Glsl,
        stage: Some(ShaderStage::Vertex),
        entry: None,
        vertex_entry: Some(String::from_str("main")),
        fragment_entry: None,
    };
    Ok((fragment, vertex))
}

/// Compiles one pass: classifies its bindings and resolves its shader entry
/// points; a shadertoy pass also plants the full-screen quad buffer.
fn compile_pass(
    descriptor: &crate::descriptor::Descriptor,
    pass: &RenderPass,
    quad: bool,
    buffers: &mut DeserializableMap<BufferResource>,
) -> (r: Result<PassResource, ResourceError>)
    requires
        old(buffers).wf(),
    ensures
        final(buffers).wf(),
        r is Ok <==> spec_pass_err(*descriptor, *pass, quad) is None,
        r is Ok ==> spec_pass_matches_decl(*descriptor, *pass, quad, r->Ok_0),
        r is Err ==> pass_err_concrete(*pass, spec_pass_err(*descriptor, *pass, quad)->0, r->Err_0),
        !(r is Ok && pass is ShaderToy) ==> *final(buffers) == *old(buffers),
        r is Ok && pass is ShaderToy ==> {
            &&& final(buffers)@.contains_key("shadertoy_quad"@)
            &&& spec_quad_buffer_ok(final(buffers)@["shadertoy_quad"@])
            &&& forall|k: Seq<char>|
                k != "shadertoy_quad"@ ==> ((#[trigger] final(buffers)@.contains_key(k))
                    <==> old(buffers)@.contains_key(k))
            &&& forall|k: Seq<char>|
                k != "shadertoy_quad"@ && old(buffers)@.contains_key(k)
                    ==> (#[trigger] final(buffers)@[k]) == old(buffers)@[k]
        },
{
    match pass {
        RenderPass::Compute { label, pipeline, workgroups } => {
            let bindings = match build_bindings(
                descriptor,
                &pipeline.bindings,
                None,
                RenderPipelineBindingVisibility::Compute,
                quad,
            ) {
                Ok(bindings) => bindings,
                Err(e) => {
                    return Err(e);
                },
            };
            let entry_point = match get_shader_and_entrypoint(
                descriptor,
                &pipeline.shader,
                ShaderRole::Compute,
            ) {
                Ok(entry_point) => entry_point,
                Err(e) => {
                    return Err(e);
                },
            };
            Ok(
                PassResource::Compute {
                    label: clone_label(label),
                    shader: pipeline.shader.clone(),
                    entry_point,
                    bindings,
                    workgroups: *workgroups,
                },
            )
        },
        RenderPass::Render { label, pipeline, clear, draw } => {
            let blen_matches = match (&pipeline.bindings, &pipeline.bindings_visibility) {
                (Some(b), Some(vv)) => b.len() == vv.len(),
                (None, None) => true,
                _ => false,
            };
            if !blen_matches {
                return Err(
                    ResourceError::InvalidResource {
                        id: String::from_str("Render Pipeline"),
                        reason: String::from_str(
                            "Bindings and Bindings Visibility do not have matching lengths",
                        ),
                    },
                );
            }
            let empty_ids: Vec<String> = Vec::new();
            let ids: &Vec<String> = match &pipeline.bindings {
                Some(b) => b,
                None => &empty_ids,
            };
            let vis: Option<&Vec<RenderPipelineBindingVisibility>> = match &pipeline
                .bindings_visibility {
                Some(vv) => Some(vv),
                None => None,
            };
            let bindings = match build_bindings(
                descriptor,
                ids,
                vis,
                RenderPipelineBindingVisibility::Compute,
                quad,
            ) {
                Ok(bindings) => bindings,
                Err(e) => {
                    return Err(e);
                },
            };
            let vertex_entry = match get_shader_and_entrypoint(
                descriptor,
                &pipeline.shader_vertex,
                ShaderRole::Vertex,
            ) {
                Ok(vertex_entry) => vertex_entry,
                Err(e) => {
                    return Err(e);
                },
            };
            let fragment: (Option<String>, Option<String>) = match &pipeline.shader_fragment {
                Some(fid) => {
                    match get_shader_and_entrypoint(descriptor, fid, ShaderRole::Fragment) {
                        Ok(fe) => (Some(fid.clone()), Some(fe)),
                        Err(e) => {
                            return Err(e);
                        },
                    }
                },
                None => (None, None),
            };
            Ok(
                PassResource::Render {
                    label: clone_label(label),
                    vertex_shader: pipeline.shader_vertex.clone(),
                    vertex_entry,
                    fragment_shader: fragment.0,
                    fragment_entry: fragment.1,
                    bindings,
                    topology: pipeline.topology,
                    polygon_mode: pipeline.polygon_mode,
                    front_face: pipeline.front_face,
                    cull_mode: pipeline.cull_mode,
                    vertex_layout: clone_vertex_opt(&pipeline.vertex),
                    clear: clone_clear(clear),
                    draw: clone_draws(draw),
                },
            )
        },
        RenderPass::ShaderToy { label, source, bindings } => {
            let ghost extras_seq: Seq<String> = match bindings {
                Some(b) => b@,
                None => Seq::<String>::empty(),
            };
            let mut ids: Vec<String> = Vec::new();
            ids.push(String::from_str("shadertoy"));
            if let Some(extras) = bindings {
                let e_len = extras.len();
                let mut x: usize = 0;
                while x < e_len
                    invariant
                        e_len == extras@.len(),
                        x <= e_len,
                        ids@.len() == 1 + x,
                        ids@[0]@ == "shadertoy"@,
                        forall|c: int| 0 <= c < x ==> #[trigger] ids@[c + 1] == extras@[c],
                    decreases e_len - x,
                {
                    ids.push(extras[x].clone());
                    x = x + 1;
                }
                proof {
                    assert(extras@ == extras_seq);
                }
            }
            proof {
                assert(spec_classify(*descriptor, "shadertoy"@, quad) is Ok) by {
                    if decl_of(*descriptor, "shadertoy"@) is Some {
                        assert(is_uniform_id(*descriptor, "shadertoy"@));
                    } else {
                        assert(is_uniform_id(*descriptor, "shadertoy"@));
                    }
                }
                assert(ids@[0]@ == "shadertoy"@);
                assert(ids@.drop_first() =~= extras_seq);
                lemma_first_bind_err_cons(*descriptor, ids@, quad);
            }
            let bindings_built = match build_bindings(
                descriptor,
                &ids,
                None,
                RenderPipelineBindingVisibility::Fragment,
                quad,
            ) {
                Ok(bindings_built) => bindings_built,
                Err(e) => {
                    proof {
                        lemma_first_bind_err_bounds(*descriptor, ids@, quad);
                        let (cb, ce) = spec_first_bind_err(*descriptor, ids@, quad)->0;
                        assert(spec_first_bind_err(*descriptor, extras_seq, quad) == Some(
                            ((cb - 1) as int, ce),
                        ));
                        lemma_first_bind_err_bounds(*descriptor, extras_seq, quad);
                        let cbm1 = cb - 1;
                        assert(0 <= cbm1 < extras_seq.len());
                        assert(ids@[cbm1 + 1] == extras_seq[cbm1]);
                        assert(ids@[cb]@ == extras_seq[cb - 1]@);
                    }
                    return Err(e);
                },
            };
            let harness_id = String::from_str("shadertoy_vertex_shader");
            let vertex_entry = match get_shader_and_entrypoint(
                descriptor,
                &harness_id,
                ShaderRole::Vertex,
            ) {
                Ok(vertex_entry) => vertex_entry,
                Err(e) => {
                    return Err(e);
                },
            };
            let fragment_entry = match get_shader_and_entrypoint(
                descriptor,
                source,
                ShaderRole::Fragment,
            ) {
                Ok(fragment_entry) => fragment_entry,
                Err(e) => {
                    return Err(e);
                },
            };
            let quad_vertex = BufferVertex {
                stride: 16,
                step: Some(BufferVertexStep::Vertex),
                attributes: vec![
                    BufferVertexAttribute {
                        offset: 0,
                        location: 0,
                        format: BufferVertexAttributeFormat::Float32x2,
                    },
                    BufferVertexAttribute {
                        offset: 8,
                        location: 1,
                        format: BufferVertexAttributeFormat::Float32x2,
                    },
                ],
            };
            buffers.insert(
                String::from_str("shadertoy_quad"),
                BufferResource {
                    label: Some(String::from_str("Quad Buffer")),
                    init: BufferInit::Data { data: quad_bytes() },
                    usage: BufferUsage {
                        uniform: false,
                        storage: false,
                        vertex: true,
                        copy_dst: false,
                    },
                    vertex: Some(quad_vertex),
                    vertex_count: Some(6),
                    storage: None,
                },
            );
            let result = PassResource::ShaderToy {
                label: clone_label(label),
                fragment_shader: source.clone(),
                fragment_entry,
                bindings: bindings_built,
            };
            proof {
                assert(spec_pass_matches_decl(*descriptor, *pass, quad, result));
            }
            Ok(result)
        },
    }
}

/// A bridge target among the first `i` declarations is the id of a uniform
/// declaration whose value list holds the key.
proof fn lemma_lookup_target_is_uniform(decls: Seq<(String, Resource)>, k: Seq<char>, i: int)
    requires
        0 <= i <= decls.len(),
        spec_lookup_target(decls, k, i) is Some,
    ensures
        exists|j: int|
            0 <= j < i && ((#[trigger] decls[j]).0@ == spec_lookup_target(decls, k, i)->0 && (
            decls[j].1 matches Resource::Uniform { values, .. } && (exists|v: int|
                0 <= v < values@.len() && (#[trigger] values@[v])@ == k))),
    decreases i,
{
    let last = decls[i - 1];
    match last.1 {
        Resource::Uniform { values, .. } => {
            if exists|v: int| 0 <= v < values@.len() && (#[trigger] values@[v])@ == k {
                assert(decls[i - 1].0@ == spec_lookup_target(decls, k, i)->0);
            } else {
                lemma_lookup_target_is_uniform(decls, k, i - 1);
            }
        },
        _ => {
            lemma_lookup_target_is_uniform(decls, k, i - 1);
        },
    }
}

/// When no failure occurs among the first `n` resources, none occurs at any
/// single step below `n`.
proof fn lemma_resources_err_none_at(
    decls: Seq<(String, Resource)>,
    smap: Map<Seq<char>, SettingValue>,
    fmap: Map<Seq<char>, Vec<u8>>,
    j: int,
    n: int,
)
    requires
        0 <= j < n <= decls.len(),
        spec_resources_err_upto(decls, smap, fmap, n) is None,
    ensures
        spec_resource_err_one(decls[j], smap, fmap, j) is None,
        !is_internal_id(decls[j].0@),
        decls[j].1 matches Resource::Uniform { values, .. } ==> spec_pack_error(values@, smap)
            is None,
    decreases n,
{
    if j < n - 1 {
        lemma_resources_err_none_at(decls, smap, fmap, j, n - 1);
    }
}

/// A freshly assembled compilation result satisfies the standing invariant
/// and can take any same-variant setting update.
proof fn lemma_final_state(scene: Scene, width: u32, height: u32, res: Resources)
    requires
        scene.wf(),
        res.maps_wf(),
        spec_builtins_ok(res.buf_map(), res.uni_map()),
        res.dirty_seq().len() == 0,
        spec_resources_err_upto(
            scene.descriptor.resources.pairs(),
            scene.settings@,
            scene.files@,
            scene.descriptor.resources.pairs().len() as int,
        ) is None,
        spec_decls_built(
            scene,
            width,
            height,
            scene.descriptor.resources.pairs().len() as int,
            res.buf_map(),
            res.cam_map(),
            res.uni_map(),
            res.shader_map(),
        ),
        spec_harness_built(
            scene.descriptor.resources.pairs(),
            scene.descriptor.resources.pairs().len() as int,
            res.shader_map(),
        ),
        spec_lookup_built(
            scene.descriptor.resources.pairs(),
            scene.descriptor.resources.pairs().len() as int,
            res.lookup_map(),
        ),
        res.pass_seq().len() == scene.descriptor.render_passes@.len(),
        forall|q: int|
            0 <= q < scene.descriptor.render_passes@.len() ==> spec_pass_matches(
                scene.descriptor,
                q,
                spec_quad_before(scene.descriptor.render_passes@, q),
                #[trigger] res.pass_seq()[q],
            ),
        spec_quad_before(
            scene.descriptor.render_passes@,
            scene.descriptor.render_passes@.len() as int,
        ) ==> res.buf_map().contains_key("shadertoy_quad"@) && spec_quad_buffer_ok(
            res.buf_map()["shadertoy_quad"@],
        ),
    ensures
        res.wf(),
        res.compiled_from(scene, width, height),
{
    let decls = scene.descriptor.resources.pairs();
    let n = decls.len() as int;
    let smap = scene.settings@;

    // Every bridged key patches an existing custom block, inside bounds for
    // any same-variant value.
    assert forall|k: Seq<char>| #[trigger] res.lookup_map().contains_key(k) implies {
        let uid = res.lookup_map()[k]@;
        &&& res.uni_map().contains_key(uid)
        &&& (res.uni_map()[uid] matches UniformResource::Custom { content, offsets }
            && offsets.wf() && offsets@.contains_key(k))
        &&& res.buf_map().contains_key(uid)
    } by {
        lemma_lookup_target_is_uniform(decls, k, n);
    }

    assert forall|k: Seq<char>, v: SettingValue|
        res.lookup_map().contains_key(k) && smap.contains_key(k) && same_variant(v, smap[k])
        implies #[trigger] res.update_ok(k, v) by {
        lemma_lookup_target_is_uniform(decls, k, n);
        let j = choose|j: int|
            0 <= j < n && ((#[trigger] decls[j]).0@ == spec_lookup_target(decls, k, n)->0 && (
            decls[j].1 matches Resource::Uniform { values, .. } && (exists|v2: int|
                0 <= v2 < values@.len() && (#[trigger] values@[v2])@ == k)));
        match decls[j].1 {
            Resource::Uniform { values, .. } => {
                lemma_resources_err_none_at(decls, smap, scene.files@, j, n);
                lemma_pack_none_present(values@, smap);
                lemma_align_bounds(values@, smap);
                let align = spec_uniform_align(values@, smap);
                lemma_uniform_content_len(values@, smap, align);
                lemma_last_occurrence(values@, k);
                let w = choose|w: int|
                    0 <= w < values@.len() && (#[trigger] values@[w])@ == k && (forall|w2: int|
                        w < w2 < values@.len() ==> (#[trigger] values@[w2])@ != k);
                let uid = res.lookup_map()[k]@;
                assert(res.uni_map()[uid] matches UniformResource::Custom { content, offsets }
                    && offsets@[k] == w * align && content@.len() == values@.len() * align);
                assert(smap[values@[w]@].spec_size() <= smap[values@[w]@].spec_alignment());
                assert(v.spec_size() == smap[k].spec_size());
                assert(w * align + align <= values@.len() * align) by (nonlinear_arith)
                    requires
                        0 <= w < values@.len(),
                        align >= 0,
                ;
            },
            _ => {
                assert(false);
            },
        }
    }

    // A compiled shadertoy pass exists exactly where a shadertoy pass was
    // declared, so the quad is on hand when one is.
    if exists|q: int| 0 <= q < res.pass_seq().len() && res.pass_seq()[q] is ShaderToy {
        let q = choose|q: int| 0 <= q < res.pass_seq().len() && res.pass_seq()[q] is ShaderToy;
        assert(spec_pass_matches(
            scene.descriptor,
            q,
            spec_quad_before(scene.descriptor.render_passes@, q),
            res.pass_seq()[q],
        ));
        assert(scene.descriptor.render_passes@[q] is ShaderToy);
        assert(spec_quad_before(
            scene.descriptor.render_passes@,
            scene.descriptor.render_passes@.len() as int,
        ));
    }
}

/// The compiled realization of one scene:
/// The compiled realization of one scene: every declared resource validated
/// and laid out, every pass classified, and the live bridge from setting
/// keys to uniform bytes.
#[derive(Debug)]
pub struct Resources {
    buffers: DeserializableMap<BufferResource>,
    cameras: DeserializableMap<CameraResource>,
    uniforms: DeserializableMap<UniformResource>,
    shaders: DeserializableMap<ShaderResource>,
    passes: Vec<PassResource>,
    setting_lookup: DeserializableMap<String>,
    updated_uniforms: Vec<String>,
}

impl Resources {
    /// The compiled buffers, by id.
    pub closed spec fn buf_map(&self) -> Map<Seq<char>, BufferResource> {
        self.buffers@
    }

    /// The compiled cameras, by id.
    pub closed spec fn cam_map(&self) -> Map<Seq<char>, CameraResource> {
        self.cameras@
    }

    /// The compiled uniform blocks, by id.
    pub closed spec fn uni_map(&self) -> Map<Seq<char>, UniformResource> {
        self.uniforms@
    }

    /// The compiled shader modules, by id.
    pub closed spec fn shader_map(&self) -> Map<Seq<char>, ShaderResource> {
        self.shaders@
    }

    /// The bridge from setting key to the uniform id it patches.
    pub closed spec fn lookup_map(&self) -> Map<Seq<char>, String> {
        self.setting_lookup@
    }

    /// The compiled passes, in declared order.
    pub closed spec fn pass_seq(&self) -> Seq<PassResource> {
        self.passes@
    }

    /// The uniform ids patched since the last planned frame.
    pub closed spec fn dirty_seq(&self) -> Seq<String> {
        self.updated_uniforms@
    }

    /// The backing tables all keep their keys unique.
    pub closed spec fn maps_wf(&self) -> bool {
        &&& self.buffers.wf()
        &&& self.cameras.wf()
        &&& self.uniforms.wf()
        &&& self.shaders.wf()
        &&& self.setting_lookup.wf()
    }

    /// The standing shape of a compiled scene: the built-ins exist, every
    /// setting the bridge knows patches an existing custom uniform block
    /// with a recorded offset, the dirty list names existing custom blocks
    /// without repetition, and a shadertoy pass finds its quad.
    pub open spec fn wf(&self) -> bool {
        &&& self.maps_wf()
        &&& spec_builtins_ok(self.buf_map(), self.uni_map())
        &&& forall|k: Seq<char>|
            #[trigger] self.lookup_map().contains_key(k) ==> {
                let uid = self.lookup_map()[k]@;
                &&& self.uni_map().contains_key(uid)
                &&& (self.uni_map()[uid] matches UniformResource::Custom { content, offsets }
                    && offsets.wf() && offsets@.contains_key(k))
                &&& self.buf_map().contains_key(uid)
            }
        &&& forall|i: int|
            0 <= i < self.dirty_seq().len() ==> {
                let uid = (#[trigger] self.dirty_seq()[i])@;
                &&& self.uni_map().contains_key(uid)
                &&& self.uni_map()[uid] is Custom
                &&& self.buf_map().contains_key(uid)
            }
        &&& forall|i: int, j: int|
            0 <= i < self.dirty_seq().len() && 0 <= j < self.dirty_seq().len() && i != j
                ==> self.dirty_seq()[i]@ != self.dirty_seq()[j]@
        &&& (exists|p: int| 0 <= p < self.pass_seq().len() && self.pass_seq()[p] is ShaderToy)
            ==> self.buf_map().contains_key("shadertoy_quad"@) && spec_quad_buffer_ok(
            self.buf_map()["shadertoy_quad"@],
        )
    }

    /// Whether patching `key` with `value` stays inside the bytes of the
    /// uniform block the bridge points it to.
    pub open spec fn update_ok(&self, key: Seq<char>, value: SettingValue) -> bool {
        self.lookup_map().contains_key(key) ==> {
            let uid = self.lookup_map()[key]@;
            &&& self.uni_map().contains_key(uid)
            &&& (self.uni_map()[uid] matches UniformResource::Custom { content, offsets } && {
                &&& offsets@.contains_key(key)
                &&& offsets@[key] + value.spec_size() <= content@.len()
            })
        }
    }

    /// What a successful compilation of `scene` at `width` x `height` holds:
    /// the exact compiled form of every declaration, the bridge keyed by
    /// exactly the keys some uniform block references (the last such block
    /// deciding), one compiled pass per declared pass, a clean dirty list,
    /// and room for any same-variant setting update.
    pub open spec fn compiled_from(&self, scene: Scene, width: u32, height: u32) -> bool {
        let decls = scene.descriptor.resources.pairs();
        let passes = scene.descriptor.render_passes@;
        &&& spec_decls_built(
            scene,
            width,
            height,
            decls.len() as int,
            self.buf_map(),
            self.cam_map(),
            self.uni_map(),
            self.shader_map(),
        )
        &&& spec_harness_built(decls, decls.len() as int, self.shader_map())
        &&& spec_lookup_built(decls, decls.len() as int, self.lookup_map())
        &&& self.pass_seq().len() == passes.len()
        &&& forall|p: int|
            0 <= p < passes.len() ==> spec_pass_matches(
                scene.descriptor,
                p,
                spec_quad_before(passes, p),
                #[trigger] self.pass_seq()[p],
            )
        &&& self.dirty_seq().len() == 0
        &&& forall|k: Seq<char>, v: SettingValue|
            self.lookup_map().contains_key(k) && scene.settings@.contains_key(k) && same_variant(
                v,
                scene.settings@[k],
            ) ==> #[trigger] self.update_ok(k, v)
    }

    /// Compiles a scene into its GPU plan: validates every declaration and
    /// cross-reference in order, packs the setting-backed uniform blocks,
    /// and classifies every pass, failing with the first error found and
    /// building nothing partial. `width` and `height` size the cameras.
    #[verifier::rlimit(100)]
    pub fn new(scene: &Scene, width: u32, height: u32) -> (r: Result<Resources, ResourceError>)
        requires
            scene.wf(),
            spec_sizes_fit(scene.descriptor),
        ensures
            r is Ok <==> spec_compile_err(*scene) is None,
            r is Err ==> err_matches(*scene, spec_compile_err(*scene)->0, r->Err_0),
            r is Ok ==> r->Ok_0.wf() && r->Ok_0.compiled_from(*scene, width, height),
    {
        let descriptor = &scene.descriptor;
        let ghost decls = descriptor.resources.pairs();
        let ghost smap = scene.settings@;
        let ghost fmap = scene.files@;

        let mut buffers = DeserializableMap::<BufferResource>::empty();
        let mut cameras = DeserializableMap::<CameraResource>::empty();
        let mut uniforms = DeserializableMap::<UniformResource>::empty();
        let mut shaders = DeserializableMap::<ShaderResource>::empty();
        let mut setting_lookup = DeserializableMap::<String>::empty();

        proof {
            reveal_strlit("time");
            reveal_strlit("shadertoy");
            reveal_strlit("shadertoy_vertex_shader");
            reveal_strlit("shadertoy_quad");
        }
        let builtin_usage = BufferUsage {
            uniform: true,
            storage: false,
            vertex: false,
            copy_dst: true,
        };
        buffers.insert(
            String::from_str("time"),
            BufferResource {
                label: Some(String::from_str("Time Uniform")),
                init: BufferInit::Zeroed { size: 8 },
                usage: builtin_usage,
                vertex: None,
                vertex_count: None,
                storage: None,
            },
        );
        uniforms.insert(String::from_str("time"), UniformResource::Internal);
        buffers.insert(
            String::from_str("shadertoy"),
            BufferResource {
                label: Some(String::from_str("ShaderToy Uniform")),
                init: BufferInit::Zeroed { size: 48 },
                usage: builtin_usage,
                vertex: None,
                vertex_count: None,
                storage: None,
            },
        );
        uniforms.insert(String::from_str("shadertoy"), UniformResource::Internal);
        proof {
            lemma_internal_ids_distinct();
            assert(buffers@.contains_key("time"@));
            assert(buffers@["time"@].init matches BufferInit::Zeroed { size: s } && s == 8);
            assert(buffers@["time"@].usage == builtin_usage);
            assert(uniforms@.contains_key("time"@));
            assert(uniforms@["time"@] is Internal);
            assert(buffers@.contains_key("shadertoy"@));
            assert(buffers@["shadertoy"@].init matches BufferInit::Zeroed { size: s2 } && s2
                == 48);
            assert(spec_builtins_ok(buffers@, uniforms@));
        }

        let entries = descriptor.resources.iter();
        let n = entries.len();
        let mut i: usize = 0;
        while i < n
            invariant
                scene.wf(),
                spec_sizes_fit(scene.descriptor),
                decls == scene.descriptor.resources.pairs(),
                smap == scene.settings@,
                fmap == scene.files@,
                entries@ == decls,
                n == decls.len(),
                i <= n,
                buffers.wf(),
                cameras.wf(),
                uniforms.wf(),
                shaders.wf(),
                setting_lookup.wf(),
                spec_builtins_ok(buffers@, uniforms@),
                spec_resources_err_upto(decls, smap, fmap, i as int) is None,
                forall|j: int| 0 <= j < i ==> !is_internal_id((#[trigger] decls[j]).0@),
                spec_decls_built(
                    *scene,
                    width,
                    height,
                    i as int,
                    buffers@,
                    cameras@,
                    uniforms@,
                    shaders@,
                ),
                spec_harness_built(decls, i as int, shaders@),
                spec_lookup_built(decls, i as int, setting_lookup@),
            decreases n - i,
        {
            let id = &entries[i].0;
            if is_internal(id) {
                proof {
                    lemma_resources_err_sticks(decls, smap, fmap, i + 1, n as int);
                    reveal_strlit("Resource id is reserved");
                }
                return Err(
                    ResourceError::InvalidResource {
                        id: id.clone(),
                        reason: String::from_str("Resource id is reserved"),
                    },
                );
            }
            match &entries[i].1 {
                Resource::Buffer { label, size, storage, vertex, vertices } => {
                    match compile_buffer(id, label, size, storage, vertex, vertices) {
                        Ok(b) => {
                            buffers.insert(id.clone(), b);
                        },
                        Err(e) => {
                            proof {
                                lemma_resources_err_sticks(decls, smap, fmap, i + 1, n as int);
                            }
                            return Err(e);
                        },
                    }
                },
                Resource::Camera { projection, position, look_at } => {
                    cameras.insert(
                        id.clone(),
                        CameraResource {
                            projection: *projection,
                            position: *position,
                            look_at: *look_at,
                            width,
                            height,
                        },
                    );
                    buffers.insert(
                        id.clone(),
                        BufferResource {
                            label: Some(String::from_str("Camera Buffer")),
                            init: BufferInit::CameraMatrix { size: 128 },
                            usage: BufferUsage {
                                uniform: true,
                                storage: false,
                                vertex: false,
                                copy_dst: true,
                            },
                            vertex: None,
                            vertex_count: None,
                            storage: None,
                        },
                    );
                },
                Resource::Shader { label, main, vertex_main, fragment_main, format, stage, .. } => {
                    let source = match scene.files.get(id) {
                        Some(source) => source,
                        None => {
                            proof {
                                assert(crate::scene::spec_shader_src(decls[i as int].1) is Some);
                                assert(false);
                            }
                            return Err(ResourceError::MissingResource { id: id.clone() });
                        },
                    };
                    match compile_shader_decl(
                        id,
                        label,
                        main,
                        vertex_main,
                        fragment_main,
                        format,
                        stage,
                        source,
                    ) {
                        Ok(sr) => {
                            shaders.insert(id.clone(), sr);
                        },
                        Err(e) => {
                            proof {
                                lemma_resources_err_sticks(decls, smap, fmap, i + 1, n as int);
                            }
                            return Err(e);
                        },
                    }
                },
                Resource::ShaderToy { label, .. } => {
                    let source = match scene.files.get(id) {
                        Some(source) => source,
                        None => {
                            proof {
                                assert(crate::scene::spec_shader_src(decls[i as int].1) is Some);
                                assert(false);
                            }
                            return Err(ResourceError::MissingResource { id: id.clone() });
                        },
                    };
                    match compile_shadertoy_decl(id, label, source) {
                        Ok((fragment, vertex)) => {
                            shaders.insert(id.clone(), fragment);
                            shaders.insert(String::from_str("shadertoy_vertex_shader"), vertex);
                        },
                        Err(e) => {
                            proof {
                                lemma_resources_err_sticks(decls, smap, fmap, i + 1, n as int);
                            }
                            return Err(e);
                        },
                    }
                },
                Resource::Uniform { label, values } => {
                    match pack_uniform(id, values, &scene.settings) {
                        Ok((content, offsets, _align)) => {
                            let content_copy = vstd::slice::slice_to_vec(content.as_slice());
                            uniforms.insert(
                                id.clone(),
                                UniformResource::Custom { content, offsets },
                            );
                            buffers.insert(
                                id.clone(),
                                BufferResource {
                                    label: clone_label(label),
                                    init: BufferInit::Data { data: content_copy },
                                    usage: BufferUsage {
                                        uniform: true,
                                        storage: false,
                                        vertex: false,
                                        copy_dst: true,
                                    },
                                    vertex: None,
                                    vertex_count: None,
                                    storage: None,
                                },
                            );
                            fill_lookup(&mut setting_lookup, values, id, Ghost(decls), Ghost(i as int));
                        },
                        Err(e) => {
                            proof {
                                lemma_resources_err_sticks(decls, smap, fmap, i + 1, n as int);
                            }
                            return Err(e);
                        },
                    }
                },
            }
            i = i + 1;
        }

        let render_passes = &descriptor.render_passes;
        let m = render_passes.len();
        let mut passes: Vec<PassResource> = Vec::new();
        let mut had_toy = false;
        let mut p: usize = 0;
        while p < m
            invariant
                scene.wf(),
                decls == scene.descriptor.resources.pairs(),
                smap == scene.settings@,
                fmap == scene.files@,
                m == scene.descriptor.render_passes@.len(),
                render_passes@ == scene.descriptor.render_passes@,
                *descriptor == scene.descriptor,
                p <= m,
                buffers.wf(),
                cameras.wf(),
                uniforms.wf(),
                shaders.wf(),
                setting_lookup.wf(),
                spec_builtins_ok(buffers@, uniforms@),
                spec_resources_err_upto(decls, smap, fmap, decls.len() as int) is None,
                spec_passes_err_upto(scene.descriptor, scene.descriptor.render_passes@, p as int)
                    is None,
                forall|j: int| 0 <= j < decls.len() ==> !is_internal_id((#[trigger] decls[j]).0@),
                spec_decls_built(
                    *scene,
                    width,
                    height,
                    decls.len() as int,
                    buffers@,
                    cameras@,
                    uniforms@,
                    shaders@,
                ),
                spec_harness_built(decls, decls.len() as int, shaders@),
                spec_lookup_built(decls, decls.len() as int, setting_lookup@),
                had_toy == spec_quad_before(scene.descriptor.render_passes@, p as int),
                had_toy ==> buffers@.contains_key("shadertoy_quad"@) && spec_quad_buffer_ok(
                    buffers@["shadertoy_quad"@],
                ),
                passes@.len() == p,
                forall|q: int|
                    0 <= q < p ==> spec_pass_matches(
                        scene.descriptor,
                        q,
                        spec_quad_before(scene.descriptor.render_passes@, q),
                        #[trigger] passes@[q],
                    ),
            decreases m - p,
        {
            let ghost passes_seq = scene.descriptor.render_passes@;
            let ghost pre_buffers = buffers@;
            let pass = &render_passes[p];
            match compile_pass(descriptor, pass, had_toy, &mut buffers) {
                Ok(pr) => {
                    proof {
                        assert(*pass == passes_seq[p as int]);
                        assert(spec_pass_err_one(
                            scene.descriptor,
                            passes_seq[p as int],
                            spec_quad_before(passes_seq, p as int),
                            p as int,
                        ) is None);
                        assert(spec_passes_err_upto(scene.descriptor, passes_seq, p + 1) is None);
                        assert(spec_pass_matches(
                            scene.descriptor,
                            p as int,
                            spec_quad_before(passes_seq, p as int),
                            pr,
                        ));
                    }
                    passes.push(pr);
                    proof {
                        lemma_internal_ids_distinct();
                        assert(decls == scene.descriptor.resources.pairs());
                        if !(pass is ShaderToy) {
                            assert(buffers@ =~= pre_buffers);
                        } else {
                            assert(spec_builtins_ok(buffers@, uniforms@));
                            assert forall|j: int| 0 <= j < decls.len() implies !is_internal_id(
                                (#[trigger] decls[j]).0@,
                            ) && decls[j].0@ != "shadertoy_quad"@ by {}
                        }
                    }
                    if matches!(pass, RenderPass::ShaderToy { .. }) {
                        had_toy = true;
                    }
                    proof {
                        assert(spec_quad_before(passes_seq, p + 1) == (passes_seq[p as int]
                            is ShaderToy || spec_quad_before(passes_seq, p as int)));
                    }
                },
                Err(e) => {
                    proof {
                        assert(*pass == passes_seq[p as int]);
                        assert(spec_pass_err_one(
                            scene.descriptor,
                            passes_seq[p as int],
                            spec_quad_before(passes_seq, p as int),
                            p as int,
                        ) is Some);
                        assert(spec_passes_err_upto(scene.descriptor, passes_seq, p + 1) is Some);
                        lemma_passes_err_sticks(scene.descriptor, passes_seq, p + 1, m as int);
                    }
                    return Err(e);
                },
            }
            p = p + 1;
        }

        let resources = Resources {
            buffers,
            cameras,
            uniforms,
            shaders,
            passes,
            setting_lookup,
            updated_uniforms: Vec::new(),
        };
        proof {
            lemma_final_state(*scene, width, height, resources);
        }
        Ok(resources)
    }
}

/// Records, for every value key of the uniform declaration at `i`, that the
/// key now patches this block — later blocks override earlier ones.
fn fill_lookup(
    setting_lookup: &mut DeserializableMap<String>,
    values: &Vec<String>,
    id: &String,
    decls_g: Ghost<Seq<(String, Resource)>>,
    i_g: Ghost<int>,
)
    requires
        old(setting_lookup).wf(),
        0 <= i_g@ < decls_g@.len(),
        decls_g@[i_g@].1 matches Resource::Uniform { values: dvals, .. } && dvals@ == values@,
        decls_g@[i_g@].0@ == id@,
        spec_lookup_built(decls_g@, i_g@, old(setting_lookup)@),
    ensures
        final(setting_lookup).wf(),
        spec_lookup_built(decls_g@, i_g@ + 1, final(setting_lookup)@),
{
    let ghost decls = decls_g@;
    let ghost i = i_g@;
    let vcount = values.len();
    let mut v: usize = 0;
    while v < vcount
        invariant
            0 <= i < decls.len(),
            decls[i].1 matches Resource::Uniform { values: dvals, .. } && dvals@ == values@,
            decls[i].0@ == id@,
            vcount == values@.len(),
            v <= vcount,
            setting_lookup.wf(),
            forall|k: Seq<char>|
                #[trigger] setting_lookup@.contains_key(k) <==> (spec_lookup_target(decls, k, i)
                    is Some || exists|w: int| 0 <= w < v && (#[trigger] values@[w])@ == k),
            forall|k: Seq<char>|
                #[trigger] setting_lookup@.contains_key(k) ==> if (exists|w: int|
                    0 <= w < v && (#[trigger] values@[w])@ == k) {
                    setting_lookup@[k]@ == decls[i].0@
                } else {
                    setting_lookup@[k]@ == spec_lookup_target(decls, k, i)->0
                },
        decreases vcount - v,
    {
        setting_lookup.insert(values[v].clone(), id.clone());
        proof {
            assert forall|k: Seq<char>|
                #[trigger] setting_lookup@.contains_key(k) <==> (spec_lookup_target(decls, k, i)
                    is Some || exists|w: int| 0 <= w < v + 1 && (#[trigger] values@[w])@ == k) by {
                if setting_lookup@.contains_key(k) {
                    if k == values@[v as int]@ {
                        assert(values@[v as int]@ == k);
                    }
                }
                if (exists|w: int| 0 <= w < v + 1 && (#[trigger] values@[w])@ == k) {
                    let w = choose|w: int| 0 <= w < v + 1 && (#[trigger] values@[w])@ == k;
                    if w < v {
                        assert(setting_lookup@.contains_key(k));
                    } else {
                        assert(k == values@[v as int]@);
                    }
                }
            }
            assert forall|k: Seq<char>|
                #[trigger] setting_lookup@.contains_key(k) implies (if (exists|w: int|
                0 <= w < v + 1 && (#[trigger] values@[w])@ == k) {
                setting_lookup@[k]@ == decls[i].0@
            } else {
                setting_lookup@[k]@ == spec_lookup_target(decls, k, i)->0
            }) by {
                if k == values@[v as int]@ {
                    assert(values@[v as int]@ == k);
                    assert(setting_lookup@[k]@ == id@);
                } else {
                    if (exists|w: int| 0 <= w < v + 1 && (#[trigger] values@[w])@ == k) {
                        let w = choose|w: int|
                            0 <= w < v + 1 && (#[trigger] values@[w])@ == k;
                        assert(w < v);
                        assert(exists|w2: int| 0 <= w2 < v && (#[trigger] values@[w2])@ == k);
                    }
                }
            }
        }
        v = v + 1;
    }
    proof {
        assert forall|k: Seq<char>|
            #[trigger] setting_lookup@.contains_key(k) <==> spec_lookup_target(
                decls,
                k,
                i + 1,
            ) is Some by {}
        assert forall|k: Seq<char>|
            #[trigger] setting_lookup@.contains_key(k) implies setting_lookup@[k]@
            == spec_lookup_target(decls, k, i + 1)->0 by {}
    }
}



/// The four internal ids are pairwise distinct.
proof fn lemma_internal_ids_distinct()
    ensures
        "time"@ != "shadertoy"@,
        "time"@ != "shadertoy_vertex_shader"@,
        "time"@ != "shadertoy_quad"@,
        "shadertoy"@ != "shadertoy_vertex_shader"@,
        "shadertoy"@ != "shadertoy_quad"@,
        "shadertoy_vertex_shader"@ != "shadertoy_quad"@,
{
    reveal_strlit("time");
    reveal_strlit("shadertoy");
    reveal_strlit("shadertoy_vertex_shader");
    reveal_strlit("shadertoy_quad");
    assert("time"@.len() == 4);
    assert("shadertoy"@.len() == 9);
    assert("shadertoy_vertex_shader"@.len() == 23);
    assert("shadertoy_quad"@.len() == 14);
}


/// One step of a planned frame: a byte upload into a named buffer, a
/// compute dispatch, or a render pass drawing into the frame's target view
/// (cleared to black), each pass referred to by its index in the compiled
/// pass list.
#[derive(Debug)]
pub enum FrameCommand {
    UploadBuffer { id: String, data: Vec<u8> },
    DispatchCompute { pass: usize, workgroups: [u32; 3] },
    DrawPass { pass: usize, draws: Vec<ResolvedDraw> },
}

/// One resolved draw call: the optional vertex buffer to bind, and the
/// final vertex and instance counts.
#[derive(Debug)]
pub struct ResolvedDraw {
    pub vertex_buffer: Option<String>,
    pub vertices: u32,
    pub instances: u32,
}

/// What a draw declaration resolves to: a bound vertex buffer's derived
/// count wins over the declared count, which defaults to zero; the instance
/// count defaults to one.
pub open spec fn resolved_draw_ok(
    bufm: Map<Seq<char>, BufferResource>,
    d: RenderDraw,
    rd: ResolvedDraw,
) -> bool {
    &&& (match (rd.vertex_buffer, d.vertex_buffer) {
        (Some(a), Some(b)) => a@ == b@,
        (None, None) => true,
        _ => false,
    })
    &&& rd.vertices == (match d.vertex_buffer {
        Some(vb) => bufm[vb@].vertex_count->0,
        None => match d.vertex_count {
            Some(c) => c,
            None => 0u32,
        },
    })
    &&& rd.instances == (match d.instances {
        Some(c) => c,
        None => 1u32,
    })
}

/// Whether every draw of every render pass can resolve: a named vertex
/// buffer exists and carries a derived vertex count.
pub open spec fn spec_draws_ok(
    bufm: Map<Seq<char>, BufferResource>,
    passes: Seq<PassResource>,
) -> bool {
    forall|q: int|
        0 <= q < passes.len() ==> match #[trigger] passes[q] {
            PassResource::Render { draw, .. } => forall|d: int|
                0 <= d < draw@.len() ==> match (#[trigger] draw@[d]).vertex_buffer {
                    Some(vb) => bufm.contains_key(vb@) && bufm[vb@].vertex_count is Some,
                    None => true,
                },
            _ => true,
        }
}

/// What the frame command for the compiled pass `q` must be.
pub open spec fn pass_command_ok(
    bufm: Map<Seq<char>, BufferResource>,
    passes: Seq<PassResource>,
    q: int,
    cmd: FrameCommand,
) -> bool {
    match passes[q] {
        PassResource::Compute { workgroups, .. } => cmd matches FrameCommand::DispatchCompute {
            pass,
            workgroups: wg,
        } && pass == q && wg == workgroups,
        PassResource::Render { draw, .. } => cmd matches FrameCommand::DrawPass {
            pass,
            draws,
        } && pass == q && draws@.len() == draw@.len() && (forall|d: int|
            0 <= d < draw@.len() ==> resolved_draw_ok(bufm, draw@[d], #[trigger] draws@[d])),
        PassResource::ShaderToy { .. } => cmd matches FrameCommand::DrawPass { pass, draws }
            && pass == q && draws@.len() == 1 && (draws@[0].vertex_buffer matches Some(vb) && vb@
            == "shadertoy_quad"@) && draws@[0].vertices == bufm["shadertoy_quad"@].vertex_count->0
            && draws@[0].instances == 1,
    }
}

/// Whether `v` holds a string whose view is `k`.
pub open spec fn contains_string_view(v: Seq<String>, k: Seq<char>) -> bool {
    exists|i: int| 0 <= i < v.len() && (#[trigger] v[i])@ == k
}

/// Whether `v` holds a string equal to `key`.
fn contains_string(v: &Vec<String>, key: &String) -> (r: bool)
    ensures
        r == contains_string_view(v@, key@),
{
    let n = v.len();
    let mut i: usize = 0;
    while i < n
        invariant
            n == v@.len(),
            i <= n,
            forall|j: int| 0 <= j < i ==> (#[trigger] v@[j])@ != key@,
        decreases n - i,
    {
        if v[i].eq(key) {
            proof {
                assert((#[trigger] v@[i as int])@ == key@);
            }
            return true;
        }
        i = i + 1;
    }
    false
}

/// An owned copy of a string-keyed table of offsets.
fn clone_offsets(m: &DeserializableMap<usize>) -> (r: DeserializableMap<usize>)
    requires
        m.wf(),
    ensures
        r.wf(),
        r.pairs() == m.pairs(),
        r@ == m@,
{
    let entries = m.iter();
    let n = entries.len();
    let mut r = DeserializableMap::<usize>::empty();
    let mut i: usize = 0;
    while i < n
        invariant
            m.wf(),
            n == m.pairs().len(),
            i <= n,
            entries@ == m.pairs(),
            r.wf(),
            r.pairs() =~= m.pairs().take(i as int),
        decreases n - i,
    {
        proof {
            assert(!r@.contains_key(entries@[i as int].0@)) by {
                if r@.contains_key(entries@[i as int].0@) {
                    crate::util::lemma_get_found_index(r.pairs(), entries@[i as int].0@);
                }
            }
        }
        r.insert(entries[i].0.clone(), entries[i].1);
        i = i + 1;
    }
    proof {
        assert(r.pairs() =~= m.pairs());
    }
    r
}

impl Resources {
    /// Whether every draw of every render pass can resolve against the
    /// compiled buffers.
    pub fn draws_valid(&self) -> (r: bool)
        ensures
            r == spec_draws_ok(self.buf_map(), self.pass_seq()),
    {
        let m = self.passes.len();
        let mut q: usize = 0;
        while q < m
            invariant
                m == self.pass_seq().len(),
                q <= m,
                forall|c: int|
                    0 <= c < q ==> match #[trigger] self.pass_seq()[c] {
                        PassResource::Render { draw, .. } => forall|d: int|
                            0 <= d < draw@.len() ==> match (#[trigger] draw@[d]).vertex_buffer {
                                Some(vb) => self.buf_map().contains_key(vb@)
                                    && self.buf_map()[vb@].vertex_count is Some,
                                None => true,
                            },
                        _ => true,
                    },
            decreases m - q,
        {
            if let PassResource::Render { draw, .. } = &self.passes[q] {
                let dn = draw.len();
                let mut d: usize = 0;
                while d < dn
                    invariant
                        q < self.pass_seq().len(),
                        self.pass_seq()[q as int] is Render,
                        dn == draw@.len(),
                        d <= dn,
                        draw@ == (match self.pass_seq()[q as int] {
                            PassResource::Render { draw: dd, .. } => dd@,
                            _ => draw@,
                        }),
                        forall|c: int|
                            0 <= c < d ==> match (#[trigger] draw@[c]).vertex_buffer {
                                Some(vb) => self.buf_map().contains_key(vb@)
                                    && self.buf_map()[vb@].vertex_count is Some,
                                None => true,
                            },
                    decreases dn - d,
                {
                    if let Some(vb) = &draw[d].vertex_buffer {
                        let bad = match self.buffers.get(vb) {
                            Some(b) => b.vertex_count.is_none(),
                            None => true,
                        };
                        if bad {
                            proof {
                                assert(!spec_draws_ok(self.buf_map(), self.pass_seq())) by {
                                    if spec_draws_ok(self.buf_map(), self.pass_seq()) {
                                        assert(match self.pass_seq()[q as int] {
                                            PassResource::Render { draw: dd, .. } => match (
                                            #[trigger] dd@[d as int]).vertex_buffer {
                                                Some(vbx) => self.buf_map().contains_key(vbx@)
                                                    && self.buf_map()[vbx@].vertex_count is Some,
                                                None => true,
                                            },
                                            _ => true,
                                        });
                                        assert(false);
                                    }
                                }
                            }
                            return false;
                        }
                    }
                    d = d + 1;
                }
            }
            q = q + 1;
        }
        true
    }

    /// Patches `value` into the uniform block `key` is bridged to, marking
    /// the block dirty for the next planned frame; a key no uniform block
    /// references is a no-op. A block already dirty is not marked twice, so
    /// any number of updates between two frames costs one upload.
    pub fn update_setting(&mut self, key: String, value: SettingValue)
        requires
            old(self).wf(),
            old(self).update_ok(key@, value),
        ensures
            final(self).wf(),
            !old(self).lookup_map().contains_key(key@) ==> *final(self) == *old(self),
            final(self).buf_map() == old(self).buf_map(),
            final(self).cam_map() == old(self).cam_map(),
            final(self).shader_map() == old(self).shader_map(),
            final(self).lookup_map() == old(self).lookup_map(),
            final(self).pass_seq() == old(self).pass_seq(),
            old(self).lookup_map().contains_key(key@) ==> {
                let uid = old(self).lookup_map()[key@]@;
                let off = old(self).uni_map()[uid]->Custom_offsets@[key@] as int;
                &&& (final(self).uni_map()[uid] matches UniformResource::Custom {
                    content,
                    offsets,
                } && {
                    let old_content = old(self).uni_map()[uid]->Custom_content;
                    &&& offsets@ == old(self).uni_map()[uid]->Custom_offsets@
                    &&& content@.len() == old_content@.len()
                    &&& (forall|b: int|
                        off <= b < off + value.spec_size() ==> content@[b]
                            === value.spec_bytes()[b - off])
                    &&& (forall|b: int|
                        0 <= b < content@.len() && !(off <= b < off + value.spec_size())
                            ==> content@[b] == old_content@[b])
                })
                &&& (forall|u: Seq<char>|
                    u != uid ==> (#[trigger] final(self).uni_map().contains_key(u) <==> old(
                        self,
                    ).uni_map().contains_key(u)))
                &&& (forall|u: Seq<char>|
                    u != uid && old(self).uni_map().contains_key(u)
                        ==> (#[trigger] final(self).uni_map()[u]) == old(self).uni_map()[u])
                &&& final(self).uni_map().contains_key(uid)
                &&& (contains_string_view(old(self).dirty_seq(), uid) ==> final(self).dirty_seq()
                    == old(self).dirty_seq())
                &&& (!contains_string_view(old(self).dirty_seq(), uid) ==> {
                    &&& final(self).dirty_seq().len() == old(self).dirty_seq().len() + 1
                    &&& (forall|i: int|
                        0 <= i < old(self).dirty_seq().len()
                            ==> (#[trigger] final(self).dirty_seq()[i])
                            == old(self).dirty_seq()[i])
                    &&& final(self).dirty_seq().last()@ == uid
                })
            },
            forall|k2: Seq<char>, v2: SettingValue|
                old(self).update_ok(k2, v2) ==> #[trigger] final(self).update_ok(k2, v2),
    {
        let uid: String = match self.setting_lookup.get(&key) {
            Some(u) => u.clone(),
            None => {
                return ;
            },
        };
        let (new_content, new_offsets) = match self.uniforms.get(&uid) {
            Some(UniformResource::Custom { content, offsets }) => {
                let off: usize = match offsets.get(&key) {
                    Some(o) => *o,
                    None => {
                        proof {
                            assert(false);
                        }
                        return ;
                    },
                };
                let bytes = value.to_bytes();
                let sz = bytes.len();
                let mut nc = vstd::slice::slice_to_vec(content.as_slice());
                let ncl = nc.len();
                let ghost oldc = content@;
                let mut j: usize = 0;
                while j < sz
                    invariant
                        sz == value.spec_size(),
                        bytes@ == value.spec_bytes(),
                        bytes@.len() == sz,
                        off + sz <= ncl,
                        ncl == nc@.len(),
                        j <= sz,
                        nc@.len() == oldc.len(),
                        forall|b: int|
                            off <= b < off + j ==> nc@[b] == value.spec_bytes()[b - off],
                        forall|b: int|
                            0 <= b < nc@.len() && !(off <= b < off + j) ==> nc@[b] == oldc[b],
                    decreases sz - j,
                {
                    nc[off + j] = bytes[j];
                    j = j + 1;
                }
                (nc, clone_offsets(offsets))
            },
            _ => {
                proof {
                    assert(false);
                }
                return ;
            },
        };
        self.uniforms.update_value(
            &uid,
            UniformResource::Custom { content: new_content, offsets: new_offsets },
        );
        if !contains_string(&self.updated_uniforms, &uid) {
            self.updated_uniforms.push(uid);
        }
    }

    /// Plans one frame: writes the built-in `time` and `shadertoy` uniforms,
    /// uploads every uniform block dirtied since the last frame exactly
    /// once, and lists the passes in declared order with their draw calls
    /// resolved. The dirty set is drained.
    pub fn render(&mut self, time: &Time, shadertoy: &ShaderToy) -> (r: Vec<FrameCommand>)
        requires
            old(self).wf(),
            spec_draws_ok(old(self).buf_map(), old(self).pass_seq()),
        ensures
            final(self).wf(),
            final(self).buf_map() == old(self).buf_map(),
            final(self).cam_map() == old(self).cam_map(),
            final(self).uni_map() == old(self).uni_map(),
            final(self).shader_map() == old(self).shader_map(),
            final(self).lookup_map() == old(self).lookup_map(),
            final(self).pass_seq() == old(self).pass_seq(),
            final(self).dirty_seq().len() == 0,
            forall|k2: Seq<char>, v2: SettingValue|
                old(self).update_ok(k2, v2) ==> #[trigger] final(self).update_ok(k2, v2),
            r@.len() == 2 + old(self).dirty_seq().len() + old(self).pass_seq().len(),
            (r@[0] matches FrameCommand::UploadBuffer { id, data } && id@ == "time"@ && data@
                == time.spec_bytes()),
            (r@[1] matches FrameCommand::UploadBuffer { id, data } && id@ == "shadertoy"@ && data@
                == shadertoy.spec_bytes()),
            forall|j: int|
                2 <= j < 2 + old(self).dirty_seq().len() ==> ((#[trigger] r@[j])
                    matches FrameCommand::UploadBuffer { id, data } && id@ == old(
                    self,
                ).dirty_seq()[j - 2]@ && data@ == old(self).uni_map()[old(self).dirty_seq()[j
                    - 2]@]->Custom_content@),
            forall|j: int|
                2 + old(self).dirty_seq().len() <= j < r@.len() ==> pass_command_ok(
                    old(self).buf_map(),
                    old(self).pass_seq(),
                    j - 2 - old(self).dirty_seq().len(),
                    #[trigger] r@[j],
                ),
    {
        let ghost dl = self.dirty_seq().len();
        let mut commands: Vec<FrameCommand> = Vec::new();
        commands.push(
            FrameCommand::UploadBuffer { id: String::from_str("time"), data: time.to_bytes() },
        );
        commands.push(
            FrameCommand::UploadBuffer {
                id: String::from_str("shadertoy"),
                data: shadertoy.to_bytes(),
            },
        );

        let dn = self.updated_uniforms.len();
        let mut i: usize = 0;
        while i < dn
            invariant
                self == old(self),
                self.wf(),
                dn == self.dirty_seq().len(),
                i <= dn,
                commands@.len() == 2 + i,
                (commands@[0] matches FrameCommand::UploadBuffer { id, data } && id@ == "time"@
                    && data@ == time.spec_bytes()),
                (commands@[1] matches FrameCommand::UploadBuffer { id, data } && id@
                    == "shadertoy"@ && data@ == shadertoy.spec_bytes()),
                forall|j: int|
                    2 <= j < 2 + i ==> ((#[trigger] commands@[j])
                        matches FrameCommand::UploadBuffer { id, data }
                        && id@ == self.dirty_seq()[j - 2]@
                        && data@ == self.uni_map()[self.dirty_seq()[j - 2]@]->Custom_content@),
            decreases dn - i,
        {
            let uid = &self.updated_uniforms[i];
            match self.uniforms.get(uid) {
                Some(UniformResource::Custom { content, .. }) => {
                    commands.push(
                        FrameCommand::UploadBuffer {
                            id: uid.clone(),
                            data: vstd::slice::slice_to_vec(content.as_slice()),
                        },
                    );
                },
                _ => {
                    proof {
                        assert(false);
                    }
                },
            }
            i = i + 1;
        }
        self.updated_uniforms = Vec::new();

        let m = self.passes.len();
        let mut q: usize = 0;
        while q < m
            invariant
                self.wf(),
                spec_draws_ok(self.buf_map(), self.pass_seq()),
                self.buf_map() == old(self).buf_map(),
                self.cam_map() == old(self).cam_map(),
                self.uni_map() == old(self).uni_map(),
                self.shader_map() == old(self).shader_map(),
                self.lookup_map() == old(self).lookup_map(),
                self.pass_seq() == old(self).pass_seq(),
                self.dirty_seq().len() == 0,
                dl == old(self).dirty_seq().len(),
                m == self.pass_seq().len(),
                q <= m,
                commands@.len() == 2 + dl + q,
                (commands@[0] matches FrameCommand::UploadBuffer { id, data } && id@ == "time"@
                    && data@ == time.spec_bytes()),
                (commands@[1] matches FrameCommand::UploadBuffer { id, data } && id@
                    == "shadertoy"@ && data@ == shadertoy.spec_bytes()),
                forall|j: int|
                    2 <= j < 2 + dl ==> ((#[trigger] commands@[j])
                        matches FrameCommand::UploadBuffer { id, data } && id@ == old(
                        self,
                    ).dirty_seq()[j - 2]@ && data@ == old(self).uni_map()[old(self).dirty_seq()[j
                        - 2]@]->Custom_content@),
                forall|j: int|
                    2 + dl <= j < commands@.len() ==> pass_command_ok(
                        self.buf_map(),
                        self.pass_seq(),
                        j - 2 - dl,
                        #[trigger] commands@[j],
                    ),
            decreases m - q,
        {
            match &self.passes[q] {
                PassResource::Compute { workgroups, .. } => {
                    commands.push(
                        FrameCommand::DispatchCompute { pass: q, workgroups: *workgroups },
                    );
                },
                PassResource::Render { draw, .. } => {
                    let dn2 = draw.len();
                    let mut draws: Vec<ResolvedDraw> = Vec::new();
                    let mut d: usize = 0;
                    while d < dn2
                        invariant
                            self.wf(),
                            spec_draws_ok(self.buf_map(), self.pass_seq()),
                            q < self.pass_seq().len(),
                            dn2 == draw@.len(),
                            d <= dn2,
                            draw@ == (match self.pass_seq()[q as int] {
                                PassResource::Render { draw: dd, .. } => dd@,
                                _ => draw@,
                            }),
                            self.pass_seq()[q as int] is Render,
                            draws@.len() == d,
                            forall|c: int|
                                0 <= c < d ==> resolved_draw_ok(
                                    self.buf_map(),
                                    draw@[c],
                                    #[trigger] draws@[c],
                                ),
                        decreases dn2 - d,
                    {
                        let decl = &draw[d];
                        let rd = match &decl.vertex_buffer {
                            Some(vb) => {
                                match self.buffers.get(vb) {
                                    Some(b) => {
                                        let vertices = match b.vertex_count {
                                            Some(c) => c,
                                            None => {
                                                proof {
                                                    assert(false);
                                                }
                                                0
                                            },
                                        };
                                        ResolvedDraw {
                                            vertex_buffer: Some(vb.clone()),
                                            vertices,
                                            instances: match decl.instances {
                                                Some(c) => c,
                                                None => 1,
                                            },
                                        }
                                    },
                                    None => {
                                        proof {
                                            assert(false);
                                        }
                                        ResolvedDraw {
                                            vertex_buffer: None,
                                            vertices: 0,
                                            instances: 1,
                                        }
                                    },
                                }
                            },
                            None => ResolvedDraw {
                                vertex_buffer: None,
                                vertices: match decl.vertex_count {
                                    Some(c) => c,
                                    None => 0,
                                },
                                instances: match decl.instances {
                                    Some(c) => c,
                                    None => 1,
                                },
                            },
                        };
                        draws.push(rd);
                        d = d + 1;
                    }
                    commands.push(FrameCommand::DrawPass { pass: q, draws });
                },
                PassResource::ShaderToy { .. } => {
                    let quad_id = String::from_str("shadertoy_quad");
                    let vertices = match self.buffers.get(&quad_id) {
                        Some(b) => match b.vertex_count {
                            Some(c) => c,
                            None => {
                                proof {
                                    assert(false);
                                }
                                0
                            },
                        },
                        None => {
                            proof {
                                assert(false);
                            }
                            0
                        },
                    };
                    let mut draws: Vec<ResolvedDraw> = Vec::new();
                    draws.push(
                        ResolvedDraw { vertex_buffer: Some(quad_id), vertices, instances: 1 },
                    );
                    commands.push(FrameCommand::DrawPass { pass: q, draws });
                },
            }
            q = q + 1;
        }
        commands
    }


    /// Re-targets the compiled cameras at a new surface size: only the
    /// size-dependent state changes — every camera keeps its position and
    /// projection and takes the new aspect — and nothing else is touched.
    pub fn resize(&mut self, width: u32, height: u32)
        requires
            old(self).wf(),
        ensures
            final(self).wf(),
            final(self).buf_map() == old(self).buf_map(),
            final(self).uni_map() == old(self).uni_map(),
            final(self).shader_map() == old(self).shader_map(),
            final(self).lookup_map() == old(self).lookup_map(),
            final(self).pass_seq() == old(self).pass_seq(),
            final(self).dirty_seq() == old(self).dirty_seq(),
            forall|k: Seq<char>|
                #[trigger] final(self).cam_map().contains_key(k) <==> old(
                    self,
                ).cam_map().contains_key(k),
            forall|k: Seq<char>|
                old(self).cam_map().contains_key(k) ==> {
                    let c = #[trigger] final(self).cam_map()[k];
                    let o = old(self).cam_map()[k];
                    &&& c.projection == o.projection
                    &&& c.position == o.position
                    &&& c.look_at == o.look_at
                    &&& c.width == width
                    &&& c.height == height
                },
            forall|k2: Seq<char>, v2: SettingValue|
                old(self).update_ok(k2, v2) ==> #[trigger] final(self).update_ok(k2, v2),
    {
        let entries = self.cameras.iter();
        let n = entries.len();
        let mut resized = DeserializableMap::<CameraResource>::empty();
        let mut i: usize = 0;
        while i < n
            invariant
                self.cameras.wf(),
                n == self.cameras.pairs().len(),
                i <= n,
                entries@ == self.cameras.pairs(),
                resized.wf(),
                resized.pairs().len() == i,
                forall|j: int|
                    0 <= j < i ==> (#[trigger] resized.pairs()[j]).0 == self.cameras.pairs()[j].0,
                forall|j: int|
                    0 <= j < i ==> {
                        let c = (#[trigger] resized.pairs()[j]).1;
                        let o = self.cameras.pairs()[j].1;
                        &&& c.projection == o.projection
                        &&& c.position == o.position
                        &&& c.look_at == o.look_at
                        &&& c.width == width
                        &&& c.height == height
                    },
            decreases n - i,
        {
            let old_cam = &entries[i].1;
            proof {
                assert(!resized@.contains_key(entries@[i as int].0@)) by {
                    if resized@.contains_key(entries@[i as int].0@) {
                        crate::util::lemma_get_found_index(
                            resized.pairs(),
                            entries@[i as int].0@,
                        );
                    }
                }
            }
            resized.insert(
                entries[i].0.clone(),
                CameraResource {
                    projection: old_cam.projection,
                    position: old_cam.position,
                    look_at: old_cam.look_at,
                    width,
                    height,
                },
            );
            i = i + 1;
        }
        proof {
            lemma_resized_lookup(self.cameras.pairs(), resized.pairs());
        }
        self.cameras = resized;
    }

    /// The compiled buffers, for the host to create.
    pub fn buffers(&self) -> (r: &DeserializableMap<BufferResource>)
        ensures
            r@ == self.buf_map(),
    {
        &self.buffers
    }

    /// The compiled cameras, for the host to turn into matrices.
    pub fn cameras(&self) -> (r: &DeserializableMap<CameraResource>)
        ensures
            r@ == self.cam_map(),
    {
        &self.cameras
    }

    /// The compiled uniform blocks.
    pub fn uniforms(&self) -> (r: &DeserializableMap<UniformResource>)
        ensures
            r@ == self.uni_map(),
    {
        &self.uniforms
    }

    /// The compiled shader modules, for the host to compile.
    pub fn shaders(&self) -> (r: &DeserializableMap<ShaderResource>)
        ensures
            r@ == self.shader_map(),
    {
        &self.shaders
    }

    /// The compiled passes, in declared order.
    pub fn passes(&self) -> (r: &Vec<PassResource>)
        ensures
            r@ == self.pass_seq(),
    {
        &self.passes
    }

    /// The bridge from setting key to uniform id.
    pub fn setting_lookup(&self) -> (r: &DeserializableMap<String>)
        ensures
            r@ == self.lookup_map(),
    {
        &self.setting_lookup
    }
}


/// Law: a block of one float and one colour packs to the canonical layout —
/// the shared alignment is 16 (the colour's), the float sits at offset zero
/// in a 16-byte slot, the colour at offset 16, and the block is 32 bytes, a
/// multiple of the alignment. Packing is a function of the value list and
/// the settings alone, so recompiling identical inputs reproduces these
/// bytes exactly.
pub proof fn lemma_uniform_packing_layout(k1: String, k2: String, m: Map<Seq<char>, SettingValue>)
    requires
        k1@ != k2@,
        m.contains_key(k1@),
        m[k1@] is Float,
        m.contains_key(k2@),
        m[k2@] is Colour3,
    ensures
        spec_uniform_align(seq![k1, k2], m) == 16,
        spec_uniform_content(seq![k1, k2], m, 16).len() == 32,
        forall|b: int|
            0 <= b < 4 ==> spec_uniform_content(seq![k1, k2], m, 16)[b] == m[k1@].spec_bytes()[b],
        forall|b: int| 4 <= b < 16 ==> spec_uniform_content(seq![k1, k2], m, 16)[b] == 0,
        forall|b: int|
            16 <= b < 28 ==> spec_uniform_content(seq![k1, k2], m, 16)[b]
                == m[k2@].spec_bytes()[b - 16],
        forall|b: int| 28 <= b < 32 ==> spec_uniform_content(seq![k1, k2], m, 16)[b] == 0,
{
    let vs = seq![k1, k2];
    vstd::bytes::lemma_auto_spec_u32_to_from_le_bytes();
    assert(vs.drop_last() =~= seq![k1]);
    assert(seq![k1].drop_last() =~= Seq::<String>::empty());
    assert(vs.last() == k2);
    assert(seq![k1].last() == k1);
    assert(spec_uniform_align(Seq::<String>::empty(), m) == 0);
    assert(spec_uniform_content(Seq::<String>::empty(), m, 16) == Seq::<u8>::empty());
    assert(spec_uniform_align(seq![k1], m) == 4);
    assert(spec_uniform_align(vs, m) == 16);
    assert(m[k1@].spec_bytes().len() == 4);
    assert(m[k2@].spec_bytes().len() == 12);
    let slot1 = zero_pad(m[k1@].spec_bytes(), 16);
    let slot2 = zero_pad(m[k2@].spec_bytes(), 16);
    assert(slot1.len() == 16);
    assert(slot2.len() == 16);
    assert(spec_uniform_content(seq![k1], m, 16) =~= slot1);
    assert(spec_uniform_content(vs, m, 16) =~= slot1 + slot2);
}

/// Law: compilation is deterministic — two compiled forms of one scene hold
/// byte-identical custom uniform blocks, block by block.
pub proof fn lemma_compile_deterministic(
    scene: Scene,
    width: u32,
    height: u32,
    r1: Resources,
    r2: Resources,
)
    requires
        r1.compiled_from(scene, width, height),
        r2.compiled_from(scene, width, height),
    ensures
        forall|j: int|
            0 <= j < scene.descriptor.resources.pairs().len() && (
            #[trigger] scene.descriptor.resources.pairs()[j]).1 is Uniform ==> {
                let id = scene.descriptor.resources.pairs()[j].0@;
                r1.uni_map()[id]->Custom_content@ == r2.uni_map()[id]->Custom_content@
            },
{
    let decls = scene.descriptor.resources.pairs();
    assert forall|j: int|
        0 <= j < decls.len() && (#[trigger] decls[j]).1 is Uniform implies {
        let id = decls[j].0@;
        r1.uni_map()[id]->Custom_content@ == r2.uni_map()[id]->Custom_content@
    } by {
        assert(spec_uniform_res_ok(
            decls[j].1,
            scene.settings@,
            r1.uni_map()[decls[j].0@],
            r1.buf_map()[decls[j].0@],
        ));
        assert(spec_uniform_res_ok(
            decls[j].1,
            scene.settings@,
            r2.uni_map()[decls[j].0@],
            r2.buf_map()[decls[j].0@],
        ));
    }
}

} // verus!
