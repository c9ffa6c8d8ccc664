use shaderbg_render::descriptor::{Descriptor, Metadata};
use shaderbg_render::pass::{
    ComputePipeline, RenderDraw, RenderPass, RenderPipeline, RenderPipelineBindingVisibility,
    RenderPipelineCullMode, RenderPipelineFrontFace, RenderPipelinePolygonMode,
    RenderPipelineTopology,
};
use shaderbg_render::resource::{Resource, ShaderFormat};
use shaderbg_render::resources::{
    BufferInit, ResourceError, Resources, UniformResource,
};
use shaderbg_render::scene::Scene;
use shaderbg_render::setting::Setting;
use shaderbg_render::settings::Settings;
use shaderbg_render::util::DeserializableMap;

fn meta() -> Metadata {
    Metadata {
        name: String::from("demo"),
        version: String::from("1.0"),
        description: String::new(),
        author: String::new(),
    }
}

fn wgsl_shader_decl() -> Resource {
    Resource::Shader {
        src: String::from("shader.wgsl"),
        label: None,
        main: Some(String::from("cs_main")),
        format: None,
        stage: None,
        vertex_main: Some(String::from("vs_main")),
        fragment_main: Some(String::from("fs_main")),
    }
}

fn render_pass(bindings: Vec<String>) -> RenderPass {
    let vis = bindings
        .iter()
        .map(|_| RenderPipelineBindingVisibility::VertexFragment)
        .collect::<Vec<_>>();
    RenderPass::Render {
        label: None,
        pipeline: RenderPipeline {
            shader_vertex: String::from("shader"),
            bindings: Some(bindings),
            bindings_visibility: Some(vis),
            shader_fragment: Some(String::from("shader")),
            topology: RenderPipelineTopology::TriangleList,
            polygon_mode: RenderPipelinePolygonMode::Fill,
            front_face: RenderPipelineFrontFace::Ccw,
            cull_mode: RenderPipelineCullMode::Disabled,
            vertex: None,
        },
        clear: None,
        draw: vec![RenderDraw {
            vertex_buffer: None,
            vertex_count: Some(6),
            instances: None,
        }],
    }
}

fn scene_with(resources: Vec<(&str, Resource)>, passes: Vec<RenderPass>) -> Scene {
    let mut settings_schema = DeserializableMap::empty();
    settings_schema.insert(
        String::from("speed"),
        Setting::Float {
            label: String::from("Speed"),
            value: 1.0f32.to_bits(),
            min: 0.0f32.to_bits(),
            max: 4.0f32.to_bits(),
        },
    );
    settings_schema.insert(
        String::from("tint"),
        Setting::Colour3 {
            label: String::from("Tint"),
            value: String::from("#FF8000"),
        },
    );
    let mut resource_map = DeserializableMap::empty();
    let mut files = DeserializableMap::empty();
    for (id, r) in resources {
        if matches!(r, Resource::Shader { .. }) {
            files.insert(String::from(id), b"fn vs_main() {}".to_vec());
        }
        if matches!(r, Resource::ShaderToy { .. }) {
            files.insert(String::from(id), b"void mainImage() {}".to_vec());
        }
        resource_map.insert(String::from(id), r);
    }
    let descriptor = Descriptor {
        meta: meta(),
        settings: settings_schema,
        ui: Vec::new(),
        resources: resource_map,
        render_passes: passes,
    };
    let settings = Settings::new(&descriptor).unwrap();
    Scene {
        descriptor,
        settings,
        files,
    }
}

#[test]
fn uniform_packs_float_then_colour_at_sixteen_byte_slots() {
    let scene = scene_with(
        vec![(
            "params",
            Resource::Uniform {
                label: None,
                values: vec![String::from("speed"), String::from("tint")],
            },
        )],
        Vec::new(),
    );
    let compiled = Resources::new(&scene, 800, 600).unwrap();
    match compiled.uniforms().get(&String::from("params")).unwrap() {
        UniformResource::Custom { content, offsets } => {
            assert_eq!(content.len(), 32);
            assert_eq!(&content[0..4], &1.0f32.to_le_bytes());
            assert_eq!(&content[4..16], &[0u8; 12]);
            assert_eq!(&content[16..20], &1.0f32.to_le_bytes());
            assert_eq!(&content[20..24], &(128.0f32 / 255.0).to_le_bytes());
            assert_eq!(&content[24..28], &0.0f32.to_le_bytes());
            assert_eq!(&content[28..32], &[0u8; 4]);
            assert_eq!(*offsets.get(&String::from("speed")).unwrap(), 0);
            assert_eq!(*offsets.get(&String::from("tint")).unwrap(), 16);
        }
        UniformResource::Internal => panic!("params should be a custom block"),
    }
    // Recompiling identical inputs reproduces the bytes exactly.
    let again = Resources::new(&scene, 800, 600).unwrap();
    match (
        compiled.uniforms().get(&String::from("params")).unwrap(),
        again.uniforms().get(&String::from("params")).unwrap(),
    ) {
        (
            UniformResource::Custom { content: a, .. },
            UniformResource::Custom { content: b, .. },
        ) => assert_eq!(a, b),
        _ => panic!("params should be a custom block"),
    }
}

#[test]
fn dangling_binding_fails_with_incorrect_resource() {
    let scene = scene_with(
        vec![("shader", wgsl_shader_decl())],
        vec![render_pass(vec![String::from("nosuch")])],
    );
    match Resources::new(&scene, 800, 600) {
        Err(ResourceError::IncorrectResource { id, .. }) => assert_eq!(id, "nosuch"),
        other => panic!("expected an incorrect resource error, got {:?}", other),
    }
}

#[test]
fn dangling_shader_fails_with_missing_resource() {
    let scene = scene_with(Vec::new(), vec![render_pass(Vec::new())]);
    match Resources::new(&scene, 800, 600) {
        Err(ResourceError::MissingResource { id }) => assert_eq!(id, "shader"),
        other => panic!("expected a missing resource error, got {:?}", other),
    }
}

#[test]
fn uniform_with_unknown_setting_fails_with_missing_setting() {
    let scene = scene_with(
        vec![(
            "params",
            Resource::Uniform {
                label: None,
                values: vec![String::from("absent")],
            },
        )],
        Vec::new(),
    );
    match Resources::new(&scene, 800, 600) {
        Err(ResourceError::MissingSetting { id }) => assert_eq!(id, "absent"),
        other => panic!("expected a missing setting error, got {:?}", other),
    }
}

#[test]
fn empty_vertices_fail() {
    let scene = scene_with(
        vec![(
            "verts",
            Resource::Buffer {
                label: None,
                size: None,
                storage: None,
                vertex: None,
                vertices: Some(Vec::new()),
            },
        )],
        Vec::new(),
    );
    match Resources::new(&scene, 800, 600) {
        Err(ResourceError::InvalidResource { id, reason }) => {
            assert_eq!(id, "verts");
            assert_eq!(reason, "Vertices must not be empty");
        }
        other => panic!("expected an invalid resource error, got {:?}", other),
    }
}

#[test]
fn unequal_vertices_fail() {
    let scene = scene_with(
        vec![(
            "verts",
            Resource::Buffer {
                label: None,
                size: None,
                storage: None,
                vertex: None,
                vertices: Some(vec![
                    vec![0.0f32.to_bits(), 0.0f32.to_bits()],
                    vec![1.0f32.to_bits()],
                ]),
            },
        )],
        Vec::new(),
    );
    match Resources::new(&scene, 800, 600) {
        Err(ResourceError::InvalidResource { reason, .. }) => {
            assert_eq!(reason, "Vertices must all be the same size");
        }
        other => panic!("expected an invalid resource error, got {:?}", other),
    }
}

#[test]
fn vertex_buffer_synthesizes_layout_and_count() {
    let quad = vec![
        vec![0.0f32.to_bits(), 0.0f32.to_bits()],
        vec![1.0f32.to_bits(), 0.0f32.to_bits()],
        vec![0.0f32.to_bits(), 1.0f32.to_bits()],
    ];
    let scene = scene_with(
        vec![(
            "verts",
            Resource::Buffer {
                label: None,
                size: None,
                storage: None,
                vertex: None,
                vertices: Some(quad),
            },
        )],
        Vec::new(),
    );
    let compiled = Resources::new(&scene, 800, 600).unwrap();
    let b = compiled.buffers().get(&String::from("verts")).unwrap();
    assert_eq!(b.vertex_count, Some(3));
    let layout = b.vertex.as_ref().unwrap();
    assert_eq!(layout.stride, 8);
    match &b.init {
        BufferInit::Data { data } => {
            assert_eq!(data.len(), 24);
            assert_eq!(&data[0..4], &0.0f32.to_le_bytes());
            assert_eq!(&data[4..8], &0.0f32.to_le_bytes());
            assert_eq!(&data[8..12], &1.0f32.to_le_bytes());
        }
        other => panic!("expected uploaded data, got {:?}", other),
    }
}

#[test]
fn reserved_ids_are_rejected() {
    for id in ["time", "shadertoy", "shadertoy_vertex_shader", "shadertoy_quad"] {
        let scene = scene_with(
            vec![(
                id,
                Resource::Buffer {
                    label: None,
                    size: Some(16),
                    storage: None,
                    vertex: None,
                    vertices: None,
                },
            )],
            Vec::new(),
        );
        match Resources::new(&scene, 800, 600) {
            Err(ResourceError::InvalidResource { reason, .. }) => {
                assert_eq!(reason, "Resource id is reserved");
            }
            other => panic!("expected a reserved id error, got {:?}", other),
        }
    }
}

#[test]
fn glsl_without_stage_fails() {
    let scene = scene_with(
        vec![(
            "shader",
            Resource::Shader {
                src: String::from("shader.glsl"),
                label: None,
                main: None,
                format: Some(ShaderFormat::Glsl),
                stage: None,
                vertex_main: None,
                fragment_main: None,
            },
        )],
        Vec::new(),
    );
    match Resources::new(&scene, 800, 600) {
        Err(ResourceError::InvalidResource { reason, .. }) => {
            assert_eq!(reason, "GLSL shaders must specify a stage");
        }
        other => panic!("expected a stage error, got {:?}", other),
    }
}

#[test]
fn invalid_utf8_shader_source_fails() {
    let mut scene = scene_with(vec![("shader", wgsl_shader_decl())], Vec::new());
    scene.files = {
        let mut files = DeserializableMap::empty();
        files.insert(String::from("shader"), vec![0xFF, 0xFE, 0x00]);
        files
    };
    match Resources::new(&scene, 800, 600) {
        Err(ResourceError::InvalidShaderUtf8 { id }) => assert_eq!(id, "shader"),
        other => panic!("expected a utf-8 error, got {:?}", other),
    }
}

#[test]
fn builtin_uniforms_always_exist() {
    let scene = scene_with(Vec::new(), Vec::new());
    let compiled = Resources::new(&scene, 800, 600).unwrap();
    let time = compiled.buffers().get(&String::from("time")).unwrap();
    match &time.init {
        BufferInit::Zeroed { size } => assert_eq!(*size, 8),
        other => panic!("expected a zeroed buffer, got {:?}", other),
    }
    let toy = compiled.buffers().get(&String::from("shadertoy")).unwrap();
    match &toy.init {
        BufferInit::Zeroed { size } => assert_eq!(*size, 48),
        other => panic!("expected a zeroed buffer, got {:?}", other),
    }
    assert!(matches!(
        compiled.uniforms().get(&String::from("time")).unwrap(),
        UniformResource::Internal
    ));
    assert!(compiled
        .setting_lookup()
        .get(&String::from("speed"))
        .is_none());
}

#[test]
fn shadertoy_pass_wraps_source_and_plants_quad() {
    let scene = scene_with(
        vec![("toy", Resource::ShaderToy {
            src: String::from("toy.glsl"),
            label: None,
        })],
        vec![RenderPass::ShaderToy {
            label: None,
            source: String::from("toy"),
            bindings: None,
        }],
    );
    let compiled = Resources::new(&scene, 800, 600).unwrap();
    let module = compiled.shaders().get(&String::from("toy")).unwrap();
    let text = String::from_utf8(module.source.clone()).unwrap();
    assert!(text.contains("void mainImage() {}"));
    assert!(text.contains("mainImage(fragColor, iTexCoord * iResolution.xy);"));
    assert!(compiled
        .shaders()
        .get(&String::from("shadertoy_vertex_shader"))
        .is_some());
    let quad = compiled
        .buffers()
        .get(&String::from("shadertoy_quad"))
        .unwrap();
    assert_eq!(quad.vertex_count, Some(6));
    match &quad.init {
        BufferInit::Data { data } => {
            assert_eq!(data.len(), 96);
            assert_eq!(&data[0..4], &(-1.0f32).to_le_bytes());
        }
        other => panic!("expected quad data, got {:?}", other),
    }
    assert_eq!(compiled.passes().len(), 1);
}

#[test]
fn compute_pass_resolves_entry_and_bindings() {
    let scene = scene_with(
        vec![
            ("shader", wgsl_shader_decl()),
            (
                "params",
                Resource::Uniform {
                    label: None,
                    values: vec![String::from("speed")],
                },
            ),
        ],
        vec![RenderPass::Compute {
            label: None,
            pipeline: ComputePipeline {
                shader: String::from("shader"),
                bindings: vec![String::from("params")],
            },
            workgroups: [4, 2, 1],
        }],
    );
    let compiled = Resources::new(&scene, 800, 600).unwrap();
    match &compiled.passes()[0] {
        shaderbg_render::resources::PassResource::Compute {
            entry_point,
            bindings,
            workgroups,
            ..
        } => {
            assert_eq!(entry_point, "cs_main");
            assert_eq!(bindings.len(), 1);
            assert_eq!(bindings[0].id, "params");
            assert_eq!(*workgroups, [4, 2, 1]);
        }
        other => panic!("expected a compute pass, got {:?}", other),
    }
}

#[test]
fn binding_length_mismatch_fails() {
    let pass = RenderPass::Render {
        label: None,
        pipeline: RenderPipeline {
            shader_vertex: String::from("shader"),
            bindings: Some(vec![String::from("params")]),
            bindings_visibility: None,
            shader_fragment: None,
            topology: RenderPipelineTopology::TriangleList,
            polygon_mode: RenderPipelinePolygonMode::Fill,
            front_face: RenderPipelineFrontFace::Ccw,
            cull_mode: RenderPipelineCullMode::Disabled,
            vertex: None,
        },
        clear: None,
        draw: Vec::new(),
    };
    let scene = scene_with(vec![("shader", wgsl_shader_decl())], vec![pass]);
    match Resources::new(&scene, 800, 600) {
        Err(ResourceError::InvalidResource { reason, .. }) => {
            assert_eq!(
                reason,
                "Bindings and Bindings Visibility do not have matching lengths"
            );
        }
        other => panic!("expected a length mismatch error, got {:?}", other),
    }
}

#[test]
fn camera_compiles_to_parameters_and_matrix_buffer() {
    let scene = scene_with(
        vec![(
            "cam",
            Resource::Camera {
                projection: shaderbg_render::resource::CameraProjection::Perspective,
                position: [0.0f32.to_bits(), 1.0f32.to_bits(), 2.0f32.to_bits()],
                look_at: [0; 3],
            },
        )],
        Vec::new(),
    );
    let mut compiled = Resources::new(&scene, 800, 600).unwrap();
    let cam = compiled.cameras().get(&String::from("cam")).unwrap();
    assert_eq!(cam.width, 800);
    assert_eq!(cam.height, 600);
    assert_eq!(cam.position[1], 1.0f32.to_bits());
    match &compiled.buffers().get(&String::from("cam")).unwrap().init {
        BufferInit::CameraMatrix { size } => assert_eq!(*size, 128),
        other => panic!("expected a camera matrix buffer, got {:?}", other),
    }

    // A resize re-targets only the camera's size-dependent state.
    compiled.resize(1920, 1080);
    let cam = compiled.cameras().get(&String::from("cam")).unwrap();
    assert_eq!(cam.width, 1920);
    assert_eq!(cam.height, 1080);
    assert_eq!(cam.position[1], 1.0f32.to_bits());
}
