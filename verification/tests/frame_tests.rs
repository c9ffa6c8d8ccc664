use shaderbg_render::buffer::{ShaderToy, Time};
use shaderbg_render::descriptor::{Descriptor, Metadata};
use shaderbg_render::pass::{
    RenderDraw, RenderPass, RenderPipeline, RenderPipelineBindingVisibility,
    RenderPipelineCullMode, RenderPipelineFrontFace, RenderPipelinePolygonMode,
    RenderPipelineTopology,
};
use shaderbg_render::resource::Resource;
use shaderbg_render::resources::{FrameCommand, Resources};
use shaderbg_render::scene::Scene;
use shaderbg_render::setting::{Setting, SettingValue};
use shaderbg_render::settings::Settings;
use shaderbg_render::util::DeserializableMap;

/// The end-to-end scenario: one float setting, one uniform block over it,
/// one render pass drawing six vertices.
fn speed_scene() -> Scene {
    let mut schema = DeserializableMap::empty();
    schema.insert(
        String::from("speed"),
        Setting::Float {
            label: String::from("Speed"),
            value: 1.0f32.to_bits(),
            min: 0.0f32.to_bits(),
            max: 4.0f32.to_bits(),
        },
    );
    let mut resources = DeserializableMap::empty();
    resources.insert(
        String::from("shader"),
        Resource::Shader {
            src: String::from("shader.wgsl"),
            label: None,
            main: None,
            format: None,
            stage: None,
            vertex_main: Some(String::from("vs_main")),
            fragment_main: Some(String::from("fs_main")),
        },
    );
    resources.insert(
        String::from("params"),
        Resource::Uniform {
            label: None,
            values: vec![String::from("speed")],
        },
    );
    let pass = RenderPass::Render {
        label: None,
        pipeline: RenderPipeline {
            shader_vertex: String::from("shader"),
            bindings: Some(vec![String::from("params")]),
            bindings_visibility: Some(vec![RenderPipelineBindingVisibility::VertexFragment]),
            shader_fragment: Some(String::from("shader")),
            topology: RenderPipelineTopology::TriangleList,
            polygon_mode: RenderPipelinePolygonMode::Fill,
            front_face: RenderPipelineFrontFace::Ccw,
            cull_mode: RenderPipelineCullMode::Disabled,
            vertex: None,
        },
        clear: None,
        draw: vec![RenderDraw {
            vertex_buffer: None,
            vertex_count: Some(6),
            instances: None,
        }],
    };
    let mut files = DeserializableMap::empty();
    files.insert(String::from("shader"), b"fn vs_main() {}".to_vec());
    let descriptor = Descriptor {
        meta: Metadata {
            name: String::from("demo"),
            version: String::from("1.0"),
            description: String::new(),
            author: String::new(),
        },
        settings: schema,
        ui: Vec::new(),
        resources,
        render_passes: vec![pass],
    };
    let settings = Settings::new(&descriptor).unwrap();
    Scene {
        descriptor,
        settings,
        files,
    }
}

fn uploads_for<'a>(commands: &'a [FrameCommand], id: &str) -> Vec<&'a Vec<u8>> {
    commands
        .iter()
        .filter_map(|c| match c {
            FrameCommand::UploadBuffer { id: cid, data } if cid == id => Some(data),
            _ => None,
        })
        .collect()
}

#[test]
fn end_to_end_update_reaches_uniform_bytes() {
    let scene = speed_scene();
    let mut compiled = Resources::new(&scene, 800, 600).unwrap();
    assert!(compiled.draws_valid());

    compiled.update_setting(String::from("speed"), SettingValue::Float(2.5f32.to_bits()));

    let time = Time::new();
    let toy = ShaderToy::new();
    let commands = compiled.render(&time, &toy);

    let params_uploads = uploads_for(&commands, "params");
    assert_eq!(params_uploads.len(), 1);
    assert_eq!(&params_uploads[0][0..4], &2.5f32.to_le_bytes());

    // The render pass draws its six vertices once.
    match commands.last().unwrap() {
        FrameCommand::DrawPass { pass, draws } => {
            assert_eq!(*pass, 0);
            assert_eq!(draws.len(), 1);
            assert_eq!(draws[0].vertices, 6);
            assert_eq!(draws[0].instances, 1);
            assert!(draws[0].vertex_buffer.is_none());
        }
        other => panic!("expected a draw pass, got {:?}", other),
    }

    // A save and a fresh load reproduce the updated value.
    let mut settings = Settings::new(&scene.descriptor).unwrap();
    settings.update(&String::from("speed"), SettingValue::Float(2.5f32.to_bits()));
    let file = settings.save();
    let reloaded = Settings::load(&file, &scene.descriptor).unwrap();
    assert_eq!(
        *reloaded.get(&String::from("speed")).unwrap(),
        SettingValue::Float(2.5f32.to_bits())
    );
}

#[test]
fn many_updates_between_frames_upload_once() {
    let scene = speed_scene();
    let mut compiled = Resources::new(&scene, 800, 600).unwrap();
    for i in 0..10u32 {
        compiled.update_setting(
            String::from("speed"),
            SettingValue::Float((i as f32).to_bits()),
        );
    }
    let commands = compiled.render(&Time::new(), &ShaderToy::new());
    assert_eq!(uploads_for(&commands, "params").len(), 1);
    assert_eq!(&uploads_for(&commands, "params")[0][0..4], &9.0f32.to_le_bytes());

    // The next frame uploads nothing for a clean block.
    let commands = compiled.render(&Time::new(), &ShaderToy::new());
    assert_eq!(uploads_for(&commands, "params").len(), 0);
}

#[test]
fn update_for_unbridged_key_is_a_no_op() {
    let scene = speed_scene();
    let mut compiled = Resources::new(&scene, 800, 600).unwrap();
    compiled.update_setting(String::from("unused"), SettingValue::Float(0));
    let commands = compiled.render(&Time::new(), &ShaderToy::new());
    // Only the two built-in uploads and the one pass.
    assert_eq!(commands.len(), 3);
}

#[test]
fn frame_starts_with_builtin_uploads() {
    let scene = speed_scene();
    let mut compiled = Resources::new(&scene, 800, 600).unwrap();
    let mut time = Time::new();
    time.update_time(1500, 0.016f32.to_bits());
    let mut toy = ShaderToy::new();
    toy.update(1500, 0.016f32.to_bits(), 1920, 1080);

    let commands = compiled.render(&time, &toy);
    match &commands[0] {
        FrameCommand::UploadBuffer { id, data } => {
            assert_eq!(id, "time");
            assert_eq!(data.len(), 8);
            assert_eq!(&data[0..4], &1500u32.to_le_bytes());
            assert_eq!(&data[4..8], &0.016f32.to_le_bytes());
        }
        other => panic!("expected the time upload, got {:?}", other),
    }
    match &commands[1] {
        FrameCommand::UploadBuffer { id, data } => {
            assert_eq!(id, "shadertoy");
            assert_eq!(data.len(), 48);
            assert_eq!(&data[0..4], &1920.0f32.to_le_bytes());
            assert_eq!(&data[4..8], &1080.0f32.to_le_bytes());
            assert_eq!(&data[16..20], &1.5f32.to_le_bytes());
            assert_eq!(&data[20..24], &0.016f32.to_le_bytes());
        }
        other => panic!("expected the shadertoy upload, got {:?}", other),
    }
}
