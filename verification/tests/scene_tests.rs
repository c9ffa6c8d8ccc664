use shaderbg_render::descriptor::{Descriptor, Metadata, Ui};
use shaderbg_render::resource::Resource;
use shaderbg_render::scene::{Scene, SceneError};
use shaderbg_render::scene_ui::{is_printable_char, SceneUi, SceneUiElement};
use shaderbg_render::setting::Setting;
use shaderbg_render::settings::Settings;
use shaderbg_render::util::DeserializableMap;

fn descriptor_with_ui(ui: Vec<Ui>) -> Descriptor {
    let mut schema = DeserializableMap::empty();
    schema.insert(
        String::from("speed"),
        Setting::Float {
            label: String::from("Speed"),
            value: 1.0f32.to_bits(),
            min: 0.0f32.to_bits(),
            max: 4.0f32.to_bits(),
        },
    );
    schema.insert(
        String::from("tint"),
        Setting::Colour3 {
            label: String::from("Tint"),
            value: String::from("#0080FF"),
        },
    );
    Descriptor {
        meta: Metadata {
            name: String::from("demo"),
            version: String::from("1.0"),
            description: String::new(),
            author: String::new(),
        },
        settings: schema,
        ui,
        resources: DeserializableMap::empty(),
        render_passes: Vec::new(),
    }
}

#[test]
fn consecutive_setting_references_group() {
    let d = descriptor_with_ui(vec![
        Ui::Text {
            text: String::from("Motion"),
        },
        Ui::Setting {
            setting: String::from("speed"),
        },
        Ui::Setting {
            setting: String::from("tint"),
        },
        Ui::Separator,
        Ui::Setting {
            setting: String::from("speed"),
        },
    ]);
    let settings = Settings::new(&d).unwrap();
    let panel = SceneUi::new(&d, &settings);
    assert_eq!(panel.elements.len(), 4);
    assert!(matches!(&panel.elements[0], SceneUiElement::Text(t) if t == "Motion"));
    match &panel.elements[1] {
        SceneUiElement::SettingGroup(g) => assert_eq!(g, &vec![
            String::from("speed"),
            String::from("tint"),
        ]),
        other => panic!("expected a group, got {:?}", other),
    }
    assert!(matches!(&panel.elements[2], SceneUiElement::Separator));
    match &panel.elements[3] {
        SceneUiElement::SettingGroup(g) => assert_eq!(g, &vec![String::from("speed")]),
        other => panic!("expected a group, got {:?}", other),
    }
    assert_eq!(panel.original_values.len(), 2);
}

#[test]
fn printable_chars_filter_controls_and_private_use() {
    assert!(is_printable_char('a'));
    assert!(is_printable_char(' '));
    assert!(is_printable_char('é'));
    assert!(!is_printable_char('\n'));
    assert!(!is_printable_char('\t'));
    assert!(!is_printable_char('\u{7f}'));
    assert!(!is_printable_char('\u{e000}'));
    assert!(!is_printable_char('\u{f8ff}'));
    assert!(!is_printable_char('\u{100000}'));
    assert!(is_printable_char('\u{f900}'));
}

#[test]
fn load_from_memory_moves_shader_files_by_id() {
    let mut d = descriptor_with_ui(Vec::new());
    let mut resources = DeserializableMap::empty();
    resources.insert(
        String::from("main_shader"),
        Resource::Shader {
            src: String::from("shaders/main.wgsl"),
            label: None,
            main: None,
            format: None,
            stage: None,
            vertex_main: Some(String::from("vs_main")),
            fragment_main: None,
        },
    );
    d.resources = resources;
    let mut folder = DeserializableMap::empty();
    folder.insert(String::from("shaders/main.wgsl"), b"fn vs_main() {}".to_vec());
    let scene = Scene::load_from_memory(d, folder).unwrap();
    assert_eq!(
        scene.files.get(&String::from("main_shader")).unwrap().as_slice(),
        b"fn vs_main() {}"
    );
    assert_eq!(
        *scene.settings.get(&String::from("speed")).unwrap(),
        shaderbg_render::setting::SettingValue::Float(1.0f32.to_bits())
    );
}

#[test]
fn load_from_memory_rejects_missing_shader_file() {
    let mut d = descriptor_with_ui(Vec::new());
    let mut resources = DeserializableMap::empty();
    resources.insert(
        String::from("main_shader"),
        Resource::Shader {
            src: String::from("shaders/main.wgsl"),
            label: None,
            main: None,
            format: None,
            stage: None,
            vertex_main: None,
            fragment_main: None,
        },
    );
    d.resources = resources;
    let folder = DeserializableMap::empty();
    match Scene::load_from_memory(d, folder) {
        Err(SceneError::InvalidResource { id, error, .. }) => {
            assert_eq!(id, "main_shader");
            assert_eq!(error, "file not provided");
        }
        other => panic!("expected a missing file error, got {:?}", other),
    }
}
