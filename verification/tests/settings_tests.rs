use shaderbg_render::descriptor::{Descriptor, Metadata};
use shaderbg_render::setting::{Setting, SettingValue};
use shaderbg_render::settings::Settings;
use shaderbg_render::util::DeserializableMap;

fn meta() -> Metadata {
    Metadata {
        name: String::from("demo"),
        version: String::from("1.0"),
        description: String::new(),
        author: String::new(),
    }
}

fn two_setting_descriptor() -> Descriptor {
    let mut settings = DeserializableMap::empty();
    settings.insert(
        String::from("speed"),
        Setting::Float {
            label: String::from("Speed"),
            value: 1.0f32.to_bits(),
            min: 0.0f32.to_bits(),
            max: 4.0f32.to_bits(),
        },
    );
    settings.insert(
        String::from("tint"),
        Setting::Colour3 {
            label: String::from("Tint"),
            value: String::from("#FF8000"),
        },
    );
    Descriptor {
        meta: meta(),
        settings,
        ui: Vec::new(),
        resources: DeserializableMap::empty(),
        render_passes: Vec::new(),
    }
}

#[test]
fn new_fills_defaults_in_schema_order() {
    let d = two_setting_descriptor();
    let s = Settings::new(&d).unwrap();
    let pairs = s.save();
    assert_eq!(pairs.len(), 2);
    assert_eq!(pairs[0].0, "speed");
    assert_eq!(pairs[0].1, SettingValue::Float(1.0f32.to_bits()));
    assert_eq!(pairs[1].0, "tint");
    match pairs[1].1 {
        SettingValue::Colour3(bits) => {
            assert_eq!(bits[0], 1.0f32.to_bits());
            assert_eq!(bits[1], (128.0f32 / 255.0).to_bits());
            assert_eq!(bits[2], 0.0f32.to_bits());
        }
        other => panic!("expected a colour, got {:?}", other),
    }
}

#[test]
fn new_fails_on_bad_schema_colour() {
    let mut settings = DeserializableMap::empty();
    settings.insert(
        String::from("tint"),
        Setting::Colour3 {
            label: String::from("Tint"),
            value: String::from("#nothex"),
        },
    );
    let d = Descriptor {
        meta: meta(),
        settings,
        ui: Vec::new(),
        resources: DeserializableMap::empty(),
        render_passes: Vec::new(),
    };
    assert!(Settings::new(&d).is_err());
}

#[test]
fn save_then_load_round_trips_every_value() {
    let d = two_setting_descriptor();
    let mut s = Settings::new(&d).unwrap();
    s.update(&String::from("speed"), SettingValue::Float(2.5f32.to_bits()));
    let file = s.save();
    let reloaded = Settings::load(&file, &d).unwrap();
    let before = s.save();
    let after = reloaded.save();
    assert_eq!(before.len(), after.len());
    for (a, b) in before.iter().zip(after.iter()) {
        assert_eq!(a.0, b.0);
        assert_eq!(a.1, b.1);
    }
}

#[test]
fn load_substitutes_default_on_variant_mismatch() {
    let d = two_setting_descriptor();
    // A persisted file in which "speed" drifted to the wrong variant.
    let file = vec![
        (
            String::from("speed"),
            SettingValue::Colour3([0, 0, 0]),
        ),
        (
            String::from("tint"),
            SettingValue::Colour3([
                0.25f32.to_bits(),
                0.5f32.to_bits(),
                0.75f32.to_bits(),
            ]),
        ),
    ];
    let s = Settings::load(&file, &d).unwrap();
    assert_eq!(
        *s.get(&String::from("speed")).unwrap(),
        SettingValue::Float(1.0f32.to_bits())
    );
    assert_eq!(
        *s.get(&String::from("tint")).unwrap(),
        SettingValue::Colour3([0.25f32.to_bits(), 0.5f32.to_bits(), 0.75f32.to_bits()])
    );
}

#[test]
fn load_substitutes_default_on_missing_key() {
    let d = two_setting_descriptor();
    let file = vec![(
        String::from("speed"),
        SettingValue::Float(3.0f32.to_bits()),
    )];
    let s = Settings::load(&file, &d).unwrap();
    assert_eq!(
        *s.get(&String::from("speed")).unwrap(),
        SettingValue::Float(3.0f32.to_bits())
    );
    match s.get(&String::from("tint")).unwrap() {
        SettingValue::Colour3(bits) => assert_eq!(bits[0], 1.0f32.to_bits()),
        other => panic!("expected a colour, got {:?}", other),
    }
}

#[test]
fn reset_twice_yields_identical_contents() {
    let d = two_setting_descriptor();
    let mut s = Settings::new(&d).unwrap();
    s.update(&String::from("speed"), SettingValue::Float(3.5f32.to_bits()));
    s.reset(&d).unwrap();
    let first = s.save();
    s.reset(&d).unwrap();
    let second = s.save();
    assert_eq!(first.len(), second.len());
    for (a, b) in first.iter().zip(second.iter()) {
        assert_eq!(a.0, b.0);
        assert_eq!(a.1, b.1);
    }
    assert_eq!(first[0].1, SettingValue::Float(1.0f32.to_bits()));
}

#[test]
fn update_replaces_unconditionally() {
    let d = two_setting_descriptor();
    let mut s = Settings::new(&d).unwrap();
    s.update(&String::from("speed"), SettingValue::Float(0.0f32.to_bits()));
    assert_eq!(
        *s.get(&String::from("speed")).unwrap(),
        SettingValue::Float(0.0f32.to_bits())
    );
    assert!(s.get(&String::from("missing")).is_none());
}

#[test]
fn clone_copies_every_pair() {
    let d = two_setting_descriptor();
    let s = Settings::new(&d).unwrap();
    let c = s.clone();
    let a = s.save();
    let b = c.save();
    assert_eq!(a.len(), b.len());
    for (x, y) in a.iter().zip(b.iter()) {
        assert_eq!(x.0, y.0);
        assert_eq!(x.1, y.1);
    }
}
