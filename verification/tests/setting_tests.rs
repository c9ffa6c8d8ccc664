use shaderbg_render::float_bits::ratio_bits;
use shaderbg_render::setting::{Setting, SettingParseError, SettingValue};

#[test]
fn ratio_bits_matches_float_division_over_all_channels() {
    for b in 0u32..=255 {
        let expected = (b as f32 / 255.0f32).to_bits();
        assert_eq!(ratio_bits(b, 255), expected, "channel {}", b);
    }
}

#[test]
fn ratio_bits_matches_float_division_for_times_and_extents() {
    for n in [0u32, 1, 16, 333, 999, 1000, 1001, 59_999, 86_400_000] {
        let expected = (n as f32 / 1000.0f32).to_bits();
        assert_eq!(ratio_bits(n, 1000), expected, "millis {}", n);
    }
    for n in [1u32, 2, 600, 800, 1920, 1080, 4096, u32::MAX] {
        let expected = (n as f32).to_bits();
        assert_eq!(ratio_bits(n, 1), expected, "extent {}", n);
    }
    assert_eq!(ratio_bits(7, 3), (7.0f32 / 3.0f32).to_bits());
    assert_eq!(ratio_bits(1, u32::MAX), (1.0f32 / u32::MAX as f32).to_bits());
}

#[test]
fn colour_parses_to_unit_floats() {
    let schema = Setting::Colour3 {
        label: String::from("tint"),
        value: String::from("#FF8000"),
    };
    match SettingValue::from_descriptor(&schema) {
        Ok(SettingValue::Colour3(bits)) => {
            let r = f32::from_bits(bits[0]);
            let g = f32::from_bits(bits[1]);
            let b = f32::from_bits(bits[2]);
            assert!((r - 1.0).abs() <= 1.0 / 255.0);
            assert!((g - 0.502).abs() <= 1.0 / 255.0);
            assert!(b.abs() <= 1.0 / 255.0);
        }
        other => panic!("expected a colour, got {:?}", other),
    }
}

#[test]
fn bad_hex_fails_with_invalid_hex() {
    let schema = Setting::Colour3 {
        label: String::from("tint"),
        value: String::from("#GGGGGG"),
    };
    match SettingValue::from_descriptor(&schema) {
        Err(SettingParseError::InvalidHex(text)) => assert_eq!(text, "#GGGGGG"),
        other => panic!("expected an invalid hex error, got {:?}", other),
    }
}

#[test]
fn short_and_unprefixed_hex_fail() {
    for bad in ["#FFF", "FF8000", "#FF800", "#FF80000", ""] {
        let schema = Setting::Colour3 {
            label: String::from("tint"),
            value: String::from(bad),
        };
        assert!(
            SettingValue::from_descriptor(&schema).is_err(),
            "{:?} should not parse",
            bad
        );
    }
}

#[test]
fn float_default_is_the_declared_bits() {
    let bits = 1.0f32.to_bits();
    let schema = Setting::Float {
        label: String::from("speed"),
        value: bits,
        min: 0.0f32.to_bits(),
        max: 4.0f32.to_bits(),
    };
    assert_eq!(
        SettingValue::from_descriptor(&schema).unwrap(),
        SettingValue::Float(bits)
    );
}

#[test]
fn value_bytes_are_little_endian_floats() {
    let v = SettingValue::Float(2.5f32.to_bits());
    assert_eq!(v.size(), 4);
    assert_eq!(v.alignment(), 4);
    assert_eq!(v.to_bytes(), 2.5f32.to_le_bytes().to_vec());

    let c = SettingValue::Colour3([
        1.0f32.to_bits(),
        0.5f32.to_bits(),
        0.25f32.to_bits(),
    ]);
    assert_eq!(c.size(), 12);
    assert_eq!(c.alignment(), 16);
    let mut expected = Vec::new();
    expected.extend_from_slice(&1.0f32.to_le_bytes());
    expected.extend_from_slice(&0.5f32.to_le_bytes());
    expected.extend_from_slice(&0.25f32.to_le_bytes());
    assert_eq!(c.to_bytes(), expected);
}
