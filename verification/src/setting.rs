//! Typed scene settings.
//!
//! A scene's descriptor declares each user-tunable setting with a schema:
//! a labelled float with a range, or a labelled 3-channel colour given as a
//! `#RRGGBB` hex string. A live setting value is the float's bit pattern or
//! the three channels scaled to `[0, 1]` floats, held as bit patterns.

use crate::float_bits::{ratio_bits, spec_ratio_bits};
use vstd::bytes::{spec_u32_to_le_bytes, u32_to_le_bytes};
use vstd::prelude::*;

verus! {

/// The schema of one setting, as declared by the scene descriptor. Float
/// values are IEEE-754 single-precision bit patterns.
#[derive(Clone, Debug)]
pub enum Setting {
    Float { label: String, value: u32, min: u32, max: u32 },
    Colour3 { label: String, value: String },
}

/// A live setting value: a float bit pattern, or three colour channels in
/// `[0, 1]`, each a float bit pattern.
#[derive(Clone, Copy, Debug, PartialEq)]
pub enum SettingValue {
    Float(u32),
    Colour3([u32; 3]),
}

/// Failure to derive a setting's default from its schema.
#[derive(Clone, Debug, PartialEq)]
pub enum SettingParseError {
    /// The colour string is not `#` followed by six hex digits; holds the
    /// offending string.
    InvalidHex(String),
}

/// Whether `c` is a hexadecimal digit.
pub open spec fn is_hex_digit(c: char) -> bool {
    ('0' <= c && c <= '9') || ('a' <= c && c <= 'f') || ('A' <= c && c <= 'F')
}

/// The value of a hexadecimal digit.
pub open spec fn hex_digit_value(c: char) -> int {
    if '0' <= c && c <= '9' {
        c as int - '0' as int
    } else if 'a' <= c && c <= 'f' {
        10 + c as int - 'a' as int
    } else {
        10 + c as int - 'A' as int
    }
}

/// Whether `s` is a colour in `#RRGGBB` form.
pub open spec fn is_hex_colour(s: Seq<char>) -> bool {
    &&& s.len() == 7
    &&& s[0] == '#'
    &&& forall|i: int| 1 <= i < 7 ==> is_hex_digit(#[trigger] s[i])
}

/// The channel of `s` (a `#RRGGBB` colour) starting at index `i`.
pub open spec fn hex_channel(s: Seq<char>, i: int) -> int {
    16 * hex_digit_value(s[i]) + hex_digit_value(s[i + 1])
}

/// The bit pattern of channel `i` of colour `s`, scaled to `[0, 1]`.
pub open spec fn colour_channel_bits(s: Seq<char>, i: int) -> u32 {
    spec_ratio_bits(hex_channel(s, 1 + 2 * i) as nat, 255)
}

/// The default value a schema declares: the float's own bit pattern, or the
/// parsed hex colour; `InvalidHex` when the colour string is malformed.
pub open spec fn spec_setting_default(s: Setting) -> Result<SettingValue, SettingParseError> {
    match s {
        Setting::Float { value, .. } => Ok(SettingValue::Float(value)),
        Setting::Colour3 { value, .. } => if is_hex_colour(value@) {
            Ok(
                SettingValue::Colour3(
                    [
                        colour_channel_bits(value@, 0),
                        colour_channel_bits(value@, 1),
                        colour_channel_bits(value@, 2),
                    ],
                ),
            )
        } else {
            Err(SettingParseError::InvalidHex(value))
        },
    }
}

/// Parses one hex digit.
fn hex_digit(c: char) -> (r: Option<u8>)
    ensures
        r is Some <==> is_hex_digit(c),
        r is Some ==> r->0 == hex_digit_value(c) && r->0 < 16,
{
    if '0' <= c && c <= '9' {
        Some((c as u8) - ('0' as u8))
    } else if 'a' <= c && c <= 'f' {
        Some(10 + (c as u8) - ('a' as u8))
    } else if 'A' <= c && c <= 'F' {
        Some(10 + (c as u8) - ('A' as u8))
    } else {
        None
    }
}

/// Parses a `#RRGGBB` colour into its three channels.
pub fn parse_hex_colour(s: &String) -> (r: Option<[u8; 3]>)
    ensures
        r is Some <==> is_hex_colour(s@),
        r is Some ==> {
            &&& r->0[0] == hex_channel(s@, 1)
            &&& r->0[1] == hex_channel(s@, 3)
            &&& r->0[2] == hex_channel(s@, 5)
        },
{
    let st = s.as_str();
    if st.unicode_len() != 7 {
        return None;
    }
    if st.get_char(0) != '#' {
        return None;
    }
    let d1 = hex_digit(st.get_char(1));
    let d2 = hex_digit(st.get_char(2));
    let d3 = hex_digit(st.get_char(3));
    let d4 = hex_digit(st.get_char(4));
    let d5 = hex_digit(st.get_char(5));
    let d6 = hex_digit(st.get_char(6));
    match (d1, d2, d3, d4, d5, d6) {
        (Some(a), Some(b), Some(c), Some(d), Some(e), Some(f)) => {
            assert(forall|i: int| 1 <= i < 7 ==> is_hex_digit(#[trigger] s@[i]));
            Some([16 * a + b, 16 * c + d, 16 * e + f])
        },
        _ => None,
    }
}

impl SettingValue {
    /// The default value of schema `setting`: the float's bit pattern, or
    /// each hex colour channel divided by 255 as float division would.
    pub fn from_descriptor(setting: &Setting) -> (r: Result<SettingValue, SettingParseError>)
        ensures
            r == spec_setting_default(*setting),
    {
        match setting {
            Setting::Float { value, .. } => Ok(SettingValue::Float(*value)),
            Setting::Colour3 { value, .. } => {
                match parse_hex_colour(value) {
                    Some(channels) => Ok(
                        SettingValue::Colour3(
                            [
                                ratio_bits(channels[0] as u32, 255),
                                ratio_bits(channels[1] as u32, 255),
                                ratio_bits(channels[2] as u32, 255),
                            ],
                        ),
                    ),
                    None => Err(SettingParseError::InvalidHex(value.clone())),
                }
            },
        }
    }

    /// The packed byte size of this value.
    pub open spec fn spec_size(&self) -> nat {
        match self {
            SettingValue::Float(_) => 4,
            SettingValue::Colour3(_) => 12,
        }
    }

    pub fn size(&self) -> (n: usize)
        ensures
            n == self.spec_size(),
    {
        match self {
            SettingValue::Float(_) => 4,
            SettingValue::Colour3(_) => 12,
        }
    }

    /// The GPU alignment this value demands inside a uniform block: a float
    /// aligns to 4 bytes, a 3-channel colour to 16 (the `vec3` rule).
    pub open spec fn spec_alignment(&self) -> nat {
        match self {
            SettingValue::Float(_) => 4,
            SettingValue::Colour3(_) => 16,
        }
    }

    pub fn alignment(&self) -> (n: usize)
        ensures
            n == self.spec_alignment(),
    {
        match self {
            SettingValue::Float(_) => 4,
            SettingValue::Colour3(_) => 16,
        }
    }

    /// The little-endian bytes of this value as the GPU sees them.
    pub open spec fn spec_bytes(&self) -> Seq<u8> {
        match self {
            SettingValue::Float(bits) => spec_u32_to_le_bytes(*bits),
            SettingValue::Colour3(bits) => spec_u32_to_le_bytes(bits[0]) + spec_u32_to_le_bytes(
                bits[1],
            ) + spec_u32_to_le_bytes(bits[2]),
        }
    }

    /// Serializes this value to the bytes the GPU reads.
    pub fn to_bytes(&self) -> (r: Vec<u8>)
        ensures
            r@ == self.spec_bytes(),
            r@.len() == self.spec_size(),
    {
        match self {
            SettingValue::Float(bits) => {
                let r = u32_to_le_bytes(*bits);
                assert(r@.len() == 4) by {
                    vstd::bytes::lemma_auto_spec_u32_to_from_le_bytes();
                }
                r
            },
            SettingValue::Colour3(bits) => {
                let mut r = u32_to_le_bytes(bits[0]);
                let mut g = u32_to_le_bytes(bits[1]);
                let mut b = u32_to_le_bytes(bits[2]);
                r.append(&mut g);
                r.append(&mut b);
                assert(r@.len() == 12) by {
                    vstd::bytes::lemma_auto_spec_u32_to_from_le_bytes();
                }
                r
            },
        }
    }

    /// Whether `self` and `other` are the same variant, regardless of value.
    pub fn variant_matches(&self, other: &SettingValue) -> (r: bool)
        ensures
            r == ((self is Float && other is Float) || (self is Colour3 && other is Colour3)),
    {
        match (self, other) {
            (SettingValue::Float(_), SettingValue::Float(_)) => true,
            (SettingValue::Colour3(_), SettingValue::Colour3(_)) => true,
            _ => false,
        }
    }
}

} // verus!
