//! Messages between the editor and the backend, and the project
//! properties they carry.
use crate::atlas::Atlas;
use crate::settings::{BalchugSettings, InertiaProperties};
use crate::strings::{digit_char, push_char};
use vstd::prelude::*;
use vstd::string::*;
use vstd::utf8::is_char_boundary;

verus! {

/// Answer to starting a project: its id.
#[derive(Debug)]
pub struct StartProjectResponse {
    pub project_id: String,
}

/// Request to change the project properties.
#[derive(Debug)]
pub struct UpdateProjectPropertiesRq {
    pub properties: ProjectProperties,
}

/// Answer to adding an image: the thumbnails and the new atlas.
#[derive(Debug)]
pub struct AddImageResponse {
    pub thumbs: Vec<String>,
    pub atlas: Atlas,
}

/// The properties of a project.
#[derive(Clone, Debug)]
pub struct ProjectProperties {
    pub name: String,
    pub background_color: [u8; 3],
    pub default_text_color: [u8; 3],
    pub viscosity: u8,
    pub inertion: u8,
}

impl Default for ProjectProperties {
    /// "Balchug Project": white text on black, default inertia.
    fn default() -> (r: ProjectProperties)
        ensures
            r.name@ == "Balchug Project"@,
            r.background_color@ == seq![0u8, 0u8, 0u8],
            r.default_text_color@ == seq![255u8, 255u8, 255u8],
            r.viscosity == 20,
            r.inertion == 50,
    {
        let inertia_props = InertiaProperties::default();
        ProjectProperties {
            name: "Balchug Project".to_owned(),
            background_color: [0, 0, 0],
            default_text_color: [255, 255, 255],
            inertion: inertia_props.inertion,
            viscosity: inertia_props.viscosity,
        }
    }
}

impl ProjectProperties {
    /// The engine settings these properties give: the background colour and
    /// the inertia.
    pub fn settings(&self) -> (r: BalchugSettings)
        ensures
            r.background_color@ == self.background_color@,
            r.inertia_properties.inertion == self.inertion,
            r.inertia_properties.viscosity == self.viscosity,
    {
        BalchugSettings {
            background_color: self.background_color,
            inertia_properties: InertiaProperties { inertion: self.inertion, viscosity: self.viscosity },
        }
    }
}

/// A colour component that is not two hexadecimal digits.
#[derive(Debug, Clone, Copy, PartialEq, Eq, Structural)]
pub enum ParseColorError {
    InvalidDigit,
}

/// The value of a hexadecimal digit byte.
pub open spec fn hex_value(b: u8) -> Option<u8> {
    if 48 <= b <= 57 {
        Some((b - 48) as u8)
    } else if 97 <= b <= 102 {
        Some((b - 87) as u8)
    } else if 65 <= b <= 70 {
        Some((b - 55) as u8)
    } else {
        None
    }
}

/// A two-byte colour component as `u8::from_str_radix(.., 16)` reads it: two
/// hexadecimal digits, or a `+` sign and one digit.
pub open spec fn component_value(b0: u8, b1: u8) -> Option<u8> {
    if b0 == 43 {
        hex_value(b1)
    } else {
        match (hex_value(b0), hex_value(b1)) {
            (Some(h), Some(l)) => Some((16 * h + l) as u8),
            _ => None,
        }
    }
}

/// Index of the first byte at or after `i` that is not `#`.
pub open spec fn skip_hashes(b: Seq<u8>, i: int) -> int
    decreases b.len() - i,
{
    if 0 <= i < b.len() && b[i] == 35 {
        skip_hashes(b, i + 1)
    } else {
        i
    }
}

/// The component starting at byte `at`.
pub open spec fn component_at(b: Seq<u8>, at: int) -> Option<u8> {
    component_value(b[at], b[at + 1])
}

/// The colour the bytes of a `#rrggbb` string stand for (leading `#`s
/// skipped), or `None` when a component is not hexadecimal.
pub open spec fn color_of_bytes(b: Seq<u8>) -> Option<(u8, u8, u8)> {
    let k = skip_hashes(b, 0);
    match (component_at(b, k), component_at(b, k + 2), component_at(b, k + 4)) {
        (Some(r), Some(g), Some(bl)) => Some((r, g, bl)),
        _ => None,
    }
}

/// The bytes can be read component by component: each component that is
/// reached (reading stops at the first bad one) lies within the string and
/// ends on a character boundary.
pub open spec fn color_readable(b: Seq<u8>) -> bool {
    let k = skip_hashes(b, 0);
    &&& k + 2 <= b.len() && is_char_boundary(b, k + 2)
    &&& component_at(b, k) is Some ==> {
        &&& k + 4 <= b.len() && is_char_boundary(b, k + 4)
        &&& component_at(b, k + 2) is Some ==> k + 6 <= b.len() && is_char_boundary(b, k + 6)
    }
}

fn hex_digit(b: u8) -> (r: Option<u8>)
    ensures
        r == hex_value(b),
{
    if 48 <= b && b <= 57 {
        Some(b - 48)
    } else if 97 <= b && b <= 102 {
        Some(b - 87)
    } else if 65 <= b && b <= 70 {
        Some(b - 55)
    } else {
        None
    }
}

fn component(b0: u8, b1: u8) -> (r: Result<u8, ParseColorError>)
    ensures
        r matches Ok(v) ==> component_value(b0, b1) == Some(v),
        r is Err ==> component_value(b0, b1) is None,
{
    if b0 == 43 {
        match hex_digit(b1) {
            Some(v) => Ok(v),
            None => Err(ParseColorError::InvalidDigit),
        }
    } else {
        match (hex_digit(b0), hex_digit(b1)) {
            (Some(h), Some(l)) => Ok(16 * h + l),
            _ => Err(ParseColorError::InvalidDigit),
        }
    }
}

/// Reads a `#rrggbb` colour (any number of leading `#`, each component two
/// hexadecimal digits or a `+` and one digit).
pub fn parse_hex_color(hex: &str) -> (r: Result<[u8; 3], ParseColorError>)
    requires
        color_readable(hex.spec_bytes()),
    ensures
        match r {
            Ok(c) => color_of_bytes(hex.spec_bytes()) == Some((c[0], c[1], c[2])),
            Err(_) => color_of_bytes(hex.spec_bytes()) is None,
        },
{
    let b = hex.as_bytes();
    let ghost bs = hex.spec_bytes();
    let mut k: usize = 0;
    while k < b.len() && b[k] == 35
        invariant
            k <= b.len(),
            b@ == bs,
            skip_hashes(bs, k as int) == skip_hashes(bs, 0),
        decreases b.len() - k,
    {
        k = k + 1;
    }
    let r = component(b[k], b[k + 1])?;
    let g = component(b[k + 2], b[k + 3])?;
    let bl = component(b[k + 4], b[k + 5])?;
    Ok([r, g, bl])
}

/// Two lowercase hexadecimal digits of a byte.
pub open spec fn hex2(v: u8) -> Seq<char> {
    seq![digit_char((v / 16) as int), digit_char((v % 16) as int)]
}

/// A colour written as `#rrggbb` in lowercase.
pub open spec fn color_hex_chars(c: (u8, u8, u8)) -> Seq<char> {
    seq!['#'] + hex2(c.0) + hex2(c.1) + hex2(c.2)
}

fn push_hex2(s: &mut String, v: u8)
    ensures
        final(s)@ == old(s)@ + hex2(v),
{
    let hi = v / 16;
    let lo = v % 16;
    push_char(s, hex_char(hi));
    push_char(s, hex_char(lo));
    assert(final(s)@ =~= old(s)@ + hex2(v)) by {
        assert(s@ =~= old(s)@ + hex2(v));
    }
}

fn hex_char(d: u8) -> (c: char)
    requires
        d < 16,
    ensures
        c == digit_char(d as int),
{
    if d < 10 {
        (48 + d) as char
    } else {
        (87 + d) as char
    }
}

/// A colour written as `#rrggbb` with lowercase hexadecimal digits, as the
/// editor's colour inputs take it.
pub fn color_to_hex(c: [u8; 3]) -> (r: String)
    ensures
        r@ == color_hex_chars((c[0], c[1], c[2])),
{
    let mut s = String::new();
    push_char(&mut s, '#');
    push_hex2(&mut s, c[0]);
    push_hex2(&mut s, c[1]);
    push_hex2(&mut s, c[2]);
    assert(s@ =~= color_hex_chars((c[0], c[1], c[2])));
    s
}

/// Law: reading back a colour written by `color_to_hex` gives the colour.
/// (The characters written are ASCII, so their bytes are their codes.)
pub proof fn lemma_color_hex_round_trip(c: (u8, u8, u8))
    ensures
        color_of_bytes(color_hex_chars(c).map_values(|ch: char| ch as u8)) == Some(c),
{
    let b = color_hex_chars(c).map_values(|ch: char| ch as u8);
    assert(b[0] == 35);
    assert(skip_hashes(b, 1) == 1);
    assert(skip_hashes(b, 0) == 1);
    assert forall|v: u8| #[trigger] component_value((digit_char((v / 16) as int) as u8), (digit_char((v % 16) as int) as u8)) == Some(v) by {
        let h = v / 16;
        let l = v % 16;
        assert(hex_value(digit_char(h as int) as u8) == Some(h as u8));
        assert(hex_value(digit_char(l as int) as u8) == Some(l as u8));
    }
    assert(component_at(b, 1) == component_value(b[1], b[2]));
    assert(component_at(b, 3) == component_value(b[3], b[4]));
    assert(component_at(b, 5) == component_value(b[5], b[6]));
}

/// The character of an ASCII byte, with `A` to `Z` lowered.
pub open spec fn lower_ascii(b: u8) -> char {
    if 65 <= b <= 90 {
        ((b + 32) as u32) as char
    } else {
        (b as u32) as char
    }
}

/// The bytes are `#` followed by six hexadecimal digits.
pub open spec fn is_hex_color_bytes(b: Seq<u8>) -> bool {
    &&& b.len() == 7
    &&& b[0] == 35
    &&& forall|i: int| 1 <= i < 7 ==> #[trigger] hex_value(b[i]) is Some
}

proof fn lemma_digit_lower(x: u8)
    requires
        hex_value(x) is Some,
    ensures
        digit_char(hex_value(x).unwrap() as int) == lower_ascii(x),
{
}

proof fn lemma_component_hex2(hi: u8, lo: u8)
    requires
        hex_value(hi) is Some,
        hex_value(lo) is Some,
    ensures
        component_value(hi, lo) matches Some(v) && hex2(v) == seq![lower_ascii(hi), lower_ascii(lo)],
{
    let h = hex_value(hi).unwrap();
    let l = hex_value(lo).unwrap();
    let v = (16 * h + l) as u8;
    assert(component_value(hi, lo) == Some(v));
    assert(v / 16 == h && v % 16 == l);
    lemma_digit_lower(hi);
    lemma_digit_lower(lo);
    assert(hex2(v) =~= seq![lower_ascii(hi), lower_ascii(lo)]);
}

/// Law: writing back the colour read from `#` and six hexadecimal digits
/// gives the input with its letters lowered.
pub proof fn lemma_parsed_color_hex(b: Seq<u8>)
    requires
        is_hex_color_bytes(b),
    ensures
        color_of_bytes(b) matches Some(c) && color_hex_chars(c) == b.map_values(|x: u8| lower_ascii(x)),
{
    assert(hex_value(b[1]) is Some);
    assert(hex_value(b[2]) is Some);
    assert(hex_value(b[3]) is Some);
    assert(hex_value(b[4]) is Some);
    assert(hex_value(b[5]) is Some);
    assert(hex_value(b[6]) is Some);
    assert(skip_hashes(b, 1) == 1);
    assert(skip_hashes(b, 0) == 1);
    lemma_component_hex2(b[1], b[2]);
    lemma_component_hex2(b[3], b[4]);
    lemma_component_hex2(b[5], b[6]);
    let c = color_of_bytes(b).unwrap();
    assert(color_hex_chars(c) =~= b.map_values(|x: u8| lower_ascii(x)));
}

} // verus!
