//! Sprite data shared by the editor, the engine and the exporter.
use crate::text::chars_of;
use vstd::prelude::*;

verus! {

/// How a sprite moves between two of its states.
#[derive(Clone, Copy, Debug, PartialEq, Eq, Structural)]
pub enum Easing {
    Linear,
    InSine,
    OutSine,
    InOutSine,
    InCubic,
    OutCubic,
    InOutCubic,
}

impl Default for Easing {
    /// Linear easing.
    fn default() -> (r: Easing)
        ensures
            r == Easing::Linear,
    {
        Easing::Linear
    }
}

/// What a sprite shows: an atlas image or a line of text.
#[derive(Clone, Debug)]
pub enum SpriteData {
    Image(SpriteImageData),
    Text(SpriteTextData),
}

/// An image sprite: the atlas item it draws.
#[derive(Clone, Debug)]
pub struct SpriteImageData {
    pub atlas_item_id: usize,
}

/// A text sprite: its font, its text and its size.
#[derive(Clone, Debug)]
pub struct SpriteTextData {
    pub font: usize,
    pub text: String,
    pub size: u8,
}

/// The label the editor shows for an easing.
pub open spec fn easing_label(e: Easing) -> Seq<char> {
    match e {
        Easing::InCubic => "In Cubic"@,
        Easing::OutCubic => "Out Cubic"@,
        Easing::InOutCubic => "In-Out Cubic"@,
        Easing::InSine => "In Sine"@,
        Easing::OutSine => "Out Sine"@,
        Easing::InOutSine => "In-Out Sine"@,
        Easing::Linear => "Linear"@,
    }
}

/// The easing an editor label stands for; any other text means linear.
pub open spec fn easing_of_label(s: Seq<char>) -> Easing {
    if s == "In Cubic"@ {
        Easing::InCubic
    } else if s == "Out Cubic"@ {
        Easing::OutCubic
    } else if s == "In-Out Cubic"@ {
        Easing::InOutCubic
    } else if s == "In Sine"@ {
        Easing::InSine
    } else if s == "Out Sine"@ {
        Easing::OutSine
    } else if s == "In-Out Sine"@ {
        Easing::InOutSine
    } else {
        Easing::Linear
    }
}

/// Whether two strings hold the same characters.
pub fn str_eq(a: &str, b: &str) -> (r: bool)
    ensures
        r == (a@ == b@),
{
    let ca = chars_of(a);
    let cb = chars_of(b);
    if ca.len() != cb.len() {
        return false;
    }
    let mut i: usize = 0;
    while i < ca.len()
        invariant
            ca.len() == cb.len(),
            ca@ == a@,
            cb@ == b@,
            i <= ca.len(),
            forall|k: int| 0 <= k < i ==> ca@[k] == cb@[k],
        decreases ca.len() - i,
    {
        if ca[i] != cb[i] {
            assert(a@[i as int] != b@[i as int]);
            return false;
        }
        i = i + 1;
    }
    assert(ca@ =~= cb@);
    true
}

/// The easing an editor label stands for; any other text gives linear.
pub fn map_str_to_easing(str: &str) -> (r: Easing)
    ensures
        r == easing_of_label(str@),
{
    if str_eq(str, "In Cubic") {
        Easing::InCubic
    } else if str_eq(str, "Out Cubic") {
        Easing::OutCubic
    } else if str_eq(str, "In-Out Cubic") {
        Easing::InOutCubic
    } else if str_eq(str, "In Sine") {
        Easing::InSine
    } else if str_eq(str, "Out Sine") {
        Easing::OutSine
    } else if str_eq(str, "In-Out Sine") {
        Easing::InOutSine
    } else {
        Easing::Linear
    }
}

/// The editor label of an easing.
pub fn map_easing_to_str(easing: Easing) -> (r: &'static str)
    ensures
        r@ == easing_label(easing),
{
    match easing {
        Easing::InCubic => "In Cubic",
        Easing::OutCubic => "Out Cubic",
        Easing::InOutCubic => "In-Out Cubic",
        Easing::InSine => "In Sine",
        Easing::OutSine => "Out Sine",
        Easing::InOutSine => "In-Out Sine",
        _ => "Linear",
    }
}

/// Law: reading back the label of an easing gives that easing.
pub proof fn lemma_easing_label_round_trip(e: Easing)
    ensures
        easing_of_label(easing_label(e)) == e,
{
    reveal_strlit("In Cubic");
    reveal_strlit("Out Cubic");
    reveal_strlit("In-Out Cubic");
    reveal_strlit("In Sine");
    reveal_strlit("Out Sine");
    reveal_strlit("In-Out Sine");
    reveal_strlit("Linear");
    assert("In Cubic"@ != "Out Cubic"@) by { assert("In Cubic"@[0] != "Out Cubic"@[0]); }
    assert("In Cubic"@ != "In-Out Cubic"@) by { assert("In Cubic"@[2] != "In-Out Cubic"@[2]); }
    assert("In Cubic"@ != "In Sine"@) by { assert("In Cubic"@[3] != "In Sine"@[3]); }
    assert("In Cubic"@ != "Out Sine"@) by { assert("In Cubic"@[0] != "Out Sine"@[0]); }
    assert("In Cubic"@ != "In-Out Sine"@) by { assert("In Cubic"@[2] != "In-Out Sine"@[2]); }
    assert("In Cubic"@ != "Linear"@) by { assert("In Cubic"@[0] != "Linear"@[0]); }
    assert("Out Cubic"@ != "In-Out Cubic"@) by { assert("Out Cubic"@[0] != "In-Out Cubic"@[0]); }
    assert("Out Cubic"@ != "In Sine"@) by { assert("Out Cubic"@[0] != "In Sine"@[0]); }
    assert("Out Cubic"@ != "Out Sine"@) by { assert("Out Cubic"@[4] != "Out Sine"@[4]); }
    assert("Out Cubic"@ != "In-Out Sine"@) by { assert("Out Cubic"@[0] != "In-Out Sine"@[0]); }
    assert("Out Cubic"@ != "Linear"@) by { assert("Out Cubic"@[0] != "Linear"@[0]); }
    assert("In-Out Cubic"@ != "In Sine"@) by { assert("In-Out Cubic"@[2] != "In Sine"@[2]); }
    assert("In-Out Cubic"@ != "Out Sine"@) by { assert("In-Out Cubic"@[0] != "Out Sine"@[0]); }
    assert("In-Out Cubic"@ != "In-Out Sine"@) by { assert("In-Out Cubic"@[7] != "In-Out Sine"@[7]); }
    assert("In-Out Cubic"@ != "Linear"@) by { assert("In-Out Cubic"@[0] != "Linear"@[0]); }
    assert("In Sine"@ != "Out Sine"@) by { assert("In Sine"@[0] != "Out Sine"@[0]); }
    assert("In Sine"@ != "In-Out Sine"@) by { assert("In Sine"@[2] != "In-Out Sine"@[2]); }
    assert("In Sine"@ != "Linear"@) by { assert("In Sine"@[0] != "Linear"@[0]); }
    assert("Out Sine"@ != "In-Out Sine"@) by { assert("Out Sine"@[0] != "In-Out Sine"@[0]); }
    assert("Out Sine"@ != "Linear"@) by { assert("Out Sine"@[0] != "Linear"@[0]); }
    assert("In-Out Sine"@ != "Linear"@) by { assert("In-Out Sine"@[0] != "Linear"@[0]); }
}

/// Law: each easing's editor label is its own name, words spaced and a
/// hyphen between "In" and "Out", and reading a label gives the easing it
/// names.
pub proof fn lemma_easing_labels_are_names()
    ensures
        easing_label(Easing::Linear) == "Linear"@,
        easing_label(Easing::InSine) == "In Sine"@,
        easing_label(Easing::OutSine) == "Out Sine"@,
        easing_label(Easing::InOutSine) == "In-Out Sine"@,
        easing_label(Easing::InCubic) == "In Cubic"@,
        easing_label(Easing::OutCubic) == "Out Cubic"@,
        easing_label(Easing::InOutCubic) == "In-Out Cubic"@,
        easing_of_label("Linear"@) == Easing::Linear,
        easing_of_label("In Sine"@) == Easing::InSine,
        easing_of_label("Out Sine"@) == Easing::OutSine,
        easing_of_label("In-Out Sine"@) == Easing::InOutSine,
        easing_of_label("In Cubic"@) == Easing::InCubic,
        easing_of_label("Out Cubic"@) == Easing::OutCubic,
        easing_of_label("In-Out Cubic"@) == Easing::InOutCubic,
{
    lemma_easing_label_round_trip(Easing::Linear);
    lemma_easing_label_round_trip(Easing::InSine);
    lemma_easing_label_round_trip(Easing::OutSine);
    lemma_easing_label_round_trip(Easing::InOutSine);
    lemma_easing_label_round_trip(Easing::InCubic);
    lemma_easing_label_round_trip(Easing::OutCubic);
    lemma_easing_label_round_trip(Easing::InOutCubic);
}

} // verus!
