//! Cutting a font down to the glyphs a scenario's texts use.
use crate::strings::{digits, format_radix};
use allsorts::binary::read::ReadScope;
use allsorts::font::read_cmap_subtable;
use allsorts::font_data::FontData;
use allsorts::subset::{subset, CmapTarget, SubsetProfile};
use allsorts::tables::cmap::Cmap;
use allsorts::tables::FontTableProvider;
use std::collections::hash_map::DefaultHasher;
use std::hash::Hasher;
use crate::text::{chars_in, get_scenario_chars, scenario_alphabet, texts_view};
use vstd::prelude::*;
use vstd::std_specs::hash::DefaultHasherAdditionalSpecFns;

verus! {

/// Why a font could not be cut down.
#[derive(Debug, Clone, Copy, PartialEq, Eq, Structural)]
pub enum FontSubsetError {
    /// The font, or its character map, could not be read.
    CharacterMap,
    /// No glyph is left to keep.
    NoGlyphs,
    /// The subsetter failed.
    Subset,
}

/// The glyph index the font's character map gives each character of
/// `text` (`None` for a character it does not map), or `None` when the font
/// or its character map cannot be read.
pub uninterp spec fn cmap_glyph_indices(font: Seq<u8>, text: Seq<char>) -> Option<Seq<Option<u16>>>;

/// Looks every character of `text` up in the font's character map.
///
/// Calls allsorts: `ReadScope::read::<FontData>`, `FontData::table_provider`,
/// `FontTableProvider::read_table_data` for `cmap`, `ReadScope::read::<Cmap>`,
/// `read_cmap_subtable`, and `CmapSubtable::map_glyph` per character. Any
/// error, for any character, gives `None`. The contract names the result and states that a
/// successful lookup answers once per character.
#[verifier::external_body]
fn lookup_glyph_indices(font: &[u8], text: &[char]) -> (r: Option<Vec<Option<u16>>>)
    ensures
        r is Some <==> cmap_glyph_indices(font@, text@) is Some,
        r matches Some(v) ==> v@ == cmap_glyph_indices(font@, text@).unwrap() && v.len() == text.len(),
{
    let font_file = ReadScope::new(font).read::<FontData>().ok()?;
    let provider = font_file.table_provider(0).ok()?;
    let cmap_data = provider.read_table_data(allsorts::tag::CMAP).ok()?;
    let cmap = ReadScope::new(&cmap_data).read::<Cmap>().ok()?;
    let (_, cmap_subtable) = read_cmap_subtable(&cmap).ok()??;
    text.iter().map(|ch| cmap_subtable.map_glyph(*ch as u32)).collect::<Result<Vec<_>, _>>().ok()
}

/// The font that allsorts' subsetter makes of the font bytes for the given
/// glyph indices (minimal profile, Unicode cmap, first table provider), or
/// `None` when it fails.
pub uninterp spec fn subset_bytes(font: Seq<u8>, glyph_ids: Seq<u16>) -> Option<Seq<u8>>;

/// A font holding only the given glyphs: allsorts `ReadScope::read::<FontData>`,
/// `FontData::table_provider(0)` and `subset::subset` with the minimal
/// profile and a Unicode cmap. Any error gives `None`. The contract names
/// the result, a function of the font bytes and the glyph indices alone.
#[verifier::external_body]
fn subset_glyphs(font: &[u8], glyph_ids: &[u16]) -> (r: Option<Vec<u8>>)
    ensures
        r is Some <==> subset_bytes(font@, glyph_ids@) is Some,
        r matches Some(v) ==> v@ == subset_bytes(font@, glyph_ids@).unwrap(),
{
    let font_file = ReadScope::new(font).read::<FontData>().ok()?;
    let provider = font_file.table_provider(0).ok()?;
    subset(&provider, glyph_ids, &SubsetProfile::Minimal, CmapTarget::Unicode).ok()
}

/// The chunks of bytes that `Hash::hash` of a string feeds to a hasher: a
/// function of the string alone.
pub uninterp spec fn str_hash_chunks(s: Seq<char>) -> Seq<Seq<u8>>;

/// Feeds a string to the hasher (`Hash::hash` of a `str`). The contract
/// names the chunks it adds.
#[verifier::external_body]
fn hasher_write_str(state: &mut DefaultHasher, s: &str)
    ensures
        final(state)@ == old(state)@ + str_hash_chunks(s@),
{
    std::hash::Hash::hash(s, state);
}

/// The fingerprint of an alphabet: the default hasher fed with the string
/// of its characters, finished and written in lowercase hexadecimal.
pub open spec fn fingerprint(chars: Seq<char>) -> Seq<char> {
    digits(DefaultHasher::spec_finish(str_hash_chunks(chars)) as nat, 16)
}

/// The glyph indices that some lookup found, with the `.notdef` glyph 0.
pub open spec fn kept_glyphs(found: Seq<Option<u16>>) -> Set<u16> {
    Set::new(|g: u16| g == 0 || found.contains(Some(g)))
}

/// Every glyph index comes before the next one.
pub open spec fn strictly_increasing(s: Seq<u16>) -> bool {
    forall|i: int, j: int| 0 <= i < j < s.len() ==> #[trigger] s[i] < #[trigger] s[j]
}

/// The glyphs a subset keeps, in ascending order, each once: `.notdef`
/// (glyph 0) and every glyph the lookup found.
pub open spec fn kept_glyph_list(found: Seq<Option<u16>>) -> Seq<u16> {
    choose|s: Seq<u16>| strictly_increasing(s) && s.to_set() == kept_glyphs(found)
}

proof fn lemma_increasing_unique(a: Seq<u16>, b: Seq<u16>)
    requires
        strictly_increasing(a),
        strictly_increasing(b),
        a.to_set() == b.to_set(),
    ensures
        a == b,
    decreases a.len(),
{
    if a.len() == 0 {
        if b.len() > 0 {
            assert(b.to_set().contains(b[0]));
        }
        assert(a =~= b);
    } else if b.len() == 0 {
        assert(a.to_set().contains(a[0]));
    } else {
        assert(b.to_set().contains(a[0]));
        assert(a.to_set().contains(b[0]));
        let k = choose|k: int| 0 <= k < b.len() && b[k] == a[0];
        let m = choose|m: int| 0 <= m < a.len() && a[m] == b[0];
        if k > 0 {
            assert(b[0] < b[k]);
        }
        if m > 0 {
            assert(a[0] < a[m]);
        }
        let a1 = a.drop_first();
        let b1 = b.drop_first();
        assert forall|x: u16| a1.to_set().contains(x) <==> b1.to_set().contains(x) by {
            if a1.contains(x) {
                let i = choose|i: int| 0 <= i < a1.len() && a1[i] == x;
                assert(a[i + 1] == x && a[0] < a[i + 1]);
                assert(b.to_set().contains(x));
                let j = choose|j: int| 0 <= j < b.len() && b[j] == x;
                assert(j != 0);
                assert(b1[j - 1] == x);
            }
            if b1.contains(x) {
                let i = choose|i: int| 0 <= i < b1.len() && b1[i] == x;
                assert(b[i + 1] == x && b[0] < b[i + 1]);
                assert(a.to_set().contains(x));
                let j = choose|j: int| 0 <= j < a.len() && a[j] == x;
                assert(j != 0);
                assert(a1[j - 1] == x);
            }
        }
        assert(a1.to_set() =~= b1.to_set());
        lemma_increasing_unique(a1, b1);
        assert forall|i: int| 0 <= i < a.len() implies a[i] == b[i] by {
            if i > 0 {
                assert(a[i] == a1[i - 1]);
                assert(b[i] == b1[i - 1]);
            }
        }
        assert(a =~= b);
    }
}

/// Adds `g` to a strictly increasing list, keeping it so.
fn insert_glyph(list: &mut Vec<u16>, g: u16)
    requires
        strictly_increasing(old(list)@),
    ensures
        strictly_increasing(final(list)@),
        final(list)@.to_set() == old(list)@.to_set().insert(g),
{
    let ghost before = list@;
    let mut j: usize = 0;
    while j < list.len() && list[j] < g
        invariant
            j <= list.len(),
            list@ == before,
            forall|m: int| 0 <= m < j ==> #[trigger] list@[m] < g,
        decreases list.len() - j,
    {
        j = j + 1;
    }
    if j < list.len() && list[j] == g {
        assert(before.to_set().insert(g) =~= list@.to_set()) by {
            assert(list@[j as int] == g);
        }
        return;
    }
    assert(forall|m: int| j <= m < before.len() ==> g < #[trigger] before[m]) by {
        assert forall|m: int| j <= m < before.len() implies g < #[trigger] before[m] by {
            if m > j {
                assert(before[j as int] < before[m]);
            }
        }
    }
    list.insert(j, g);
    proof {
        let after = list@;
        assert(after =~= before.insert(j as int, g));
        assert forall|a: int, b: int| 0 <= a < b < after.len() implies #[trigger] after[a] < #[trigger] after[b] by {
            if b < j {
            } else if b == j {
            } else if a < j {
                assert(after[b] == before[b - 1]);
            } else if a == j {
                assert(after[b] == before[b - 1]);
            } else {
                assert(after[a] == before[a - 1]);
                assert(after[b] == before[b - 1]);
            }
        }
        assert forall|x: u16| after.contains(x) <==> before.to_set().insert(g).contains(x) by {
            if before.contains(x) {
                let m = choose|m: int| 0 <= m < before.len() && before[m] == x;
                if m < j {
                    assert(after[m] == x);
                } else {
                    assert(after[m + 1] == x);
                }
            }
            if x == g {
                assert(after[j as int] == g);
            }
            if after.contains(x) {
                let m = choose|m: int| 0 <= m < after.len() && after[m] == x;
                if m < j {
                    assert(before[m] == x);
                } else if m > j {
                    assert(before[m - 1] == x);
                }
            }
        }
        assert(after.to_set() =~= before.to_set().insert(g));
    }
}

/// The glyphs a subset keeps: `.notdef` (glyph 0) and every glyph the
/// lookup found, each once, in ascending order.
pub fn glyphs_to_keep(found: &[Option<u16>]) -> (r: Vec<u16>)
    ensures
        strictly_increasing(r@),
        r@.to_set() == kept_glyphs(found@),
        r@ == kept_glyph_list(found@),
{
    let mut ids: Vec<u16> = Vec::new();
    insert_glyph(&mut ids, 0);
    let mut i: usize = 0;
    while i < found.len()
        invariant
            i <= found.len(),
            strictly_increasing(ids@),
            ids@.to_set() == Set::new(|g: u16| g == 0 || found@.take(i as int).contains(Some(g))),
        decreases found.len() - i,
    {
        let ghost before = ids@;
        if let Some(g) = found[i] {
            insert_glyph(&mut ids, g);
        }
        proof {
            assert(found@.take(i + 1) =~= found@.take(i as int).push(found@[i as int]));
            assert forall|g: u16| #[trigger] ids@.to_set().contains(g) <==> (g == 0 || found@.take(i + 1).contains(Some(g))) by {
                assert(before.to_set().contains(g) <==> (g == 0 || found@.take(i as int).contains(Some(g))));
                assert(ids@.to_set().contains(g) <==> (before.to_set().contains(g) || found@[i as int] == Some(g)));
                if found@[i as int] == Some(g) {
                    assert(found@.take(i + 1)[i as int] == Some(g));
                }
                if found@.take(i + 1).contains(Some(g)) {
                    let k = choose|k: int| 0 <= k < i + 1 && #[trigger] found@.take(i + 1)[k] == Some(g);
                    if k < i {
                        assert(found@.take(i as int)[k] == Some(g));
                    }
                }
                if found@.take(i as int).contains(Some(g)) {
                    let k = choose|k: int| 0 <= k < i && #[trigger] found@.take(i as int)[k] == Some(g);
                    assert(found@.take(i + 1)[k] == Some(g));
                }
            }
            assert(ids@.to_set() =~= Set::new(|g: u16| g == 0 || found@.take(i + 1).contains(Some(g))));
        }
        i = i + 1;
    }
    assert(found@.take(i as int) =~= found@);
    assert(ids@.to_set() =~= kept_glyphs(found@));
    proof {
        let s = kept_glyph_list(found@);
        assert(strictly_increasing(ids@) && ids@.to_set() == kept_glyphs(found@));
        assert(strictly_increasing(s) && s.to_set() == kept_glyphs(found@));
        lemma_increasing_unique(ids@, s);
    }
    ids
}

/// Cuts the font down to the characters the texts use (plus `.notdef`) and
/// returns it with a hexadecimal fingerprint of that alphabet.
///
/// Fails with `CharacterMap` when the font's character map cannot be read,
/// and with `Subset` when the subsetter fails on the kept glyphs; otherwise
/// returns the subsetter's font.
pub fn subset_font(font: &[u8], texts: &[String]) -> (r: Result<(Vec<u8>, String), FontSubsetError>)
    ensures
        match cmap_glyph_indices(font@, scenario_alphabet(texts_view(texts@))) {
            None => r == Err::<(Vec<u8>, String), FontSubsetError>(FontSubsetError::CharacterMap),
            Some(found) => match subset_bytes(font@, kept_glyph_list(found)) {
                None => r == Err::<(Vec<u8>, String), FontSubsetError>(FontSubsetError::Subset),
                Some(bytes) => r matches Ok((b, h)) && b@ == bytes && h@ == fingerprint(
                    scenario_alphabet(texts_view(texts@)),
                ),
            },
        },
{
    let scenario_chars = get_scenario_chars(texts);
    let scenario_chars = scenario_chars.as_str();
    let mut hasher = DefaultHasher::new();
    hasher_write_str(&mut hasher, scenario_chars);
    assert(hasher@ =~= str_hash_chunks(scenario_chars@));
    let hash = format_radix(hasher.finish(), 16);
    let chars = crate::text::chars_of(scenario_chars);
    let found = match lookup_glyph_indices(font, chars.as_slice()) {
        Some(found) => found,
        None => return Err(FontSubsetError::CharacterMap),
    };
    let glyph_ids = glyphs_to_keep(found.as_slice());
    if glyph_ids.len() == 0 {
        assert(glyph_ids@.to_set().contains(0u16));
        return Err(FontSubsetError::NoGlyphs);
    }
    match subset_glyphs(font, glyph_ids.as_slice()) {
        Some(bytes) => Ok((bytes, hash)),
        None => Err(FontSubsetError::Subset),
    }
}

/// Law: the subset font and its fingerprint depend only on which
/// characters the texts use, not on the texts' order, their repetitions or
/// how the characters are spread over them.
pub proof fn lemma_same_characters_same_subset(a: Seq<Seq<char>>, b: Seq<Seq<char>>)
    requires
        chars_in(a) == chars_in(b),
    ensures
        scenario_alphabet(a) == scenario_alphabet(b),
        fingerprint(scenario_alphabet(a)) == fingerprint(scenario_alphabet(b)),
{
}

} // verus!
