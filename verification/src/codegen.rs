//! Rust source generation for an exported project.
use crate::atlas::{items_in_map_order, Atlas, AtlasItem};
use crate::sprite::Easing;
use crate::strings::{digits, format_radix};
use std::collections::HashMap;
use vstd::prelude::*;
use vstd::std_specs::iter::IteratorSpec;
use vstd::string::*;

verus! {

broadcast use vstd::std_specs::hash::group_hash_axioms;

/// The atlas of a new, empty project: one 100x100 image in a 1024x1024
/// atlas.
pub fn create_atlas() -> (r: Atlas)
    ensures
        r.width == 1024,
        r.height == 1024,
        r.items@ == map![0usize => AtlasItem {
            id: 0,
            x: 0,
            y: 0,
            width: 100,
            height: 100,
            origin_width: 100,
            origin_height: 100,
        }],
{
    let mut items: HashMap<usize, AtlasItem> = HashMap::new();
    items.insert(
        0,
        AtlasItem { id: 0, x: 0, y: 0, width: 100, height: 100, origin_width: 100, origin_height: 100 },
    );
    Atlas { width: 1024, height: 1024, items }
}

/// `n` in decimal.
pub open spec fn dec(n: int) -> Seq<char> {
    digits(n as nat, 10)
}

/// The statement that inserts `i` into the item map of the generated code.
pub open spec fn item_code(i: AtlasItem) -> Seq<char> {
    "items.insert("@ + dec(i.id as int) + ",AtlasItem{id:"@ + dec(i.id as int) + ",x:"@ + dec(
        i.x as int,
    ) + ",y:"@ + dec(i.y as int) + ",width:"@ + dec(i.width as int) + ",height:"@ + dec(
        i.height as int,
    ) + ",origin_width:"@ + dec(i.origin_width as int) + ",origin_height:"@ + dec(
        i.origin_height as int,
    ) + "});"@
}

/// The insert statements of the items, in order.
pub open spec fn items_code(items: Seq<AtlasItem>) -> Seq<char>
    decreases items.len(),
{
    if items.len() == 0 {
        Seq::empty()
    } else {
        items_code(items.drop_last()) + item_code(items.last())
    }
}

/// The insert statements of the items, one per item.
pub open spec fn item_codes(items: Seq<AtlasItem>) -> Seq<Seq<char>> {
    items.map_values(|i: AtlasItem| item_code(i))
}

/// Law: the generated code holds exactly one insert statement per item, in
/// the order the items come: the statements are the items' codes laid end
/// to end.
pub proof fn lemma_one_insert_per_item(items: Seq<AtlasItem>)
    ensures
        item_codes(items).len() == items.len(),
        items_code(items) == item_codes(items).flatten(),
    decreases items.len(),
{
    item_codes(items).lemma_flatten_and_flatten_alt_are_equivalent();
    lemma_items_code_alt(items);
}

proof fn lemma_items_code_alt(items: Seq<AtlasItem>)
    ensures
        items_code(items) == item_codes(items).flatten_alt(),
    decreases items.len(),
{
    if items.len() > 0 {
        lemma_items_code_alt(items.drop_last());
        assert(item_codes(items).drop_last() =~= item_codes(items.drop_last()));
        assert(item_codes(items).last() == item_code(items.last()));
    }
}

/// The generated `create_atlas` source for an atlas whose items come in
/// the given order.
pub open spec fn atlas_code(width: u32, height: u32, items: Seq<AtlasItem>) -> Seq<char> {
    "use std::collections::HashMap;\n"@ + "use balchug_common::atlas::{Atlas,AtlasItem};\n"@
        + "pub fn create_atlas()->Atlas{let mut items = HashMap::new();"@ + items_code(items)
        + "Atlas{width:"@ + dec(width as int) + ",height:"@ + dec(height as int) + ",items}}\n"@
}

fn append_dec(code: &mut String, n: u64)
    ensures
        final(code)@ == old(code)@ + dec(n as int),
{
    let d = format_radix(n, 10);
    code.append(d.as_str());
}

/// Rust source of a `create_atlas` function that rebuilds `atlas`.
#[verifier::rlimit(40)]
pub fn atlas_to_code(atlas: &Atlas) -> (r: String)
    ensures
        r@ == atlas_code(atlas.width, atlas.height, items_in_map_order(atlas)),
        items_in_map_order(atlas).len() == atlas.items@.len(),
        items_in_map_order(atlas).to_set() == atlas.items@.values(),
{
    let mut code = String::new();
    code.append("use std::collections::HashMap;\n");
    code.append("use balchug_common::atlas::{Atlas,AtlasItem};\n");
    code.append("pub fn create_atlas()->Atlas{let mut items = HashMap::new();");
    let ghost head = code@;
    let ghost vs = items_in_map_order(atlas);
    let ghost mut done: int = 0;
    for i in it: atlas.items.values()
        invariant
            done == it.index(),
            done <= vs.len(),
            it.seq().map_values(|v: &AtlasItem| *v) == vs,
            vs == items_in_map_order(atlas),
            code@ == head + items_code(vs.take(done)),
    {
        let ghost before = code@;
        code.append("items.insert(");
        append_dec(&mut code, i.id as u64);
        code.append(",AtlasItem{id:");
        append_dec(&mut code, i.id as u64);
        code.append(",x:");
        append_dec(&mut code, i.x as u64);
        code.append(",y:");
        append_dec(&mut code, i.y as u64);
        code.append(",width:");
        append_dec(&mut code, i.width as u64);
        code.append(",height:");
        append_dec(&mut code, i.height as u64);
        code.append(",origin_width:");
        append_dec(&mut code, i.origin_width as u64);
        code.append(",origin_height:");
        append_dec(&mut code, i.origin_height as u64);
        code.append("});");
        proof {
            assert(vs[done] == *i);
            assert(code@ =~= before + item_code(*i));
            assert(vs.take(done + 1).drop_last() =~= vs.take(done));
            assert(code@ =~= head + items_code(vs.take(done + 1)));
            done = done + 1;
        }
    }
    assert(vs.take(done) =~= vs);
    proof {
        vstd::std_specs::hash::axiom_spec_values_iter(&atlas.items);
        let rem = vstd::std_specs::hash::spec_values_iter(&atlas.items).remaining();
        assert forall|v: AtlasItem| vs.to_set().contains(v) <==> atlas.items@.values().contains(v) by {
            if vs.contains(v) {
                let i = choose|i: int| 0 <= i < vs.len() && vs[i] == v;
                assert(rem.unref()[i] == v);
                assert(rem.unref().to_set().contains(v));
            }
            if atlas.items@.values().contains(v) {
                assert(rem.unref().to_set().contains(v));
                let i = choose|i: int| 0 <= i < rem.unref().len() && rem.unref()[i] == v;
                assert(vs[i] == v);
            }
        }
        assert(vs.to_set() =~= atlas.items@.values());
        assert(vs.len() == rem.len());
    }
    code.append("Atlas{width:");
    append_dec(&mut code, atlas.width as u64);
    code.append(",height:");
    append_dec(&mut code, atlas.height as u64);
    code.append(",items}}\n");
    code
}

/// The Rust path of an easing variant, as the generated scenario code
/// writes it.
pub open spec fn easing_path(e: Easing) -> Seq<char> {
    match e {
        Easing::Linear => "Easing::Linear"@,
        Easing::InCubic => "Easing::InCubic"@,
        Easing::OutCubic => "Easing::OutCubic"@,
        Easing::InOutCubic => "Easing::InOutCubic"@,
        Easing::InSine => "Easing::InSine"@,
        Easing::OutSine => "Easing::OutSine"@,
        Easing::InOutSine => "Easing::InOutSine"@,
    }
}

/// The Rust path of an easing variant for generated code.
pub fn easing(e: Easing) -> (r: &'static str)
    ensures
        r@ == easing_path(e),
{
    match e {
        Easing::Linear => "Easing::Linear",
        Easing::InCubic => "Easing::InCubic",
        Easing::OutCubic => "Easing::OutCubic",
        Easing::InOutCubic => "Easing::InOutCubic",
        Easing::InSine => "Easing::InSine",
        Easing::OutSine => "Easing::OutSine",
        Easing::InOutSine => "Easing::InOutSine",
    }
}

} // verus!
