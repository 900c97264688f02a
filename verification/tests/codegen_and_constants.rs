use balchug::atlas::{Atlas, AtlasItem};
use balchug::codegen::{atlas_to_code, create_atlas, easing};
use balchug::editor_constants::build_atlas;
use balchug::engine_const;
use balchug::sprite::Easing;
use std::collections::HashMap;

#[test]
fn new_project_atlas() {
    let a = create_atlas();
    assert_eq!((a.width, a.height), (1024, 1024));
    assert_eq!(a.items.len(), 1);
    assert_eq!(
        a.items[&0],
        AtlasItem { id: 0, x: 0, y: 0, width: 100, height: 100, origin_width: 100, origin_height: 100 }
    );
}

#[test]
fn code_of_the_new_project_atlas() {
    let code = atlas_to_code(&create_atlas());
    assert_eq!(
        code,
        "use std::collections::HashMap;\n\
         use balchug_common::atlas::{Atlas,AtlasItem};\n\
         pub fn create_atlas()->Atlas{let mut items = HashMap::new();\
         items.insert(0,AtlasItem{id:0,x:0,y:0,width:100,height:100,origin_width:100,origin_height:100});\
         Atlas{width:1024,height:1024,items}}\n"
    );
}

#[test]
fn code_of_an_empty_atlas() {
    let a = Atlas { width: 4, height: 4, items: HashMap::new() };
    assert_eq!(
        atlas_to_code(&a),
        "use std::collections::HashMap;\nuse balchug_common::atlas::{Atlas,AtlasItem};\n\
         pub fn create_atlas()->Atlas{let mut items = HashMap::new();Atlas{width:4,height:4,items}}\n"
    );
}

#[test]
fn code_lists_every_item_once() {
    let mut items = HashMap::new();
    for (id, x) in [(3usize, 4000u32), (12, 7)] {
        items.insert(id, AtlasItem { id, x, y: 1, width: 2, height: 3, origin_width: 20, origin_height: 30 });
    }
    let code = atlas_to_code(&Atlas { width: 4096, height: 2048, items });
    let first = "items.insert(3,AtlasItem{id:3,x:4000,y:1,width:2,height:3,origin_width:20,origin_height:30});";
    let second = "items.insert(12,AtlasItem{id:12,x:7,y:1,width:2,height:3,origin_width:20,origin_height:30});";
    assert_eq!(code.matches(first).count(), 1);
    assert_eq!(code.matches(second).count(), 1);
    assert!(code.ends_with("Atlas{width:4096,height:2048,items}}\n"));
    assert_eq!(code.matches("items.insert(").count(), 2);
}

#[test]
fn easing_paths_for_generated_code() {
    assert_eq!(easing(Easing::Linear), "Easing::Linear");
    assert_eq!(easing(Easing::InCubic), "Easing::InCubic");
    assert_eq!(easing(Easing::OutCubic), "Easing::OutCubic");
    assert_eq!(easing(Easing::InOutCubic), "Easing::InOutCubic");
    assert_eq!(easing(Easing::InSine), "Easing::InSine");
    assert_eq!(easing(Easing::OutSine), "Easing::OutSine");
    assert_eq!(easing(Easing::InOutSine), "Easing::InOutSine");
}

#[test]
fn demo_atlases() {
    let a = engine_const::create_atlas();
    assert_eq!((a.width, a.height, a.items.len()), (4096, 4096, 10));
    assert_eq!(
        a.items[&9],
        AtlasItem { id: 9, x: 1367, y: 3495, width: 1361, height: 517, origin_width: 1920, origin_height: 835 }
    );
    let e = build_atlas();
    assert_eq!((e.width, e.height, e.items.len()), (4096, 4096, 10));
    for id in 0..10usize {
        assert_eq!(e.items[&id], a.items[&id]);
    }
    let f = engine_const::create_font_atlas();
    assert_eq!((f.width, f.height), (256, 256));
    assert_eq!(
        f.items[&8],
        AtlasItem { id: 8, x: 27, y: 121, width: 27, height: 30, origin_width: 27, origin_height: 30 }
    );
    for (k, i) in &f.items {
        assert_eq!(*k, i.id);
        assert!(i.x + i.width <= 256 && i.y + i.height <= 256);
    }
}

#[test]
fn demo_letters() {
    assert_eq!(engine_const::get_letters(), "рын тмйкгчисёеМолаЭ.Твз");
}
