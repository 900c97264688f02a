//! The demo atlases built into the engine.
use crate::atlas::{Atlas, AtlasItem};
use std::collections::HashMap;
use vstd::prelude::*;

verus! {

broadcast use vstd::std_specs::hash::group_hash_axioms;

/// The image atlas of the built-in demo: ten photographs in a 4096x4096
/// texture.
pub fn create_atlas() -> (r: Atlas)
    ensures
        r.width == 4096,
        r.height == 4096,
        r.items@ == map![
            6usize => AtlasItem { id: 6, x: 1367, y: 2, width: 1361, height: 1792, origin_width: 1920, origin_height: 2876 },
            3usize => AtlasItem { id: 3, x: 2, y: 2, width: 1361, height: 1794, origin_width: 1920, origin_height: 2880 },
            2usize => AtlasItem { id: 2, x: 2732, y: 3298, width: 1361, height: 795, origin_width: 1920, origin_height: 1280 },
            7usize => AtlasItem { id: 7, x: 2732, y: 1600, width: 1361, height: 894, origin_width: 1920, origin_height: 1439 },
            9usize => AtlasItem { id: 9, x: 1367, y: 3495, width: 1361, height: 517, origin_width: 1920, origin_height: 835 },
            8usize => AtlasItem { id: 8, x: 1367, y: 1798, width: 1361, height: 894, origin_width: 1920, origin_height: 1438 },
            4usize => AtlasItem { id: 4, x: 2732, y: 2499, width: 1361, height: 795, origin_width: 1920, origin_height: 1280 },
            5usize => AtlasItem { id: 5, x: 2, y: 1800, width: 1361, height: 1794, origin_width: 1920, origin_height: 2880 },
            1usize => AtlasItem { id: 1, x: 1367, y: 2696, width: 1361, height: 795, origin_width: 1920, origin_height: 1280 },
            0usize => AtlasItem { id: 0, x: 2732, y: 2, width: 1361, height: 1594, origin_width: 1920, origin_height: 2560 }
        ],
{
    let mut items: HashMap<usize, AtlasItem> = HashMap::with_capacity(10);
    items.insert(6, AtlasItem { id: 6, x: 1367, y: 2, width: 1361, height: 1792, origin_width: 1920, origin_height: 2876 });
    items.insert(3, AtlasItem { id: 3, x: 2, y: 2, width: 1361, height: 1794, origin_width: 1920, origin_height: 2880 });
    items.insert(2, AtlasItem { id: 2, x: 2732, y: 3298, width: 1361, height: 795, origin_width: 1920, origin_height: 1280 });
    items.insert(7, AtlasItem { id: 7, x: 2732, y: 1600, width: 1361, height: 894, origin_width: 1920, origin_height: 1439 });
    items.insert(9, AtlasItem { id: 9, x: 1367, y: 3495, width: 1361, height: 517, origin_width: 1920, origin_height: 835 });
    items.insert(8, AtlasItem { id: 8, x: 1367, y: 1798, width: 1361, height: 894, origin_width: 1920, origin_height: 1438 });
    items.insert(4, AtlasItem { id: 4, x: 2732, y: 2499, width: 1361, height: 795, origin_width: 1920, origin_height: 1280 });
    items.insert(5, AtlasItem { id: 5, x: 2, y: 1800, width: 1361, height: 1794, origin_width: 1920, origin_height: 2880 });
    items.insert(1, AtlasItem { id: 1, x: 1367, y: 2696, width: 1361, height: 795, origin_width: 1920, origin_height: 1280 });
    items.insert(0, AtlasItem { id: 0, x: 2732, y: 2, width: 1361, height: 1594, origin_width: 1920, origin_height: 2560 });
    Atlas { width: 4096, height: 4096, items }
}

/// The glyph atlas of the built-in demo font: 22 glyphs in a 256x256
/// texture.
pub fn create_font_atlas() -> (r: Atlas)
    ensures
        r.width == 256,
        r.height == 256,
        r.items@ == map![
            8usize => AtlasItem { id: 8, x: 27, y: 121, width: 27, height: 30, origin_width: 27, origin_height: 30 },
            16usize => AtlasItem { id: 16, x: 80, y: 131, width: 27, height: 28, origin_width: 27, origin_height: 28 },
            12usize => AtlasItem { id: 12, x: 54, y: 121, width: 26, height: 30, origin_width: 26, origin_height: 30 },
            3usize => AtlasItem { id: 3, x: 30, y: 91, width: 28, height: 30, origin_width: 28, origin_height: 30 },
            5usize => AtlasItem { id: 5, x: 107, y: 131, width: 27, height: 28, origin_width: 27, origin_height: 28 },
            6usize => AtlasItem { id: 6, x: 74, y: 57, width: 30, height: 28, origin_width: 30, origin_height: 28 },
            11usize => AtlasItem { id: 11, x: 76, y: 0, width: 34, height: 28, origin_width: 34, origin_height: 28 },
            18usize => AtlasItem { id: 18, x: 104, y: 74, width: 29, height: 29, origin_width: 29, origin_height: 29 },
            17usize => AtlasItem { id: 17, x: 41, y: 0, width: 35, height: 28, origin_width: 35, origin_height: 28 },
            13usize => AtlasItem { id: 13, x: 133, y: 74, width: 27, height: 30, origin_width: 27, origin_height: 30 },
            2usize => AtlasItem { id: 2, x: 88, y: 103, width: 28, height: 28, origin_width: 28, origin_height: 28 },
            10usize => AtlasItem { id: 10, x: 41, y: 28, width: 33, height: 35, origin_width: 33, origin_height: 35 },
            4usize => AtlasItem { id: 4, x: 0, y: 35, width: 30, height: 37, origin_width: 30, origin_height: 37 },
            1usize => AtlasItem { id: 1, x: 60, y: 85, width: 28, height: 30, origin_width: 28, origin_height: 30 },
            9usize => AtlasItem { id: 9, x: 143, y: 0, width: 17, height: 18, origin_width: 17, origin_height: 18 },
            7usize => AtlasItem { id: 7, x: 30, y: 63, width: 30, height: 28, origin_width: 30, origin_height: 28 },
            15usize => AtlasItem { id: 15, x: 110, y: 0, width: 33, height: 37, origin_width: 33, origin_height: 37 },
            14usize => AtlasItem { id: 14, x: 105, y: 37, width: 30, height: 37, origin_width: 30, origin_height: 37 },
            0usize => AtlasItem { id: 0, x: 0, y: 0, width: 41, height: 35, origin_width: 41, origin_height: 35 },
            19usize => AtlasItem { id: 19, x: 74, y: 28, width: 31, height: 29, origin_width: 31, origin_height: 29 },
            20usize => AtlasItem { id: 20, x: 0, y: 72, width: 30, height: 28, origin_width: 30, origin_height: 28 },
            21usize => AtlasItem { id: 21, x: 0, y: 100, width: 27, height: 37, origin_width: 27, origin_height: 37 }
        ],
{
    let mut items: HashMap<usize, AtlasItem> = HashMap::with_capacity(22);
    items.insert(8, AtlasItem { id: 8, x: 27, y: 121, width: 27, height: 30, origin_width: 27, origin_height: 30 });
    items.insert(16, AtlasItem { id: 16, x: 80, y: 131, width: 27, height: 28, origin_width: 27, origin_height: 28 });
    items.insert(12, AtlasItem { id: 12, x: 54, y: 121, width: 26, height: 30, origin_width: 26, origin_height: 30 });
    items.insert(3, AtlasItem { id: 3, x: 30, y: 91, width: 28, height: 30, origin_width: 28, origin_height: 30 });
    items.insert(5, AtlasItem { id: 5, x: 107, y: 131, width: 27, height: 28, origin_width: 27, origin_height: 28 });
    items.insert(6, AtlasItem { id: 6, x: 74, y: 57, width: 30, height: 28, origin_width: 30, origin_height: 28 });
    items.insert(11, AtlasItem { id: 11, x: 76, y: 0, width: 34, height: 28, origin_width: 34, origin_height: 28 });
    items.insert(18, AtlasItem { id: 18, x: 104, y: 74, width: 29, height: 29, origin_width: 29, origin_height: 29 });
    items.insert(17, AtlasItem { id: 17, x: 41, y: 0, width: 35, height: 28, origin_width: 35, origin_height: 28 });
    items.insert(13, AtlasItem { id: 13, x: 133, y: 74, width: 27, height: 30, origin_width: 27, origin_height: 30 });
    items.insert(2, AtlasItem { id: 2, x: 88, y: 103, width: 28, height: 28, origin_width: 28, origin_height: 28 });
    items.insert(10, AtlasItem { id: 10, x: 41, y: 28, width: 33, height: 35, origin_width: 33, origin_height: 35 });
    items.insert(4, AtlasItem { id: 4, x: 0, y: 35, width: 30, height: 37, origin_width: 30, origin_height: 37 });
    items.insert(1, AtlasItem { id: 1, x: 60, y: 85, width: 28, height: 30, origin_width: 28, origin_height: 30 });
    items.insert(9, AtlasItem { id: 9, x: 143, y: 0, width: 17, height: 18, origin_width: 17, origin_height: 18 });
    items.insert(7, AtlasItem { id: 7, x: 30, y: 63, width: 30, height: 28, origin_width: 30, origin_height: 28 });
    items.insert(15, AtlasItem { id: 15, x: 110, y: 0, width: 33, height: 37, origin_width: 33, origin_height: 37 });
    items.insert(14, AtlasItem { id: 14, x: 105, y: 37, width: 30, height: 37, origin_width: 30, origin_height: 37 });
    items.insert(0, AtlasItem { id: 0, x: 0, y: 0, width: 41, height: 35, origin_width: 41, origin_height: 35 });
    items.insert(19, AtlasItem { id: 19, x: 74, y: 28, width: 31, height: 29, origin_width: 31, origin_height: 29 });
    items.insert(20, AtlasItem { id: 20, x: 0, y: 72, width: 30, height: 28, origin_width: 30, origin_height: 28 });
    items.insert(21, AtlasItem { id: 21, x: 0, y: 100, width: 27, height: 37, origin_width: 27, origin_height: 37 });
    Atlas { width: 256, height: 256, items }
}

/// The letters the built-in demo font covers.
pub fn get_letters() -> (r: String)
    ensures
        r@ == "рын тмйкгчисёеМолаЭ.Твз"@,
{
    "рын тмйкгчисёеМолаЭ.Твз".to_owned()
}

} // verus!
