//! The sample atlas the editor starts with.
use crate::atlas::{Atlas, AtlasItem};
use std::collections::HashMap;
use vstd::prelude::*;

verus! {

broadcast use vstd::std_specs::hash::group_hash_axioms;

/// The editor's sample image atlas: ten photographs in a 4096x4096
/// texture.
pub fn build_atlas() -> (r: Atlas)
    ensures
        r.width == 4096,
        r.height == 4096,
        r.items@ == map![
            6usize => AtlasItem { id: 6, x: 1367, y: 2, width: 1361, height: 1792, origin_width: 1920, origin_height: 2876 },
            3usize => AtlasItem { id: 3, x: 2, y: 2, width: 1361, height: 1794, origin_width: 1920, origin_height: 2880 },
            2usize => AtlasItem { id: 2, x: 2732, y: 3298, width: 1361, height: 795, origin_width: 1920, origin_height: 1280 },
            7usize => AtlasItem { id: 7, x: 2732, y: 1600, width: 1361, height: 894, origin_width: 1920, origin_height: 1439 },
            9usize => AtlasItem { id: 9, x: 1367, y: 3495, width: 1361, height: 517, origin_width: 1920, origin_height: 835 },
            8usize => AtlasItem { id: 8, x: 1367, y: 1798, width: 1361, height: 894, origin_width: 1920, origin_height: 1438 },
            4usize => AtlasItem { id: 4, x: 2732, y: 2499, width: 1361, height: 795, origin_width: 1920, origin_height: 1280 },
            5usize => AtlasItem { id: 5, x: 2, y: 1800, width: 1361, height: 1794, origin_width: 1920, origin_height: 2880 },
            1usize => AtlasItem { id: 1, x: 1367, y: 2696, width: 1361, height: 795, origin_width: 1920, origin_height: 1280 },
            0usize => AtlasItem { id: 0, x: 2732, y: 2, width: 1361, height: 1594, origin_width: 1920, origin_height: 2560 }
        ],
{
    let mut items: HashMap<usize, AtlasItem> = HashMap::with_capacity(10);
    items.insert(6, AtlasItem { id: 6, x: 1367, y: 2, width: 1361, height: 1792, origin_width: 1920, origin_height: 2876 });
    items.insert(3, AtlasItem { id: 3, x: 2, y: 2, width: 1361, height: 1794, origin_width: 1920, origin_height: 2880 });
    items.insert(2, AtlasItem { id: 2, x: 2732, y: 3298, width: 1361, height: 795, origin_width: 1920, origin_height: 1280 });
    items.insert(7, AtlasItem { id: 7, x: 2732, y: 1600, width: 1361, height: 894, origin_width: 1920, origin_height: 1439 });
    items.insert(9, AtlasItem { id: 9, x: 1367, y: 3495, width: 1361, height: 517, origin_width: 1920, origin_height: 835 });
    items.insert(8, AtlasItem { id: 8, x: 1367, y: 1798, width: 1361, height: 894, origin_width: 1920, origin_height: 1438 });
    items.insert(4, AtlasItem { id: 4, x: 2732, y: 2499, width: 1361, height: 795, origin_width: 1920, origin_height: 1280 });
    items.insert(5, AtlasItem { id: 5, x: 2, y: 1800, width: 1361, height: 1794, origin_width: 1920, origin_height: 2880 });
    items.insert(1, AtlasItem { id: 1, x: 1367, y: 2696, width: 1361, height: 795, origin_width: 1920, origin_height: 1280 });
    items.insert(0, AtlasItem { id: 0, x: 2732, y: 2, width: 1361, height: 1594, origin_width: 1920, origin_height: 2560 });
    Atlas { width: 4096, height: 4096, items }
}

} // verus!
