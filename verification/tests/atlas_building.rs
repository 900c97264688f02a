use balchug::atlas::{gaps_atlas, Atlas, AtlasItem};
use balchug::atlas_builder::{build_unscaled_atlas, pot_atlas, try_pack_atlas};
use std::collections::HashMap;
use std::hash::{DefaultHasher, Hasher};

fn item(id: usize, x: u32, y: u32, width: u32, height: u32) -> AtlasItem {
    AtlasItem { id, x, y, width, height, origin_width: width, origin_height: height }
}

fn atlas_of(width: u32, height: u32, items: &[AtlasItem]) -> Atlas {
    let mut map = HashMap::new();
    for i in items {
        map.insert(i.id, *i);
    }
    Atlas { width, height, items: map }
}

fn overlap(a: &AtlasItem, b: &AtlasItem) -> bool {
    a.x < b.x + b.width && b.x < a.x + a.width && a.y < b.y + b.height && b.y < a.y + a.height
}

#[test]
fn default_atlas_is_empty_four_by_four() {
    let a = Atlas::default();
    assert_eq!((a.width, a.height), (4, 4));
    assert!(a.items.is_empty());
}

#[test]
fn pot_atlas_rounds_sides_up() {
    let a = atlas_of(100, 3, &[item(0, 1, 0, 99, 3)]);
    let r = pot_atlas(a);
    assert_eq!((r.width, r.height), (128, 4));
    assert_eq!(r.items.len(), 1);
    assert_eq!(r.items[&0], item(0, 1, 0, 99, 3));
}

#[test]
fn pot_atlas_is_at_least_two() {
    let r = pot_atlas(atlas_of(0, 1, &[]));
    assert_eq!((r.width, r.height), (2, 2));
}

#[test]
fn pot_atlas_keeps_powers_of_two() {
    let r = pot_atlas(atlas_of(64, 256, &[]));
    assert_eq!((r.width, r.height), (64, 256));
    let again = pot_atlas(r);
    assert_eq!((again.width, again.height), (64, 256));
}

#[test]
fn pot_atlas_just_above_a_power() {
    let r = pot_atlas(atlas_of(1025, 513, &[]));
    assert_eq!((r.width, r.height), (2048, 1024));
}

#[test]
fn gaps_atlas_shrinks_every_item() {
    let a = atlas_of(64, 32, &[item(0, 0, 0, 10, 10), item(1, 10, 0, 20, 8)]);
    let r = gaps_atlas(a, 2);
    assert_eq!((r.width, r.height), (64, 32));
    assert_eq!(r.items[&0], AtlasItem { id: 0, x: 2, y: 2, width: 6, height: 6, origin_width: 10, origin_height: 10 });
    assert_eq!(r.items[&1], AtlasItem { id: 1, x: 12, y: 2, width: 16, height: 4, origin_width: 20, origin_height: 8 });
}

#[test]
fn gaps_atlas_zero_gap_changes_nothing() {
    let a = atlas_of(16, 16, &[item(3, 1, 2, 5, 6)]);
    let r = gaps_atlas(a, 0);
    assert_eq!(r.items[&3], item(3, 1, 2, 5, 6));
}

#[test]
fn packing_nothing_gives_an_empty_atlas() {
    let r = try_pack_atlas(&[], 16).expect("empty input packs");
    assert_eq!((r.width, r.height), (0, 0));
    assert!(r.items.is_empty());
    let b = build_unscaled_atlas(&[], 16).expect("empty input builds");
    assert_eq!((b.width, b.height), (2, 2));
    assert!(b.items.is_empty());
}

#[test]
fn packing_one_image_spans_it() {
    let r = try_pack_atlas(&[(10, 20)], 16).expect("one image packs");
    assert_eq!(r.items.len(), 1);
    let i = r.items[&0];
    assert_eq!((i.id, i.width, i.height, i.origin_width, i.origin_height), (0, 10, 20, 10, 20));
    assert_eq!((r.width, r.height), (i.x + 10, i.y + 20));
    assert_eq!((i.x, i.y), (0, 0));
    let b = build_unscaled_atlas(&[(10, 20)], 16).expect("one image builds");
    assert_eq!((b.width, b.height), (16, 32));
    assert_eq!(b.items[&0], i);
}

#[test]
fn packing_four_squares() {
    let dims = [(10, 10), (10, 10), (10, 10), (10, 10)];
    let r = try_pack_atlas(&dims, 512).expect("squares pack");
    assert_eq!(r.items.len(), 4);
    for id in 0..4usize {
        let i = r.items[&id];
        assert_eq!(i.id, id);
        assert_eq!((i.width, i.height, i.origin_width, i.origin_height), (10, 10, 10, 10));
        assert!(i.x + i.width <= r.width && i.y + i.height <= r.height);
    }
    for a in 0..4usize {
        for b in (a + 1)..4usize {
            assert!(!overlap(&r.items[&a], &r.items[&b]));
        }
    }
    assert_eq!((r.width, r.height), (20, 20));
    let same = try_pack_atlas(&dims, 512).expect("squares pack");
    assert_eq!((same.width, same.height), (r.width, r.height));
    for id in 0..4usize {
        assert_eq!(same.items[&id], r.items[&id]);
    }
}

#[test]
fn negative_sizes_count_as_zero() {
    let r = try_pack_atlas(&[(-5, 4), (3, 3)], 16).expect("packs");
    assert_eq!(r.items.len(), 2);
    let i = r.items[&0];
    assert_eq!((i.width, i.origin_width, i.height, i.origin_height), (0, 0, 4, 4));
    assert_eq!(r.items[&1].origin_width, 3);
}

#[test]
fn a_side_beyond_i32_is_refused() {
    assert!(try_pack_atlas(&[(i32::MAX, 1)], 16).is_none());
    assert!(build_unscaled_atlas(&[(i32::MAX, 1)], 16).is_none());
}

#[test]
fn items_by_id_sorts_the_items() {
    let a = atlas_of(64, 64, &[item(5, 0, 0, 1, 1), item(1, 1, 0, 1, 1), item(3, 2, 0, 1, 1)]);
    let ids: Vec<usize> = a.items_by_id().iter().map(|i| i.id).collect();
    assert_eq!(ids, vec![1, 3, 5]);
}

#[test]
fn atlas_hash_is_the_default_hasher_over_sorted_items() {
    let a = atlas_of(64, 64, &[item(2, 0, 0, 4, 5), item(0, 9, 9, 1, 2)]);
    let mut h = DefaultHasher::new();
    for i in [item(0, 9, 9, 1, 2), item(2, 0, 0, 4, 5)] {
        h.write_usize(i.id);
        h.write_u32(i.x);
        h.write_u32(i.y);
        h.write_u32(i.width);
        h.write_u32(i.height);
        h.write_u32(i.origin_width);
        h.write_u32(i.origin_height);
    }
    assert_eq!(a.hash(), format!("{:x}", h.finish()));
}

#[test]
fn atlas_hash_ignores_map_order_and_atlas_size() {
    let a = atlas_of(64, 64, &[item(2, 0, 0, 4, 5), item(0, 9, 9, 1, 2)]);
    let b = atlas_of(8, 8, &[item(0, 9, 9, 1, 2), item(2, 0, 0, 4, 5)]);
    assert_eq!(a.hash(), b.hash());
    let c = atlas_of(64, 64, &[item(2, 0, 1, 4, 5), item(0, 9, 9, 1, 2)]);
    assert_ne!(a.hash(), c.hash());
}

#[test]
fn built_sides_are_least_powers_covering_the_items() {
    let dims = [(30, 7), (12, 40), (5, 5), (17, 3)];
    let b = build_unscaled_atlas(&dims, 16).expect("small images build");
    let reach_w = b.items.values().map(|i| i.x + i.width).max().unwrap();
    let reach_h = b.items.values().map(|i| i.y + i.height).max().unwrap();
    assert_eq!(b.width, reach_w.next_power_of_two().max(2));
    assert_eq!(b.height, reach_h.next_power_of_two().max(2));
    let items: Vec<AtlasItem> = b.items.values().copied().collect();
    for a in 0..items.len() {
        for c in (a + 1)..items.len() {
            assert!(!overlap(&items[a], &items[c]));
        }
    }
}
