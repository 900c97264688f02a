use balchug::atlas::{Atlas, AtlasItem};
use balchug::font::{build_glyph_atlas, place_glyph_images, GlyphImage};
use std::collections::HashMap;

fn image(width: u16, height: u16, first: u8) -> GlyphImage {
    let n = width as usize * height as usize;
    GlyphImage { width, height, data: (0..n).map(|k| first + k as u8).collect() }
}

#[test]
fn glyph_image_dimensions() {
    let g = image(7, 3, 0);
    assert_eq!(g.to_dimensions(), (7, 3));
}

#[test]
fn one_glyph_lands_at_its_item() {
    let mut items = HashMap::new();
    items.insert(0, AtlasItem { id: 0, x: 1, y: 0, width: 2, height: 2, origin_width: 2, origin_height: 2 });
    let atlas = Atlas { width: 4, height: 2, items };
    let data = place_glyph_images(&atlas, &[GlyphImage { width: 2, height: 2, data: vec![1, 2, 3, 4] }]);
    assert_eq!(data, vec![0, 1, 2, 0, 0, 3, 4, 0]);
}

#[test]
fn glyphs_are_looked_up_by_item_id() {
    let mut items = HashMap::new();
    items.insert(1, AtlasItem { id: 1, x: 0, y: 0, width: 1, height: 1, origin_width: 1, origin_height: 1 });
    items.insert(0, AtlasItem { id: 0, x: 2, y: 1, width: 2, height: 1, origin_width: 2, origin_height: 1 });
    let atlas = Atlas { width: 4, height: 2, items };
    let images = [
        GlyphImage { width: 2, height: 1, data: vec![7, 8] },
        GlyphImage { width: 1, height: 1, data: vec![9] },
    ];
    let data = place_glyph_images(&atlas, &images);
    assert_eq!(data, vec![9, 0, 0, 0, 0, 0, 7, 8]);
}

#[test]
fn empty_atlas_texture_is_zeroed() {
    let atlas = Atlas { width: 3, height: 2, items: HashMap::new() };
    assert_eq!(place_glyph_images(&atlas, &[]), vec![0; 6]);
}

#[test]
fn no_glyphs_give_the_smallest_texture() {
    let (atlas, data) = build_glyph_atlas(&[]).expect("nothing to pack");
    assert_eq!((atlas.width, atlas.height), (2, 2));
    assert!(atlas.items.is_empty());
    assert_eq!(data, vec![0; 4]);
}

#[test]
fn glyph_atlas_holds_every_image() {
    let images = [image(3, 2, 10), image(2, 4, 50), image(5, 1, 100)];
    let (atlas, data) = build_glyph_atlas(&images).expect("small glyphs pack");
    assert!(atlas.width.is_power_of_two() && atlas.height.is_power_of_two());
    assert_eq!(data.len(), atlas.width as usize * atlas.height as usize);
    assert_eq!(atlas.items.len(), 3);
    for (id, img) in images.iter().enumerate() {
        let it = atlas.items[&id];
        assert_eq!((it.width, it.height), (img.width as u32, img.height as u32));
        for row in 0..img.height as usize {
            for col in 0..img.width as usize {
                let at = (it.y as usize + row) * atlas.width as usize + it.x as usize + col;
                assert_eq!(data[at], img.data[row * img.width as usize + col]);
            }
        }
    }
    let painted: usize = images.iter().map(|i| i.data.len()).sum();
    assert_eq!(data.iter().filter(|b| **b != 0).count(), painted);
}
