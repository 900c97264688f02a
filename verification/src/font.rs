//! Glyph images and their placement into the glyph atlas texture.
use crate::atlas::{items_in_map_order, Atlas, AtlasItem};
use crate::atlas_builder::{
    build_unscaled_atlas, checked_total_area, is_pot_packed_atlas, items_apart_plain, packed_height, packed_width,
    packs_in_bounds, pot, total_area,
};
use vstd::prelude::*;
use vstd::std_specs::iter::IteratorSpec;

verus! {

broadcast use vstd::std_specs::hash::group_hash_axioms;

/// A rendered glyph: an 8-bit alpha image, row by row.
pub struct GlyphImage {
    pub width: u16,
    pub height: u16,
    pub data: Vec<u8>,
}

impl GlyphImage {
    /// The image size as the atlas packer takes it.
    pub fn to_dimensions(&self) -> (r: (i32, i32))
        ensures
            r.0 == self.width as i32,
            r.1 == self.height as i32,
    {
        (self.width as i32, self.height as i32)
    }
}

/// `data` with `len` bytes from `src` at `from` written at `at`.
pub open spec fn write_run(data: Seq<u8>, at: int, src: Seq<u8>, from: int, len: int) -> Seq<u8> {
    data.take(at) + src.subrange(from, from + len) + data.skip(at + len)
}

/// `rows` rows of `width` bytes copied from `src` (read from `from` on,
/// row after row) into `data` (written from `at` on, one `stride` apart).
pub open spec fn write_rows(
    data: Seq<u8>,
    at: int,
    stride: int,
    src: Seq<u8>,
    from: int,
    width: int,
    rows: nat,
) -> Seq<u8>
    decreases rows,
{
    if rows == 0 {
        data
    } else {
        write_rows(
            write_run(data, at, src, from, width),
            at + stride,
            stride,
            src,
            from + width,
            width,
            (rows - 1) as nat,
        )
    }
}

/// Every one of `rows` runs of `width`, starting at `at` and `stride` apart,
/// ends within `len`.
pub open spec fn rows_fit(at: int, stride: int, width: int, rows: nat, len: int) -> bool
    decreases rows,
{
    rows == 0 || (at + width <= len && rows_fit(at + stride, stride, width, (rows - 1) as nat, len))
}

/// Index of the first atlas byte of an item.
pub open spec fn item_offset(item: AtlasItem, atlas_width: u32) -> int {
    item.y * atlas_width + item.x
}

/// The atlas bytes after drawing the glyph image of `item` into them.
pub open spec fn draw_item(data: Seq<u8>, item: AtlasItem, atlas_width: u32, images: Seq<GlyphImage>) -> Seq<u8> {
    let img = images[item.id as int];
    write_rows(data, item_offset(item, atlas_width), atlas_width as int, img.data@, 0, img.width as int, img.height as nat)
}

/// The atlas bytes after drawing the items in the order given.
pub open spec fn draw_items(data: Seq<u8>, items: Seq<AtlasItem>, atlas_width: u32, images: Seq<GlyphImage>) -> Seq<u8>
    decreases items.len(),
{
    if items.len() == 0 {
        data
    } else {
        draw_item(draw_items(data, items.drop_last(), atlas_width, images), items.last(), atlas_width, images)
    }
}

/// The glyph image of `item` lies within the atlas bytes and its own data,
/// and the offsets reached while drawing it (one row past its last) fit
/// their integer types.
pub open spec fn item_drawable(item: AtlasItem, atlas: &Atlas, images: Seq<GlyphImage>) -> bool {
    let img = images[item.id as int];
    &&& item.id < images.len()
    &&& item_offset(item, atlas.width) <= u32::MAX
    &&& item_offset(item, atlas.width) + img.height * atlas.width <= usize::MAX
    &&& img.height == 0 || item_offset(item, atlas.width) + (img.height - 1) * atlas.width + img.width
        <= atlas.width * atlas.height
    &&& img.width * img.height <= img.data@.len()
}

proof fn lemma_rows_fit(at: int, stride: int, width: int, rows: nat, len: int)
    requires
        stride >= 0,
        width >= 0,
        rows == 0 || at + (rows - 1) * stride + width <= len,
    ensures
        rows_fit(at, stride, width, rows, len),
    decreases rows,
{
    if rows > 0 {
        assert(at + width <= len) by (nonlinear_arith)
            requires rows >= 1, stride >= 0, at + (rows - 1) * stride + width <= len;
        if rows > 1 {
            assert((at + stride) + (rows - 2) * stride + width <= len) by (nonlinear_arith)
                requires rows >= 2, at + (rows - 1) * stride + width <= len;
        }
        lemma_rows_fit(at + stride, stride, width, (rows - 1) as nat, len);
    }
}

/// Copies the rows of one glyph image into the atlas bytes.
fn draw_glyph(data: &mut Vec<u8>, at: usize, stride: usize, img: &GlyphImage)
    requires
        rows_fit(at as int, stride as int, img.width as int, img.height as nat, old(data)@.len() as int),
        rows_fit(0, img.width as int, img.width as int, img.height as nat, img.data@.len() as int),
        at + (img.height as int) * stride <= usize::MAX,
        old(data)@.len() <= usize::MAX,
        img.data@.len() <= usize::MAX,
    ensures
        final(data)@.len() == old(data)@.len(),
        final(data)@ == write_rows(old(data)@, at as int, stride as int, img.data@, 0, img.width as int, img.height as nat),
{
    let w = img.width as usize;
    let mut atlas_offset = at;
    let mut image_offset: usize = 0;
    let mut row: u16 = 0;
    let ghost target = write_rows(old(data)@, at as int, stride as int, img.data@, 0, img.width as int, img.height as nat);
    while row < img.height
        invariant
            row <= img.height,
            w == img.width,
            atlas_offset == at + row * stride,
            image_offset == row * w,
            at + (img.height as int) * stride <= usize::MAX,
            data@.len() <= usize::MAX,
            data@.len() == old(data)@.len(),
            img.data@.len() <= usize::MAX,
            rows_fit(atlas_offset as int, stride as int, w as int, (img.height - row) as nat, data@.len() as int),
            rows_fit(image_offset as int, w as int, w as int, (img.height - row) as nat, img.data@.len() as int),
            write_rows(data@, atlas_offset as int, stride as int, img.data@, image_offset as int, w as int, (img.height - row) as nat) == target,
        decreases img.height - row,
    {
        let ghost before = data@;
        let mut c: usize = 0;
        while c < w
            invariant
                c <= w,
                atlas_offset + w <= data@.len(),
                image_offset + w <= img.data@.len(),
                data@.len() == before.len(),
                data@.len() <= usize::MAX,
                img.data@.len() <= usize::MAX,
                data@ == before.take(atlas_offset as int) + img.data@.subrange(image_offset as int, image_offset + c)
                    + before.skip(atlas_offset + c),
            decreases w - c,
        {
            data.set(atlas_offset + c, img.data[image_offset + c]);
            proof {
                assert(data@ =~= before.take(atlas_offset as int) + img.data@.subrange(image_offset as int, image_offset + c + 1)
                    + before.skip(atlas_offset + c + 1));
            }
            c = c + 1;
        }
        proof {
            assert(data@ == write_run(before, atlas_offset as int, img.data@, image_offset as int, w as int));
            assert(at + (row + 1) * stride <= at + (img.height as int) * stride) by (nonlinear_arith)
                requires row + 1 <= img.height, stride >= 0;
            assert(at + (row + 1) * stride == at + row * stride + stride) by (nonlinear_arith);
            assert((row + 1) * w == row * w + w) by (nonlinear_arith);
        }
        atlas_offset = atlas_offset + stride;
        image_offset = image_offset + w;
        row = row + 1;
    }
}

/// Draws the glyph images into one 8-bit atlas texture, each at the place
/// its atlas item gives; bytes outside every item stay 0.
pub fn place_glyph_images(atlas: &Atlas, images: &[GlyphImage]) -> (r: Vec<u8>)
    requires
        (atlas.width as int) * (atlas.height as int) <= usize::MAX,
        forall|k: usize| #[trigger] atlas.items@.contains_key(k) ==> item_drawable(atlas.items@[k], atlas, images@),
    ensures
        r@ == draw_items(
            Seq::new((atlas.width * atlas.height) as nat, |i: int| 0u8),
            items_in_map_order(atlas),
            atlas.width,
            images@,
        ),
        r@.len() == atlas.width * atlas.height,
        items_in_map_order(atlas).to_set() == atlas.items@.values(),
        items_in_map_order(atlas).len() == atlas.items@.len(),
{
    let size = atlas.width as usize * atlas.height as usize;
    let mut data: Vec<u8> = vec![0u8; size];
    let ghost zeros = Seq::new((atlas.width * atlas.height) as nat, |i: int| 0u8);
    let ghost vs = items_in_map_order(atlas);
    assert(data@ =~= zeros);
    assert(zeros.len() == atlas.width * atlas.height);
    let ghost mut done: int = 0;
    for item in it: atlas.items.values()
        invariant
            done == it.index(),
            done <= vs.len(),
            data@.len() <= usize::MAX,
            (atlas.width as int) * (atlas.height as int) <= usize::MAX,
            forall|k: usize| #[trigger] atlas.items@.contains_key(k) ==> item_drawable(atlas.items@[k], atlas, images@),
            it.seq().map_values(|v: &AtlasItem| *v) == vs,
            vs == items_in_map_order(atlas),
            data@.len() == zeros.len(),
            zeros.len() == atlas.width * atlas.height,
            data@ == draw_items(zeros, vs.take(it.index() as int), atlas.width, images@),
    {
        proof {
            assert(it.seq()[it.index() as int] == item);
            assert(vs[it.index() as int] == *item);
            assert(it.seq().unref().to_set().contains(*item));
            assert(atlas.items@.values().contains(*item));
            let k = choose|k: usize| atlas.items@.contains_key(k) && atlas.items@[k] == *item;
            assert(item_drawable(atlas.items@[k], atlas, images@));
        }
        let image = &images[item.id];
        let _ = image.data.len();
        let at = (item.y * atlas.width + item.x) as usize;
        proof {
            assert(item_drawable(*item, atlas, images@));
            assert(at == item_offset(*item, atlas.width));
            assert(data@.len() == atlas.width * atlas.height);
            lemma_rows_fit(at as int, atlas.width as int, image.width as int, image.height as nat, data@.len() as int);
            assert((image.height - 1) * image.width + image.width == image.width * image.height) by (nonlinear_arith);
            lemma_rows_fit(0, image.width as int, image.width as int, image.height as nat, image.data@.len() as int);
            assert(at + (image.height as int) * atlas.width <= usize::MAX);
        }
        draw_glyph(&mut data, at, atlas.width as usize, image);
        proof {
            let ghost prev = vs.take(it.index() as int);
            assert(vs.take(it.index() + 1).drop_last() =~= prev);
            assert(vs.take(it.index() + 1).last() == *item);
            done = done + 1;
        }
    }
    assert(vs.take(done) =~= vs);
    proof {
        vstd::std_specs::hash::axiom_spec_values_iter(&atlas.items);
        let rem = vstd::std_specs::hash::spec_values_iter(&atlas.items).remaining();
        assert forall|v: AtlasItem| vs.to_set().contains(v) <==> atlas.items@.values().contains(v) by {
            if vs.contains(v) {
                let i = choose|i: int| 0 <= i < vs.len() && vs[i] == v;
                assert(rem.unref()[i] == v);
                assert(rem.unref().to_set().contains(v));
            }
            if atlas.items@.values().contains(v) {
                assert(rem.unref().to_set().contains(v));
                let i = choose|i: int| 0 <= i < rem.unref().len() && rem.unref()[i] == v;
                assert(vs[i] == v);
            }
        }
        assert(vs.to_set() =~= atlas.items@.values());
        assert(vs.len() == rem.len());
    }
    data
}

/// The sizes the packer is given for the glyph images, in order.
pub open spec fn glyph_sizes(images: Seq<GlyphImage>) -> Seq<(i32, i32)> {
    Seq::new(images.len(), |i: int| (images[i].width as i32, images[i].height as i32))
}

/// The glyph images pack within the machine's ranges: their total area,
/// the packed sides (at most 2^30) and the texture's byte count (plus one
/// row) all fit in `u32`.
pub open spec fn glyph_atlas_in_range(images: Seq<GlyphImage>) -> bool {
    let sizes = glyph_sizes(images);
    &&& total_area(sizes) <= u32::MAX
    &&& packs_in_bounds(sizes, 16)
    &&& packed_width(sizes, 16) <= 0x4000_0000
    &&& packed_height(sizes, 16) <= 0x4000_0000
    &&& pot(packed_width(sizes, 16)) * pot(packed_height(sizes, 16)) + pot(packed_width(sizes, 16))
        <= u32::MAX
}

/// Assembles the glyph atlas of the font builder: packs the glyph images
/// (step divider 16, unscaled, sides rounded up to powers of two) and draws
/// every image at its item into one 8-bit texture.
///
/// `None` when the images do not pack within the machine's ranges (see
/// `glyph_atlas_in_range`).
pub fn build_glyph_atlas(images: &[GlyphImage]) -> (r: Option<(Atlas, Vec<u8>)>)
    requires
        forall|i: int| 0 <= i < images.len() ==> #[trigger] images[i].width * images[i].height
            <= images[i].data@.len(),
    ensures
        r is Some <==> glyph_atlas_in_range(images@),
        r matches Some((a, data)) ==> {
            &&& is_pot_packed_atlas(a, glyph_sizes(images@), 16)
            &&& items_in_map_order(&a).to_set() == a.items@.values()
            &&& data@ == draw_items(
                Seq::new((a.width * a.height) as nat, |i: int| 0u8),
                items_in_map_order(&a),
                a.width,
                images@,
            )
            &&& glyphs_shown(&a, data@, images@)
        },
{
    let mut dims: Vec<(i32, i32)> = Vec::new();
    let mut i: usize = 0;
    while i < images.len()
        invariant
            i <= images.len(),
            dims@ == glyph_sizes(images@).take(i as int),
        decreases images.len() - i,
    {
        dims.push(images[i].to_dimensions());
        i = i + 1;
        assert(dims@ =~= glyph_sizes(images@).take(i as int));
    }
    assert(dims@ =~= glyph_sizes(images@));
    let ghost sizes = glyph_sizes(images@);
    if checked_total_area(&dims).is_none() {
        return None;
    }
    let atlas = match build_unscaled_atlas(&dims, 16) {
        Some(a) => a,
        None => {
            return None;
        },
    };
    let w = atlas.width as u64;
    let h = atlas.height as u64;
    assert(w * h <= 0xffff_fffe_0000_0001) by (nonlinear_arith)
        requires w <= u32::MAX, h <= u32::MAX;
    if w * h + w > 0xffff_ffff {
        return None;
    }
    proof {
        assert forall|k: usize| #[trigger] atlas.items@.contains_key(k) implies item_drawable(
            atlas.items@[k],
            &atlas,
            images@,
        ) by {
            let item = atlas.items@[k];
            let img = images@[k as int];
            assert(item.id == k);
            assert(k < images.len());
            assert(item.width == img.width && item.height == img.height);
            let x = item.x as int;
            let y = item.y as int;
            let iw = item.width as int;
            let ih = item.height as int;
            let aw = atlas.width as int;
            let ah = atlas.height as int;
            assert(y * aw + x <= ah * aw + aw) by (nonlinear_arith)
                requires y + ih <= ah, x + iw <= aw, ih >= 0, iw >= 0, aw >= 0, x >= 0, y >= 0;
            assert(y * aw + x + ih * aw <= ah * aw + aw) by (nonlinear_arith)
                requires y + ih <= ah, x + iw <= aw, ih >= 0, iw >= 0, aw >= 0, x >= 0, y >= 0;
            assert(ah * aw == aw * ah) by (nonlinear_arith);
            if ih > 0 {
                assert(y * aw + x + (ih - 1) * aw + iw <= aw * ah) by (nonlinear_arith)
                    requires y + ih <= ah, x + iw <= aw, ih >= 1, iw >= 0, aw >= 0, x >= 0, y >= 0;
            }
            assert(images[k as int].width * images[k as int].height <= images[k as int].data@.len());
        }
    }
    let data = place_glyph_images(&atlas, images);
    proof {
        lemma_glyph_atlas_shown(&atlas, images@, data@);
    }
    Some((atlas, data))
}

/// The texture byte at row `r`, column `c` of the item under key `k`.
pub open spec fn pixel_at(a: &Atlas, data: Seq<u8>, k: usize, r: int, c: int) -> u8 {
    data[(a.items@[k].y + r) * a.width + a.items@[k].x + c]
}

/// The byte at row `r`, column `c` of the glyph image of the item under
/// key `k`.
pub open spec fn glyph_pixel(a: &Atlas, images: Seq<GlyphImage>, k: usize, r: int, c: int) -> u8 {
    let img = images[a.items@[k].id as int];
    img.data@[r * img.width + c]
}

/// Every item's glyph image shows unchanged at the item in the texture.
pub open spec fn glyphs_shown(a: &Atlas, data: Seq<u8>, images: Seq<GlyphImage>) -> bool {
    forall|k: usize, r: int, c: int|
        a.items@.contains_key(k) && 0 <= r < images[a.items@[k].id as int].height && 0 <= c
            < images[a.items@[k].id as int].width ==> #[trigger] pixel_at(a, data, k, r, c) == glyph_pixel(
            a,
            images,
            k,
            r,
            c,
        )
}

proof fn lemma_glyph_atlas_shown(atlas: &Atlas, images: Seq<GlyphImage>, data: Seq<u8>)
    requires
        is_pot_packed_atlas(*atlas, glyph_sizes(images), 16),
        items_in_map_order(atlas).to_set() == atlas.items@.values(),
        data == draw_items(
            Seq::new((atlas.width * atlas.height) as nat, |i: int| 0u8),
            items_in_map_order(atlas),
            atlas.width,
            images,
        ),
        forall|i: int| 0 <= i < images.len() ==> #[trigger] images[i].width * images[i].height
            <= images[i].data@.len(),
    ensures
        glyphs_shown(atlas, data, images),
{
    let zeros = Seq::new((atlas.width * atlas.height) as nat, |i: int| 0u8);
    let m = atlas.items@;
    let sizes = glyph_sizes(images);
    assert forall|k: usize| #[trigger] m.contains_key(k) implies item_fits(m[k], atlas.width, zeros.len() as int, images) by {
        let it = m[k];
        assert(it.id == k && k < images.len());
        let img = images[k as int];
        assert(it.width == img.width && it.height == img.height);
        let y = it.y as int;
        let h = img.height as int;
        let aw = atlas.width as int;
        let ah = atlas.height as int;
        assert((y + h) * aw <= ah * aw) by (nonlinear_arith)
            requires y + h <= ah, aw >= 0;
        assert(ah * aw == aw * ah) by (nonlinear_arith);
        assert(images[k as int].width * images[k as int].height <= images[k as int].data@.len());
    }
    assert forall|k1: usize, k2: usize|
        #[trigger] m.contains_key(k1) && #[trigger] m.contains_key(k2) && k1 != k2 implies items_apart(
        m[k1],
        m[k2],
        images,
    ) by {
        assert(m[k1].id == k1 && m[k2].id == k2);
        assert(m[k1].width == images[k1 as int].width && m[k1].height == images[k1 as int].height);
        assert(m[k2].width == images[k2 as int].width && m[k2].height == images[k2 as int].height);
        if m[k1].width > 0 && m[k1].height > 0 && m[k2].width > 0 && m[k2].height > 0 {
            assert(items_apart_plain(m[k1], m[k2]));
        }
    }
    assert forall|k: usize, r: int, c: int|
        m.contains_key(k) && 0 <= r < images[m[k].id as int].height && 0 <= c < images[m[k].id as int].width
        implies #[trigger] pixel_at(atlas, data, k, r, c) == glyph_pixel(atlas, images, k, r, c) by {
        lemma_atlas_glyph_pixels(atlas, items_in_map_order(atlas), images, zeros, k, r, c);
    }
}

proof fn lemma_write_run(data: Seq<u8>, at: int, src: Seq<u8>, from: int, len: int)
    requires
        0 <= at,
        0 <= len,
        at + len <= data.len(),
        0 <= from,
        from + len <= src.len(),
    ensures
        write_run(data, at, src, from, len).len() == data.len(),
        forall|i: int| 0 <= i < data.len() ==> #[trigger] write_run(data, at, src, from, len)[i] == if at <= i < at + len {
            src[from + i - at]
        } else {
            data[i]
        },
{
}

/// Index `i` lies in row `rr` of the runs written by `write_rows`.
pub open spec fn in_row(i: int, at: int, stride: int, width: int, rr: int) -> bool {
    at + rr * stride <= i < at + rr * stride + width
}

proof fn lemma_write_rows_len(data: Seq<u8>, at: int, stride: int, src: Seq<u8>, from: int, width: int, rows: nat)
    requires
        0 <= at,
        0 <= width <= stride,
        rows == 0 || at + (rows - 1) * stride + width <= data.len(),
        0 <= from,
        from + rows * width <= src.len(),
    ensures
        write_rows(data, at, stride, src, from, width, rows).len() == data.len(),
    decreases rows,
{
    if rows > 0 {
        assert(at + width <= data.len()) by (nonlinear_arith)
            requires rows >= 1, stride >= 0, at + (rows - 1) * stride + width <= data.len();
        assert(from + width <= src.len()) by (nonlinear_arith)
            requires rows >= 1, width >= 0, from + rows * width <= src.len();
        lemma_write_run(data, at, src, from, width);
        if rows > 1 {
            assert((at + stride) + (rows - 2) * stride + width == at + (rows - 1) * stride + width) by (nonlinear_arith);
        }
        assert((from + width) + (rows - 1) * width == from + rows * width) by (nonlinear_arith);
        lemma_write_rows_len(write_run(data, at, src, from, width), at + stride, stride, src, from + width, width, (rows - 1) as nat);
    }
}

proof fn lemma_write_rows_outside(
    data: Seq<u8>,
    at: int,
    stride: int,
    src: Seq<u8>,
    from: int,
    width: int,
    rows: nat,
    i: int,
)
    requires
        0 <= at,
        0 <= width <= stride,
        rows == 0 || at + (rows - 1) * stride + width <= data.len(),
        0 <= from,
        from + rows * width <= src.len(),
        0 <= i < data.len(),
        forall|rr: int| 0 <= rr < rows ==> !#[trigger] in_row(i, at, stride, width, rr),
    ensures
        write_rows(data, at, stride, src, from, width, rows)[i] == data[i],
    decreases rows,
{
    if rows > 0 {
        assert(at + width <= data.len()) by (nonlinear_arith)
            requires rows >= 1, stride >= 0, at + (rows - 1) * stride + width <= data.len();
        assert(from + width <= src.len()) by (nonlinear_arith)
            requires rows >= 1, width >= 0, from + rows * width <= src.len();
        lemma_write_run(data, at, src, from, width);
        let d1 = write_run(data, at, src, from, width);
        assert(!in_row(i, at, stride, width, 0));
        assert(d1[i] == data[i]);
        assert forall|rr: int| 0 <= rr < rows - 1 implies !#[trigger] in_row(i, at + stride, stride, width, rr) by {
            assert(!in_row(i, at, stride, width, rr + 1));
            assert((at + stride) + rr * stride == at + (rr + 1) * stride) by (nonlinear_arith);
        }
        if rows > 1 {
            assert((at + stride) + (rows - 2) * stride + width == at + (rows - 1) * stride + width) by (nonlinear_arith);
        }
        assert((from + width) + (rows - 1) * width == from + rows * width) by (nonlinear_arith);
        lemma_write_rows_outside(d1, at + stride, stride, src, from + width, width, (rows - 1) as nat, i);
    }
}

proof fn lemma_write_rows_inside(
    data: Seq<u8>,
    at: int,
    stride: int,
    src: Seq<u8>,
    from: int,
    width: int,
    rows: nat,
    r: int,
    c: int,
)
    requires
        0 <= at,
        0 <= width <= stride,
        rows == 0 || at + (rows - 1) * stride + width <= data.len(),
        0 <= from,
        from + rows * width <= src.len(),
        0 <= r < rows,
        0 <= c < width,
    ensures
        write_rows(data, at, stride, src, from, width, rows)[at + r * stride + c] == src[from + r * width + c],
    decreases rows,
{
    assert(at + width <= data.len()) by (nonlinear_arith)
        requires rows >= 1, stride >= 0, at + (rows - 1) * stride + width <= data.len();
    assert(from + width <= src.len()) by (nonlinear_arith)
        requires rows >= 1, width >= 0, from + rows * width <= src.len();
    lemma_write_run(data, at, src, from, width);
    let d1 = write_run(data, at, src, from, width);
    if rows > 1 {
        assert((at + stride) + (rows - 2) * stride + width == at + (rows - 1) * stride + width) by (nonlinear_arith);
    }
    assert((from + width) + (rows - 1) * width == from + rows * width) by (nonlinear_arith);
    if r == 0 {
        assert(at + r * stride + c == at + c) by (nonlinear_arith) requires r == 0;
        assert(from + r * width + c == from + c) by (nonlinear_arith) requires r == 0;
        assert forall|rr: int| 0 <= rr < rows - 1 implies !#[trigger] in_row(at + c, at + stride, stride, width, rr) by {
            assert(rr * stride >= 0) by (nonlinear_arith) requires rr >= 0, stride >= 0;
        }
        lemma_write_rows_outside(d1, at + stride, stride, src, from + width, width, (rows - 1) as nat, at + c);
    } else {
        lemma_write_rows_inside(d1, at + stride, stride, src, from + width, width, (rows - 1) as nat, r - 1, c);
        assert((at + stride) + (r - 1) * stride + c == at + r * stride + c) by (nonlinear_arith);
        assert((from + width) + (r - 1) * width + c == from + r * width + c) by (nonlinear_arith);
    }
}

/// The item's glyph image lies within a texture of `len` bytes, each of
/// its rows within the texture width, and holds its pixels.
pub open spec fn item_fits(it: AtlasItem, atlas_width: u32, len: int, images: Seq<GlyphImage>) -> bool {
    let img = images[it.id as int];
    &&& it.id < images.len()
    &&& it.x + img.width <= atlas_width
    &&& (it.y + img.height) * atlas_width <= len
    &&& img.width * img.height <= img.data@.len()
}

/// Every item of the list fits (see `item_fits`).
pub open spec fn items_fit(items: Seq<AtlasItem>, atlas_width: u32, len: int, images: Seq<GlyphImage>) -> bool {
    forall|i: int| 0 <= i < items.len() ==> #[trigger] item_fits(items[i], atlas_width, len, images)
}

/// The glyph images of two items share no pixel: one of them is empty, or
/// they lie apart.
pub open spec fn items_apart(p: AtlasItem, q: AtlasItem, images: Seq<GlyphImage>) -> bool {
    let ip = images[p.id as int];
    let iq = images[q.id as int];
    ||| ip.width == 0 || ip.height == 0
    ||| iq.width == 0 || iq.height == 0
    ||| p.x + ip.width <= q.x
    ||| q.x + iq.width <= p.x
    ||| p.y + ip.height <= q.y
    ||| q.y + iq.height <= p.y
}

proof fn lemma_row_col_unique(a1: int, b1: int, a2: int, b2: int, w: int)
    requires
        w > 0,
        0 <= b1 < w,
        0 <= b2 < w,
        a1 * w + b1 == a2 * w + b2,
    ensures
        a1 == a2,
        b1 == b2,
{
    if a1 < a2 {
        assert(a1 * w + w <= a2 * w) by (nonlinear_arith)
            requires a1 + 1 <= a2, w > 0;
    } else if a2 < a1 {
        assert(a2 * w + w <= a1 * w) by (nonlinear_arith)
            requires a2 + 1 <= a1, w > 0;
    }
}

proof fn lemma_draw_item_fits(data: Seq<u8>, it: AtlasItem, atlas_width: u32, images: Seq<GlyphImage>)
    requires
        it.id < images.len(),
        it.x + images[it.id as int].width <= atlas_width,
        (it.y + images[it.id as int].height) * atlas_width <= data.len(),
        images[it.id as int].width * images[it.id as int].height <= images[it.id as int].data@.len(),
    ensures
        ({
            let img = images[it.id as int];
            &&& 0 <= item_offset(it, atlas_width)
            &&& 0 <= img.width <= atlas_width
            &&& img.height == 0 || item_offset(it, atlas_width) + (img.height - 1) * atlas_width + img.width <= data.len()
            &&& img.height * img.width <= img.data@.len()
        }),
        draw_item(data, it, atlas_width, images).len() == data.len(),
{
    let img = images[it.id as int];
    let w = atlas_width as int;
    assert(item_offset(it, atlas_width) == it.y * w + it.x);
    assert(it.y * w >= 0) by (nonlinear_arith) requires it.y >= 0, w >= 0;
    if img.height > 0 {
        assert(it.y * w + it.x + (img.height - 1) * w + img.width <= (it.y + img.height) * w) by (nonlinear_arith)
            requires it.x + img.width <= w, img.height >= 1;
    }
    assert(img.height * img.width == img.width * img.height) by (nonlinear_arith);
    lemma_write_rows_len(data, item_offset(it, atlas_width), w, img.data@, 0, img.width as int, img.height as nat);
}

proof fn lemma_draw_items_len(data: Seq<u8>, items: Seq<AtlasItem>, atlas_width: u32, images: Seq<GlyphImage>)
    requires
        items_fit(items, atlas_width, data.len() as int, images),
    ensures
        draw_items(data, items, atlas_width, images).len() == data.len(),
    decreases items.len(),
{
    if items.len() > 0 {
        let rest = items.drop_last();
        assert(items_fit(rest, atlas_width, data.len() as int, images)) by {
            assert forall|i: int| 0 <= i < rest.len() implies #[trigger] item_fits(rest[i], atlas_width, data.len() as int, images) by {
                assert(rest[i] == items[i]);
                assert(item_fits(items[i], atlas_width, data.len() as int, images));
            }
        }
        lemma_draw_items_len(data, rest, atlas_width, images);
        assert(items[items.len() - 1] == items.last());
        assert(item_fits(items[items.len() - 1], atlas_width, data.len() as int, images));
        lemma_draw_item_fits(draw_items(data, rest, atlas_width, images), items.last(), atlas_width, images);
    }
}

/// Law: when no two glyph images overlap (an item listed twice is drawn
/// twice alike), the texture shows every glyph image unchanged at its item,
/// whatever the order in which the items are drawn.
pub proof fn lemma_glyph_pixels(
    data: Seq<u8>,
    items: Seq<AtlasItem>,
    atlas_width: u32,
    images: Seq<GlyphImage>,
    j: int,
    r: int,
    c: int,
)
    requires
        items_fit(items, atlas_width, data.len() as int, images),
        forall|a: int, b: int| 0 <= a < b < items.len() ==> items[a] == items[b] || #[trigger] items_apart(
            items[a],
            items[b],
            images,
        ),
        0 <= j < items.len(),
        0 <= r < images[items[j].id as int].height,
        0 <= c < images[items[j].id as int].width,
    ensures
        draw_items(data, items, atlas_width, images)[(items[j].y + r) * atlas_width + items[j].x + c]
            == images[items[j].id as int].data@[r * images[items[j].id as int].width + c],
    decreases items.len(),
{
    let w = atlas_width as int;
    let it = items[j];
    let img = images[it.id as int];
    let rest = items.drop_last();
    let last = items.last();
    let n = items.len() - 1;
    assert(last == items[n]);
    assert(items_fit(rest, atlas_width, data.len() as int, images)) by {
        assert forall|i: int| 0 <= i < rest.len() implies #[trigger] item_fits(rest[i], atlas_width, data.len() as int, images) by {
            assert(rest[i] == items[i]);
            assert(item_fits(items[i], atlas_width, data.len() as int, images));
        }
    }
    assert(item_fits(items[n], atlas_width, data.len() as int, images));
    assert(item_fits(items[j], atlas_width, data.len() as int, images));
    lemma_draw_items_len(data, rest, atlas_width, images);
    let before = draw_items(data, rest, atlas_width, images);
    lemma_draw_item_fits(before, last, atlas_width, images);
    let pix = (it.y + r) * w + it.x + c;
    assert((it.y + r) * w + it.x + c == it.y * w + it.x + r * w + c) by (nonlinear_arith);
    if j == n || last == it {
        lemma_write_rows_inside(before, item_offset(last, atlas_width), w, img.data@, 0, img.width as int, img.height as nat, r, c);
        assert(0 + r * img.width + c == r * img.width + c);
    } else {
        assert forall|a: int, b: int| 0 <= a < b < rest.len() implies rest[a] == rest[b] || #[trigger] items_apart(
            rest[a],
            rest[b],
            images,
        ) by {
            assert(rest[a] == items[a] && rest[b] == items[b]);
        }
        assert(rest[j] == it);
        lemma_glyph_pixels(data, rest, atlas_width, images, j, r, c);
        let li = images[last.id as int];
        assert(items_apart(it, last, images));
        assert forall|rr: int| 0 <= rr < li.height implies !#[trigger] in_row(pix, item_offset(last, atlas_width), w, li.width as int, rr) by {
            if in_row(pix, item_offset(last, atlas_width), w, li.width as int, rr) {
                let cc = pix - (last.y * w + last.x + rr * w);
                assert(pix == (last.y + rr) * w + (last.x + cc)) by (nonlinear_arith)
                    requires cc == pix - (last.y * w + last.x + rr * w);
                lemma_row_col_unique(it.y + r, it.x + c, last.y + rr, last.x + cc, w);
            }
        }
        assert(0 <= pix < before.len()) by {
            let yr = it.y + r;
            let yh = it.y + img.height;
            let xc = it.x + c;
            assert(pix <= yh * w - 1) by (nonlinear_arith)
                requires pix == yr * w + xc, yr + 1 <= yh, xc < w, w >= 0;
            assert((it.y + r) * w >= 0) by (nonlinear_arith) requires it.y + r >= 0, w >= 0;
        }
        lemma_write_rows_outside(before, item_offset(last, atlas_width), w, li.data@, 0, li.width as int, li.height as nat, pix);
    }
}

/// Law: drawing the items of an atlas in any order in which its item map
/// may hand them out, when no two items' glyph images overlap, shows every
/// item's glyph image unchanged at the item.
pub proof fn lemma_atlas_glyph_pixels(
    atlas: &Atlas,
    items: Seq<AtlasItem>,
    images: Seq<GlyphImage>,
    data: Seq<u8>,
    k: usize,
    r: int,
    c: int,
)
    requires
        items.to_set() == atlas.items@.values(),
        forall|k1: usize| #[trigger] atlas.items@.contains_key(k1) ==> item_fits(
            atlas.items@[k1],
            atlas.width,
            data.len() as int,
            images,
        ),
        forall|k1: usize, k2: usize|
            #[trigger] atlas.items@.contains_key(k1) && #[trigger] atlas.items@.contains_key(k2) && k1 != k2
                ==> items_apart(atlas.items@[k1], atlas.items@[k2], images),
        atlas.items@.contains_key(k),
        0 <= r < images[atlas.items@[k].id as int].height,
        0 <= c < images[atlas.items@[k].id as int].width,
    ensures
        draw_items(data, items, atlas.width, images)[(atlas.items@[k].y + r) * atlas.width + atlas.items@[k].x + c]
            == images[atlas.items@[k].id as int].data@[r * images[atlas.items@[k].id as int].width + c],
{
    let m = atlas.items@;
    assert forall|i: int| 0 <= i < items.len() implies exists|kk: usize| #[trigger] m.contains_key(kk) && m[kk] == #[trigger] items[i] by {
        assert(items.to_set().contains(items[i]));
        assert(m.values().contains(items[i]));
    }
    assert(items_fit(items, atlas.width, data.len() as int, images)) by {
        assert forall|i: int| 0 <= i < items.len() implies #[trigger] item_fits(items[i], atlas.width, data.len() as int, images) by {
            let kk = choose|kk: usize| #[trigger] m.contains_key(kk) && m[kk] == items[i];
        }
    }
    assert forall|a: int, b: int| 0 <= a < b < items.len() implies items[a] == items[b] || #[trigger] items_apart(
        items[a],
        items[b],
        images,
    ) by {
        let ka = choose|kk: usize| #[trigger] m.contains_key(kk) && m[kk] == items[a];
        let kb = choose|kk: usize| #[trigger] m.contains_key(kk) && m[kk] == items[b];
        if ka != kb {
            assert(items_apart(m[ka], m[kb], images));
        }
    }
    assert(m.values().contains(m[k]));
    assert(items.to_set().contains(m[k]));
    let j = choose|j: int| 0 <= j < items.len() && items[j] == m[k];
    lemma_glyph_pixels(data, items, atlas.width, images, j, r, c);
}

/// Index `i` of a `atlas_width`-wide texture lies within the glyph image of
/// the item.
pub open spec fn in_glyph(it: AtlasItem, images: Seq<GlyphImage>, atlas_width: u32, i: int) -> bool {
    let img = images[it.id as int];
    exists|r: int, c: int|
        0 <= r < img.height && 0 <= c < img.width && i == #[trigger] ((it.y + r) * atlas_width + it.x + c)
}

/// Law: drawing the glyphs leaves every byte outside all of the items'
/// glyph images as it was.
pub proof fn lemma_untouched_bytes(data: Seq<u8>, items: Seq<AtlasItem>, atlas_width: u32, images: Seq<GlyphImage>, i: int)
    requires
        items_fit(items, atlas_width, data.len() as int, images),
        0 <= i < data.len(),
        forall|j: int| 0 <= j < items.len() ==> !in_glyph(#[trigger] items[j], images, atlas_width, i),
    ensures
        draw_items(data, items, atlas_width, images)[i] == data[i],
    decreases items.len(),
{
    if items.len() > 0 {
        let w = atlas_width as int;
        let rest = items.drop_last();
        let n = items.len() - 1;
        let last = items.last();
        assert(last == items[n]);
        assert(items_fit(rest, atlas_width, data.len() as int, images)) by {
            assert forall|k: int| 0 <= k < rest.len() implies #[trigger] item_fits(rest[k], atlas_width, data.len() as int, images) by {
                assert(rest[k] == items[k]);
                assert(item_fits(items[k], atlas_width, data.len() as int, images));
            }
        }
        assert forall|j: int| 0 <= j < rest.len() implies !in_glyph(#[trigger] rest[j], images, atlas_width, i) by {
            assert(rest[j] == items[j]);
        }
        lemma_untouched_bytes(data, rest, atlas_width, images, i);
        lemma_draw_items_len(data, rest, atlas_width, images);
        let before = draw_items(data, rest, atlas_width, images);
        assert(item_fits(items[n], atlas_width, data.len() as int, images));
        lemma_draw_item_fits(before, last, atlas_width, images);
        let li = images[last.id as int];
        assert(!in_glyph(items[n], images, atlas_width, i));
        assert forall|rr: int| 0 <= rr < li.height implies !#[trigger] in_row(i, item_offset(last, atlas_width), w, li.width as int, rr) by {
            if in_row(i, item_offset(last, atlas_width), w, li.width as int, rr) {
                let cc = i - (last.y * w + last.x + rr * w);
                assert(i == (last.y + rr) * w + last.x + cc) by (nonlinear_arith)
                    requires cc == i - (last.y * w + last.x + rr * w);
                assert(in_glyph(last, images, atlas_width, i));
            }
        }
        lemma_write_rows_outside(before, item_offset(last, atlas_width), w, li.data@, 0, li.width as int, li.height as nat, i);
    }
}

} // verus!
