//! The rectangle packer of the `binpack2d` crate, seen through plain values.
use binpack2d::{bin_new, BinType, Dimension};
use vstd::prelude::*;

verus! {

/// A rectangle placed by the packer: `(id, x, y, width, height)`, where
/// `id` is the index of the requested size it was made from.
pub type PlacedRect = (usize, i32, i32, i32, i32);

/// What `insert_list` of a fresh MaxRects bin of the given size returns for
/// the given sizes (listed in order, the i-th carrying id `i`): the placed
/// rectangles, and the ids of the sizes it could not place.
pub uninterp spec fn max_rects_insert_list(
    bin_width: i32,
    bin_height: i32,
    sizes: Seq<(i32, i32)>,
) -> (Seq<PlacedRect>, Seq<usize>);

/// Some rectangle of `rects` carries id `id`.
pub open spec fn places_id(rects: Seq<PlacedRect>, id: usize) -> bool {
    exists|i: int| 0 <= i < rects.len() && rects[i].0 == id
}

/// A size clamped at zero, as `Dimension` stores it.
pub open spec fn clamp0(v: i32) -> i32 {
    if v < 0 { 0 } else { v }
}

/// Two placed rectangles share no point: one lies wholly left of, right
/// of, above or below the other.
pub open spec fn rects_apart(p: PlacedRect, q: PlacedRect) -> bool {
    ||| p.1 + p.3 <= q.1
    ||| q.1 + q.3 <= p.1
    ||| p.2 + p.4 <= q.2
    ||| q.2 + q.4 <= p.2
}

/// A bin side as `MaxRectsBin` stores it: at least 1.
pub open spec fn bin_side(v: i32) -> int {
    if v < 1 { 1 } else { v as int }
}

/// Packs `sizes` into one MaxRects bin of `bin_width` x `bin_height`.
///
/// Calls `binpack2d::bin_new(BinType::MaxRects, ..)` and then
/// `BinPacker::insert_list` with one `Dimension::with_id(i, w, h, 0)` per
/// size. The contract names the result, and states only what the crate's
/// source shows: every size ends up either placed (keeping its id and its
/// clamped width and height, inside the bin) or rejected, exactly once, and
/// placed rectangles of positive size do not overlap (the MaxRects bin only
/// places into free space). It says nothing else of where a rectangle goes.
#[verifier::external_body]
pub(crate) fn max_rects_pack(bin_width: i32, bin_height: i32, sizes: &[(i32, i32)]) -> (r: (
    Vec<PlacedRect>,
    Vec<usize>,
))
    ensures
        (r.0@, r.1@) == max_rects_insert_list(bin_width, bin_height, sizes@),
        r.0.len() + r.1.len() == sizes.len(),
        forall|i: int| 0 <= i < r.0.len() ==> {
            let p = #[trigger] r.0@[i];
            &&& p.0 < sizes.len()
            &&& p.3 == clamp0(sizes@[p.0 as int].0)
            &&& p.4 == clamp0(sizes@[p.0 as int].1)
            &&& 0 <= p.1 && p.1 + p.3 <= bin_side(bin_width)
            &&& 0 <= p.2 && p.2 + p.4 <= bin_side(bin_height)
        },
        forall|i: int| 0 <= i < r.1.len() ==> #[trigger] r.1@[i] < sizes.len(),
        forall|j: usize| j < sizes.len() ==> #[trigger] places_id(r.0@, j) || r.1@.contains(j),
        forall|i: int, k: int| 0 <= i < r.0.len() && 0 <= k < r.0.len() && i != k
            ==> #[trigger] r.0@[i].0 != #[trigger] r.0@[k].0,
        forall|i: int, k: int|
            0 <= i < r.0.len() && 0 <= k < r.0.len() && i != k && r.0@[i].3 > 0 && r.0@[i].4 > 0 && r.0@[k].3 > 0
                && r.0@[k].4 > 0 ==> rects_apart(#[trigger] r.0@[i], #[trigger] r.0@[k]),
{
    let nodes: Vec<Dimension> = sizes.iter().enumerate()
        .map(|(i, (w, h))| Dimension::with_id(i as isize, *w, *h, 0)).collect();
    let mut bin = bin_new(BinType::MaxRects, bin_width, bin_height);
    let (inserted, rejected) = bin.insert_list(&nodes);
    (
        inserted.iter().map(|p| (p.id() as usize, p.x(), p.y(), p.width(), p.height())).collect(),
        rejected.iter().map(|d| d.id() as usize).collect(),
    )
}

} // verus!
