use crate::atlas::{Atlas, AtlasItem};
use crate::binpack::{bin_side, clamp0, max_rects_insert_list, max_rects_pack, places_id, rects_apart, PlacedRect};
use std::collections::HashMap;
use vstd::prelude::*;

verus! {

broadcast use vstd::std_specs::hash::group_hash_axioms;

/// Sum of the areas of the requested sizes (negative sides count as 0).
pub open spec fn total_area(sizes: Seq<(i32, i32)>) -> int
    decreases sizes.len(),
{
    if sizes.len() == 0 {
        0
    } else {
        total_area(sizes.drop_last()) + clamp0(sizes.last().0) * clamp0(sizes.last().1)
    }
}

/// `d` is the floor of nine tenths of the square root of `area`.
pub open spec fn is_start_side(area: int, d: int) -> bool {
    &&& d >= 0
    &&& 100 * d * d <= 81 * area
    &&& 81 * area < 100 * (d + 1) * (d + 1)
}

/// The side of the first square bin tried: the floor of `0.9 * sqrt(area)`.
pub open spec fn start_side(area: int) -> int {
    choose|d: int| is_start_side(area, d)
}

/// How much a bin side grows in one step: a `divider`-th of it, at least 1.
pub open spec fn grow_by(v: int, divider: int) -> int {
    if v / divider > 1 { v / divider } else { 1 }
}

/// The bin size tried at step `k`: starting square, then widening and
/// heightening in turn.
pub open spec fn step_size(start: int, divider: int, k: nat) -> (int, int)
    decreases k,
{
    if k == 0 {
        (start, start)
    } else {
        let (w, h) = step_size(start, divider, (k - 1) as nat);
        if (k - 1) % 2 == 0 {
            (w + grow_by(w, divider), h)
        } else {
            (w, h + grow_by(h, divider))
        }
    }
}

/// The packer's answer at step `k`.
pub open spec fn step_pack(sizes: Seq<(i32, i32)>, start: int, divider: int, k: nat) -> (
    Seq<PlacedRect>,
    Seq<usize>,
) {
    let (w, h) = step_size(start, divider, k);
    max_rects_insert_list(w as i32, h as i32, sizes)
}

/// Every bin size up to step `k` fits in an `i32`.
pub open spec fn steps_in_bounds(start: int, divider: int, k: nat) -> bool {
    forall|j: nat| #![trigger step_size(start, divider, j)] j <= k ==> step_size(start, divider, j).0
        <= i32::MAX && step_size(start, divider, j).1 <= i32::MAX
}

/// At step `k` the packer places everything.
pub open spec fn step_fits(sizes: Seq<(i32, i32)>, start: int, divider: int, k: nat) -> bool {
    step_pack(sizes, start, divider, k).1.len() == 0
}

/// Step `k` is the first at which everything is placed, and no bin tried
/// so far has left the `i32` range.
pub open spec fn is_fit_step(sizes: Seq<(i32, i32)>, divider: int, k: nat) -> bool {
    let s = start_side(total_area(sizes));
    &&& steps_in_bounds(s, divider, k)
    &&& step_fits(sizes, s, divider, k)
    &&& forall|j: nat| j < k ==> !#[trigger] step_fits(sizes, s, divider, j)
}

/// Growing the bin places everything before a side leaves the `i32` range.
pub open spec fn packs_in_bounds(sizes: Seq<(i32, i32)>, divider: int) -> bool {
    let s = start_side(total_area(sizes));
    exists|k: nat| steps_in_bounds(s, divider, k) && #[trigger] step_fits(sizes, s, divider, k)
}

/// The step at which packing succeeds.
pub open spec fn fit_step(sizes: Seq<(i32, i32)>, divider: int) -> nat {
    choose|k: nat| is_fit_step(sizes, divider, k)
}

/// The rectangles placed at the successful step.
pub open spec fn fit_rects(sizes: Seq<(i32, i32)>, divider: int) -> Seq<PlacedRect> {
    step_pack(sizes, start_side(total_area(sizes)), divider, fit_step(sizes, divider)).0
}

/// The bin size of the successful step.
pub open spec fn fit_size(sizes: Seq<(i32, i32)>, divider: int) -> (int, int) {
    step_size(start_side(total_area(sizes)), divider, fit_step(sizes, divider))
}

/// The right-most edge of the rectangles (0 for none).
pub open spec fn right_extent(rects: Seq<PlacedRect>) -> int
    decreases rects.len(),
{
    if rects.len() == 0 {
        0
    } else {
        let e = rects.last().1 + rects.last().3;
        let r = right_extent(rects.drop_last());
        if e > r { e } else { r }
    }
}

/// The lowest edge of the rectangles (0 for none).
pub open spec fn bottom_extent(rects: Seq<PlacedRect>) -> int
    decreases rects.len(),
{
    if rects.len() == 0 {
        0
    } else {
        let e = rects.last().2 + rects.last().4;
        let r = bottom_extent(rects.drop_last());
        if e > r { e } else { r }
    }
}

/// Where in `rects` the rectangle with id `id` is.
pub open spec fn rect_index(rects: Seq<PlacedRect>, id: usize) -> int {
    choose|i: int| 0 <= i < rects.len() && rects[i].0 == id
}

/// The atlas item made from the rectangle with id `id`.
pub open spec fn packed_item(sizes: Seq<(i32, i32)>, rects: Seq<PlacedRect>, id: usize) -> AtlasItem {
    let p = rects[rect_index(rects, id)];
    AtlasItem {
        id,
        x: p.1 as u32,
        y: p.2 as u32,
        width: p.3 as u32,
        height: p.4 as u32,
        origin_width: clamp0(sizes[id as int].0) as u32,
        origin_height: clamp0(sizes[id as int].1) as u32,
    }
}

/// Width of the packed atlas: the right-most edge, or the bin width when
/// nothing was placed.
pub open spec fn packed_width(sizes: Seq<(i32, i32)>, divider: int) -> int {
    if fit_rects(sizes, divider).len() == 0 {
        fit_size(sizes, divider).0
    } else {
        right_extent(fit_rects(sizes, divider))
    }
}

/// Height of the packed atlas: the lowest edge, or the bin height when
/// nothing was placed.
pub open spec fn packed_height(sizes: Seq<(i32, i32)>, divider: int) -> int {
    if fit_rects(sizes, divider).len() == 0 {
        fit_size(sizes, divider).1
    } else {
        bottom_extent(fit_rects(sizes, divider))
    }
}

/// The power of two reached from `p` by doubling until it is at least `n`.
pub open spec fn pot_from(n: int, p: int) -> int
    decreases (if n > p { n - p } else { 0 }),
    when p > 0
{
    if n <= p {
        p
    } else {
        pot_from(n, 2 * p)
    }
}

/// The smallest power of two, at least 2, that is not below `n`.
pub open spec fn pot(n: int) -> int {
    pot_from(n, 2)
}

/// `p` is a power of two.
pub open spec fn is_pow2(p: int) -> bool
    decreases p,
{
    if p <= 0 {
        false
    } else if p == 1 {
        true
    } else {
        p % 2 == 0 && is_pow2(p / 2)
    }
}

proof fn lemma_pot_from(n: int, p: int)
    requires
        p >= 2,
        is_pow2(p),
    ensures
        is_pow2(pot_from(n, p)),
        pot_from(n, p) >= n,
        pot_from(n, p) >= p,
        pot_from(n, p) == p || pot_from(n, p) / 2 < n,
        pot_from(n, p) % 2 == 0,
    decreases (if n > p { n - p } else { 0 }),
{
    if n > p {
        assert((2 * p) / 2 == p);
        lemma_pot_from(n, 2 * p);
    }
}

/// Law: `pot(n)` is the least power of two that is at least `n` and at
/// least 2.
pub proof fn lemma_pot_least(n: int)
    ensures
        is_pow2(pot(n)),
        pot(n) >= n,
        pot(n) >= 2,
        pot(n) == 2 || pot(n) / 2 < n,
{
    assert(is_pow2(2)) by {
        assert(is_pow2(1));
    }
    lemma_pot_from(n, 2);
}

/// Law: rounding a power of two up to a power of two changes nothing.
pub proof fn lemma_pot_idempotent(n: int)
    ensures
        pot(pot(n)) == pot(n),
{
    lemma_pot_least(n);
    lemma_pot_least(pot(n));
    let q = pot(n);
    if pot(q) != q {
        // pot(q) is a power of two in (q, 2q), which has none.
        lemma_pow2_between(q, pot(q));
    }
}

proof fn lemma_pow2_between(q: int, r: int)
    requires
        is_pow2(q),
        is_pow2(r),
        q >= 2,
        r > q,
    ensures
        r >= 2 * q,
    decreases q,
{
    assert(r % 2 == 0 && is_pow2(r / 2));
    if q == 2 {
        if r / 2 == 1 {
            assert(r == 2);
        }
    } else {
        assert(q % 2 == 0 && is_pow2(q / 2));
        lemma_pow2_between(q / 2, r / 2);
    }
}

/// Rounds the atlas size up to powers of two (at least 2 on each side),
/// keeping its items where they are.
pub fn pot_atlas(atlas: Atlas) -> (r: Atlas)
    requires
        atlas.width <= 0x4000_0000,
        atlas.height <= 0x4000_0000,
    ensures
        r.width == pot(atlas.width as int),
        r.height == pot(atlas.height as int),
        r.items@ == atlas.items@,
{
    let mut p: u32 = 2;
    let mut pot_width: Option<u32> = None;
    let mut pot_height: Option<u32> = None;
    while pot_width.is_none() || pot_height.is_none()
        invariant
            2 <= p,
            pot_width.is_none() ==> pot_from(atlas.width as int, p as int) == pot(atlas.width as int),
            pot_height.is_none() ==> pot_from(atlas.height as int, p as int) == pot(atlas.height as int),
            pot_width.is_none() ==> p < 2 * atlas.width || p == 2,
            pot_height.is_none() ==> p < 2 * atlas.height || p == 2,
            pot_width matches Some(w) ==> w == pot(atlas.width as int),
            pot_height matches Some(h) ==> h == pot(atlas.height as int),
            atlas.width <= 0x4000_0000,
            atlas.height <= 0x4000_0000,
        decreases 0x1_0000_0000 - p,
    {
        if atlas.width <= p && pot_width.is_none() {
            pot_width = Some(p);
        }
        if atlas.height <= p && pot_height.is_none() {
            pot_height = Some(p);
        }
        p = p * 2;
    }
    let w = match pot_width { Some(w) => w, None => p };
    let h = match pot_height { Some(h) => h, None => p };
    Atlas { width: w, height: h, items: atlas.items }
}

proof fn lemma_total_area_prefix(sizes: Seq<(i32, i32)>, i: int)
    requires
        0 <= i <= sizes.len(),
    ensures
        0 <= total_area(sizes.take(i)) <= total_area(sizes),
    decreases sizes.len(),
{
    if sizes.len() > 0 {
        if i == sizes.len() {
            assert(sizes.take(i) =~= sizes);
            lemma_total_area_prefix(sizes.drop_last(), i - 1);
            assert(sizes.drop_last().take(i - 1) =~= sizes.take(i).drop_last());
        } else {
            lemma_total_area_prefix(sizes.drop_last(), i);
            assert(sizes.drop_last().take(i) =~= sizes.take(i));
        }
        let a = clamp0(sizes.last().0) * clamp0(sizes.last().1);
        assert(a >= 0) by (nonlinear_arith)
            requires a == clamp0(sizes.last().0) * clamp0(sizes.last().1), clamp0(sizes.last().0) >= 0,
                clamp0(sizes.last().1) >= 0;
    }
}

/// The total area of the sizes, or `None` when it exceeds the `u32` range.
pub(crate) fn checked_total_area(sizes: &[(i32, i32)]) -> (r: Option<u32>)
    ensures
        r is Some <==> total_area(sizes@) <= u32::MAX,
        r matches Some(a) ==> a == total_area(sizes@),
{
    let mut acc: u64 = 0;
    let mut i: usize = 0;
    while i < sizes.len()
        invariant
            i <= sizes.len(),
            acc == total_area(sizes@.take(i as int)),
            acc <= u32::MAX,
        decreases sizes.len() - i,
    {
        let (w, h) = sizes[i];
        let cw: u64 = if w < 0 { 0 } else { w as u64 };
        let ch: u64 = if h < 0 { 0 } else { h as u64 };
        proof {
            assert(sizes@.take(i + 1).drop_last() =~= sizes@.take(i as int));
            assert(cw * ch <= 0x4000_0000_0000_0000) by (nonlinear_arith)
                requires cw <= 0x8000_0000, ch <= 0x8000_0000;
        }
        let a = cw * ch;
        if acc + a > 0xffff_ffff {
            proof {
                lemma_total_area_prefix(sizes@, i + 1);
            }
            return None;
        }
        acc = acc + a;
        i = i + 1;
    }
    assert(sizes@.take(i as int) =~= sizes@);
    Some(acc as u32)
}

fn area_of_sizes(sizes: &[(i32, i32)]) -> (r: u32)
    requires
        total_area(sizes@) <= u32::MAX,
    ensures
        r == total_area(sizes@),
{
    let mut acc: u32 = 0;
    let mut i: usize = 0;
    while i < sizes.len()
        invariant
            i <= sizes.len(),
            acc == total_area(sizes@.take(i as int)),
            total_area(sizes@) <= u32::MAX,
        decreases sizes.len() - i,
    {
        let (w, h) = sizes[i];
        let cw: u32 = if w < 0 { 0 } else { w as u32 };
        let ch: u32 = if h < 0 { 0 } else { h as u32 };
        proof {
            assert(sizes@.take(i + 1).drop_last() =~= sizes@.take(i as int));
            lemma_total_area_prefix(sizes@, i + 1);
            assert(cw * ch >= 0) by (nonlinear_arith)
                requires cw >= 0, ch >= 0;
        }
        let a = cw * ch;
        acc = acc + a;
        i = i + 1;
    }
    assert(sizes@.take(i as int) =~= sizes@);
    acc
}

proof fn lemma_start_side_unique(area: int, d1: int, d2: int)
    requires
        is_start_side(area, d1),
        is_start_side(area, d2),
    ensures
        d1 == d2,
{
    if d1 < d2 {
        assert(100 * (d1 + 1) * (d1 + 1) <= 100 * d2 * d2) by (nonlinear_arith)
            requires d1 + 1 <= d2, d1 >= 0;
    } else if d2 < d1 {
        assert(100 * (d2 + 1) * (d2 + 1) <= 100 * d1 * d1) by (nonlinear_arith)
            requires d2 + 1 <= d1, d2 >= 0;
    }
}

/// The floor of `0.9 * sqrt(area)`, computed exactly: the largest `d` with
/// `100 d^2 <= 81 area`.
fn start_side_of(area: u32) -> (d: u32)
    ensures
        d == start_side(area as int),
{
    let target: u64 = 81 * (area as u64);
    let mut d: u64 = 0;
    loop
        invariant
            target == 81 * area,
            d <= 58982,
            100 * d * d <= target,
        ensures
            100 * d * d <= target,
            target < 100 * (d + 1) * (d + 1),
        decreases 58982 - d,
    {
        let n = d + 1;
        assert(100 * n * n <= 0x1_0000_0000_0000) by (nonlinear_arith)
            requires n <= 58983, n >= 0;
        if 100 * n * n > target {
            break;
        }
        assert(n <= 58982) by (nonlinear_arith)
            requires 100 * n * n <= target, target == 81 * area, area <= u32::MAX, n >= 0;
        d = n;
    }
    proof {
        assert(is_start_side(area as int, d as int));
        lemma_start_side_unique(area as int, d as int, start_side(area as int));
    }
    d as u32
}

/// Grows the bin from a `start` square until the packer places every size,
/// or a side would leave the `i32` range (then `None`).
fn grow_until_packed(sizes: &[(i32, i32)], start: u32, divider: u32) -> (r: Option<
    (Vec<PlacedRect>, u32, u32, Ghost<nat>),
>)
    requires
        divider > 0,
    ensures
        match r {
            Some((rects, w, h, k)) => {
                &&& steps_in_bounds(start as int, divider as int, k@)
                &&& step_fits(sizes@, start as int, divider as int, k@)
                &&& forall|j: nat| j < k@ ==> !#[trigger] step_fits(sizes@, start as int, divider as int, j)
                &&& (w as int, h as int) == step_size(start as int, divider as int, k@)
                &&& rects@ == step_pack(sizes@, start as int, divider as int, k@).0
                &&& rects.len() == sizes.len()
                &&& forall|i: int| 0 <= i < rects.len() ==> {
                    let p = #[trigger] rects@[i];
                    &&& p.0 < sizes.len()
                    &&& p.3 == clamp0(sizes@[p.0 as int].0)
                    &&& p.4 == clamp0(sizes@[p.0 as int].1)
                    &&& 0 <= p.1 && p.1 + p.3 <= bin_side(w as i32)
                    &&& 0 <= p.2 && p.2 + p.4 <= bin_side(h as i32)
                }
                &&& forall|j: usize| j < sizes.len() ==> #[trigger] places_id(rects@, j)
                &&& forall|i: int, m: int| 0 <= i < rects.len() && 0 <= m < rects.len() && i != m
                    ==> #[trigger] rects@[i].0 != #[trigger] rects@[m].0
                &&& forall|i: int, m: int|
                    0 <= i < rects.len() && 0 <= m < rects.len() && i != m && rects@[i].3 > 0 && rects@[i].4 > 0
                        && rects@[m].3 > 0 && rects@[m].4 > 0 ==> rects_apart(#[trigger] rects@[i], #[trigger] rects@[m])
                &&& w <= i32::MAX && h <= i32::MAX
                &&& sizes.len() == 0 ==> k@ == 0
            },
            None => !exists|k: nat| steps_in_bounds(start as int, divider as int, k)
                && #[trigger] step_fits(sizes@, start as int, divider as int, k),
        },
{
    let mut w: u32 = start;
    let mut h: u32 = start;
    let mut horizontal = true;
    let ghost mut k: nat = 0;
    loop
        invariant
            divider > 0,
            (w as int, h as int) == step_size(start as int, divider as int, k),
            horizontal == (k % 2 == 0),
            k == 0 || steps_in_bounds(start as int, divider as int, (k - 1) as nat),
            forall|j: nat| j < k ==> !#[trigger] step_fits(sizes@, start as int, divider as int, j),
            sizes.len() == 0 ==> k == 0,
        decreases 0x2_0000_0000 - w - h,
    {
        if w > 0x7fff_ffff || h > 0x7fff_ffff {
            proof {
                assert forall|k2: nat| steps_in_bounds(start as int, divider as int, k2)
                    implies !#[trigger] step_fits(sizes@, start as int, divider as int, k2) by {
                    if k2 >= k {
                        assert(step_size(start as int, divider as int, k).0 <= i32::MAX);
                    }
                }
            }
            return None;
        }
        proof {
            assert forall|j: nat| #![trigger step_size(start as int, divider as int, j)] j <= k implies
                step_size(start as int, divider as int, j).0 <= i32::MAX
                && step_size(start as int, divider as int, j).1 <= i32::MAX by {
                if j < k {
                    assert(steps_in_bounds(start as int, divider as int, (k - 1) as nat));
                }
            }
        }
        let (rects, rejected) = max_rects_pack(w as i32, h as i32, sizes);
        if rejected.len() == 0 {
            proof {
                assert forall|j: usize| j < sizes.len() implies #[trigger] places_id(rects@, j) by {
                    assert(!rejected@.contains(j));
                }
            }
            return Some((rects, w, h, Ghost(k)));
        }
        let ghost old_w = w;
        let ghost old_h = h;
        if horizontal {
            let q = w / divider;
            let step = if q > 1 { q } else { 1 };
            w = w + step;
        } else {
            let q = h / divider;
            let step = if q > 1 { q } else { 1 };
            h = h + step;
        }
        horizontal = !horizontal;
        proof {
            k = k + 1;
            assert(step_size(start as int, divider as int, k) == if (k - 1) % 2 == 0 {
                (old_w + grow_by(old_w as int, divider as int), old_h as int)
            } else {
                (old_w as int, old_h + grow_by(old_h as int, divider as int))
            });
        }
    }
}

/// The atlas `a` is what packing `sizes` with `divider` gives: every size
/// becomes the item whose id is its index, placed where the packer put it,
/// and the atlas is as wide and as high as the placed items reach.
pub open spec fn is_packed_atlas(a: Atlas, sizes: Seq<(i32, i32)>, divider: int) -> bool {
    &&& a.width == packed_width(sizes, divider)
    &&& a.height == packed_height(sizes, divider)
    &&& a.wf()
    &&& forall|k: usize| #[trigger] a.items@.contains_key(k) <==> k < sizes.len()
    &&& forall|k: usize| k < sizes.len() ==> #[trigger] a.items@[k] == packed_item(
        sizes,
        fit_rects(sizes, divider),
        k,
    )
}

/// Law: packing is a function of the sizes and the step divider: any two
/// atlases that packing can give for them are the same atlas.
pub proof fn lemma_packed_atlas_unique(a: Atlas, b: Atlas, sizes: Seq<(i32, i32)>, divider: int)
    requires
        is_packed_atlas(a, sizes, divider),
        is_packed_atlas(b, sizes, divider),
    ensures
        a.width == b.width,
        a.height == b.height,
        a.items@ == b.items@,
{
    assert(a.items@ =~= b.items@) by {
        assert forall|k: usize| a.items@.contains_key(k) implies a.items@[k] == b.items@[k] by {
            assert(k < sizes.len());
        }
    }
}

/// Every item lies inside the atlas at the size requested for it (a
/// negative side counting as 0), unscaled.
pub open spec fn items_inside_unscaled(a: Atlas, sizes: Seq<(i32, i32)>) -> bool {
    forall|k: usize| #[trigger] a.items@.contains_key(k) ==> {
        &&& a.items@[k].x + a.items@[k].width <= a.width
        &&& a.items@[k].y + a.items@[k].height <= a.height
        &&& a.items@[k].width == a.items@[k].origin_width
        &&& a.items@[k].height == a.items@[k].origin_height
        &&& a.items@[k].origin_width == clamp0(sizes[k as int].0)
        &&& a.items@[k].origin_height == clamp0(sizes[k as int].1)
    }
}

/// The two items share no point.
pub open spec fn items_apart_plain(p: AtlasItem, q: AtlasItem) -> bool {
    ||| p.x + p.width <= q.x
    ||| q.x + q.width <= p.x
    ||| p.y + p.height <= q.y
    ||| q.y + q.height <= p.y
}

/// No two items of positive size overlap.
pub open spec fn items_disjoint(a: Atlas) -> bool {
    forall|k1: usize, k2: usize|
        #[trigger] a.items@.contains_key(k1) && #[trigger] a.items@.contains_key(k2) && k1 != k2
            && a.items@[k1].width > 0 && a.items@[k1].height > 0 && a.items@[k2].width > 0 && a.items@[k2].height > 0
            ==> items_apart_plain(a.items@[k1], a.items@[k2])
}

/// The item under key `k` reaches `w` to the right.
pub open spec fn reaches_right(m: Map<usize, AtlasItem>, k: usize, w: int) -> bool {
    m[k].x + m[k].width == w
}

/// The item under key `k` reaches `h` down.
pub open spec fn reaches_bottom(m: Map<usize, AtlasItem>, k: usize, h: int) -> bool {
    m[k].y + m[k].height == h
}

/// The items reach exactly `w` to the right and `h` down: none goes beyond,
/// some item reaches each edge, and with no items both are 0.
pub open spec fn spans_items(m: Map<usize, AtlasItem>, w: int, h: int) -> bool {
    &&& forall|k: usize| #[trigger] m.contains_key(k) ==> m[k].x + m[k].width <= w && m[k].y + m[k].height <= h
    &&& (exists|k: usize| #[trigger] m.contains_key(k)) ==> {
        &&& exists|k: usize| m.contains_key(k) && #[trigger] reaches_right(m, k, w)
        &&& exists|k: usize| m.contains_key(k) && #[trigger] reaches_bottom(m, k, h)
    }
    &&& (forall|k: usize| !#[trigger] m.contains_key(k)) ==> w == 0 && h == 0
}

proof fn lemma_extent_attained(rects: Seq<PlacedRect>)
    requires
        rects.len() > 0,
        forall|m: int| 0 <= m < rects.len() ==> 0 <= #[trigger] rects[m].1 && 0 <= rects[m].3
            && 0 <= rects[m].2 && 0 <= rects[m].4,
    ensures
        exists|i: int| 0 <= i < rects.len() && rects[i].1 + rects[i].3 == right_extent(rects),
        exists|i: int| 0 <= i < rects.len() && rects[i].2 + rects[i].4 == bottom_extent(rects),
    decreases rects.len(),
{
    let n = rects.len() - 1;
    let rest = rects.drop_last();
    assert(rects[n] == rects.last());
    assert(0 <= rects[n].1);
    if rects.len() == 1 {
        assert(rest.len() == 0);
        assert(right_extent(rest) == 0 && bottom_extent(rest) == 0);
        assert(0 <= rects[n].3 && 0 <= rects[n].2 && 0 <= rects[n].4);
        assert(rects[n].1 + rects[n].3 == right_extent(rects));
        assert(rects[n].2 + rects[n].4 == bottom_extent(rects));
    } else {
        assert forall|m: int| 0 <= m < rest.len() implies 0 <= #[trigger] rest[m].1 && 0 <= rest[m].3
            && 0 <= rest[m].2 && 0 <= rest[m].4 by {
            assert(rest[m] == rects[m]);
        }
        lemma_extent_attained(rest);
        let i = choose|i: int| 0 <= i < rest.len() && rest[i].1 + rest[i].3 == right_extent(rest);
        let j = choose|i: int| 0 <= i < rest.len() && rest[i].2 + rest[i].4 == bottom_extent(rest);
        assert(rects[i] == rest[i]);
        assert(rects[j] == rest[j]);
        if rects[n].1 + rects[n].3 > right_extent(rest) {
            assert(rects[n].1 + rects[n].3 == right_extent(rects));
        } else {
            assert(rects[i].1 + rects[i].3 == right_extent(rects));
        }
        if rects[n].2 + rects[n].4 > bottom_extent(rest) {
            assert(rects[n].2 + rects[n].4 == bottom_extent(rects));
        } else {
            assert(rects[j].2 + rects[j].4 == bottom_extent(rects));
        }
    }
}

proof fn lemma_extent_bounds(rects: Seq<PlacedRect>, i: int)
    requires
        0 <= i < rects.len(),
        forall|m: int| 0 <= m < rects.len() ==> 0 <= #[trigger] rects[m].1 && 0 <= rects[m].3
            && 0 <= rects[m].2 && 0 <= rects[m].4,
    ensures
        rects[i].1 + rects[i].3 <= right_extent(rects),
        rects[i].2 + rects[i].4 <= bottom_extent(rects),
    decreases rects.len(),
{
    if i < rects.len() - 1 {
        lemma_extent_bounds(rects.drop_last(), i);
    }
}

/// Turns the placed rectangles into an atlas keyed by size index.
fn atlas_from_rects(sizes: &[(i32, i32)], rects: Vec<PlacedRect>, w: u32, h: u32) -> (r: Atlas)
    requires
        w <= i32::MAX,
        h <= i32::MAX,
        rects.len() == sizes.len(),
        forall|i: int| 0 <= i < rects.len() ==> {
            let p = #[trigger] rects@[i];
            &&& p.0 < sizes.len()
            &&& p.3 == clamp0(sizes@[p.0 as int].0)
            &&& p.4 == clamp0(sizes@[p.0 as int].1)
            &&& 0 <= p.1 && p.1 + p.3 <= bin_side(w as i32)
            &&& 0 <= p.2 && p.2 + p.4 <= bin_side(h as i32)
        },
        forall|j: usize| j < sizes.len() ==> #[trigger] places_id(rects@, j),
        forall|i: int, m: int| 0 <= i < rects.len() && 0 <= m < rects.len() && i != m
            ==> #[trigger] rects@[i].0 != #[trigger] rects@[m].0,
        forall|i: int, m: int|
            0 <= i < rects.len() && 0 <= m < rects.len() && i != m && rects@[i].3 > 0 && rects@[i].4 > 0
                && rects@[m].3 > 0 && rects@[m].4 > 0 ==> rects_apart(#[trigger] rects@[i], #[trigger] rects@[m]),
    ensures
        items_disjoint(r),
        rects.len() > 0 ==> spans_items(r.items@, r.width as int, r.height as int),
        r.width == (if rects.len() == 0 { w as int } else { right_extent(rects@) }),
        r.height == (if rects.len() == 0 { h as int } else { bottom_extent(rects@) }),
        r.wf(),
        forall|k: usize| #[trigger] r.items@.contains_key(k) <==> k < sizes.len(),
        forall|k: usize| k < sizes.len() ==> #[trigger] r.items@[k] == packed_item(sizes@, rects@, k),
        items_inside_unscaled(r, sizes@),
{
    let n = rects.len();
    // smallest id
    let mut min_id: usize = 0;
    let mut i: usize = 0;
    while i < n
        invariant
            n == rects.len(),
            i <= n,
            i > 0 ==> exists|m: int| 0 <= m < i && rects@[m].0 == min_id,
            forall|m: int| 0 <= m < i ==> min_id <= #[trigger] rects@[m].0,
        decreases n - i,
    {
        if i == 0 || rects[i].0 < min_id {
            min_id = rects[i].0;
        }
        i = i + 1;
    }
    proof {
        if n > 0 {
            assert(places_id(rects@, 0));
            let m0 = choose|m: int| 0 <= m < rects.len() && rects@[m].0 == 0usize;
            assert(min_id <= rects@[m0].0);
        }
    }
    assert(min_id == 0 || n == 0);
    // extents
    let mut atlas_width: u32 = w;
    let mut atlas_height: u32 = h;
    if n > 0 {
        let mut right: u32 = 0;
        let mut bottom: u32 = 0;
        let mut i: usize = 0;
        while i < n
            invariant
                n == rects.len(),
                i <= n,
                w <= i32::MAX,
                h <= i32::MAX,
                forall|m: int| 0 <= m < rects.len() ==> {
                    let p = #[trigger] rects@[m];
                    &&& 0 <= p.1 && 0 <= p.3 && p.1 + p.3 <= bin_side(w as i32)
                    &&& 0 <= p.2 && 0 <= p.4 && p.2 + p.4 <= bin_side(h as i32)
                },
                right == right_extent(rects@.take(i as int)),
                bottom == bottom_extent(rects@.take(i as int)),
            decreases n - i,
        {
            let p = rects[i];
            proof {
                assert(rects@.take(i + 1).drop_last() =~= rects@.take(i as int));
                assert(rects@.take(i + 1).last() == p);
            }
            let e: u32 = (p.1 + p.3) as u32;
            if e > right {
                right = e;
            }
            let e: u32 = (p.2 + p.4) as u32;
            if e > bottom {
                bottom = e;
            }
            i = i + 1;
        }
        assert(rects@.take(n as int) =~= rects@);
        atlas_width = right;
        atlas_height = bottom;
    }
    // items
    let mut items: HashMap<usize, AtlasItem> = HashMap::new();
    let mut i: usize = 0;
    while i < n
        invariant
            n == rects.len(),
            n == sizes.len(),
            i <= n,
            min_id == 0 || n == 0,
            forall|m: int| 0 <= m < rects.len() ==> {
                let p = #[trigger] rects@[m];
                &&& p.0 < sizes.len()
                &&& p.3 == clamp0(sizes@[p.0 as int].0)
                &&& p.4 == clamp0(sizes@[p.0 as int].1)
                &&& 0 <= p.1 && 0 <= p.2
            },
            forall|a: int, b: int| 0 <= a < rects.len() && 0 <= b < rects.len() && a != b
                ==> #[trigger] rects@[a].0 != #[trigger] rects@[b].0,
            forall|k: usize| #[trigger] items@.contains_key(k) <==> exists|m: int|
                0 <= m < i && rects@[m].0 == k,
            forall|m: int| 0 <= m < i ==> #[trigger] items@[rects@[m].0] == packed_item(
                sizes@,
                rects@,
                rects@[m].0,
            ),
        decreases n - i,
    {
        let p = rects[i];
        let id = p.0 - min_id;
        let (ow, oh) = sizes[id];
        let item = AtlasItem {
            id,
            x: p.1 as u32,
            y: p.2 as u32,
            width: p.3 as u32,
            height: p.4 as u32,
            origin_width: if ow < 0 { 0 } else { ow as u32 },
            origin_height: if oh < 0 { 0 } else { oh as u32 },
        };
        proof {
            let ri = rect_index(rects@, id);
            assert(0 <= i < rects.len() && rects@[i as int].0 == id);
            assert(ri == i as int);
        }
        items.insert(id, item);
        i = i + 1;
    }
    proof {
        assert forall|k: usize| k < sizes.len() implies #[trigger] items@[k] == packed_item(
            sizes@,
            rects@,
            k,
        ) by {
            assert(places_id(rects@, k));
            let m = choose|m: int| 0 <= m < rects.len() && rects@[m].0 == k;
            assert(items@[rects@[m].0] == packed_item(sizes@, rects@, rects@[m].0));
        }
        assert forall|k: usize| #[trigger] items@.contains_key(k) <==> k < sizes.len() by {
            if k < sizes.len() {
                assert(places_id(rects@, k));
            }
        }
        assert forall|k: usize| #[trigger] items@.contains_key(k) implies {
            &&& items@[k].x + items@[k].width <= atlas_width
            &&& items@[k].y + items@[k].height <= atlas_height
            &&& items@[k].width == items@[k].origin_width
            &&& items@[k].height == items@[k].origin_height
            &&& items@[k].origin_width == clamp0(sizes@[k as int].0)
            &&& items@[k].origin_height == clamp0(sizes@[k as int].1)
        } by {
            assert(places_id(rects@, k));
            let i = rect_index(rects@, k);
            lemma_extent_bounds(rects@, i);
        }
        assert forall|k1: usize, k2: usize|
            #[trigger] items@.contains_key(k1) && #[trigger] items@.contains_key(k2) && k1 != k2
                && items@[k1].width > 0 && items@[k1].height > 0 && items@[k2].width > 0 && items@[k2].height > 0
            implies items_apart_plain(items@[k1], items@[k2]) by {
            assert(places_id(rects@, k1));
            assert(places_id(rects@, k2));
            let i1 = rect_index(rects@, k1);
            let i2 = rect_index(rects@, k2);
            assert(rects@[i1].0 == k1 && rects@[i2].0 == k2);
            assert(rects_apart(rects@[i1], rects@[i2]));
        }
        if n > 0 {
            lemma_extent_attained(rects@);
            let ir = choose|i: int| 0 <= i < rects@.len() && rects@[i].1 + rects@[i].3 == right_extent(rects@);
            let ib = choose|i: int| 0 <= i < rects@.len() && rects@[i].2 + rects@[i].4 == bottom_extent(rects@);
            let kr = rects@[ir].0;
            let kb = rects@[ib].0;
            assert(places_id(rects@, kr));
            assert(places_id(rects@, kb));
            assert(rect_index(rects@, kr) == ir);
            assert(rect_index(rects@, kb) == ib);
            assert(items@.contains_key(kr) && reaches_right(items@, kr, atlas_width as int));
            assert(items@.contains_key(kb) && reaches_bottom(items@, kb, atlas_height as int));
        }
    }
    Atlas { width: atlas_width, height: atlas_height, items }
}

proof fn lemma_fit_step_unique(sizes: Seq<(i32, i32)>, divider: int, k1: nat, k2: nat)
    requires
        is_fit_step(sizes, divider, k1),
        is_fit_step(sizes, divider, k2),
    ensures
        k1 == k2,
{
    if k1 < k2 {
        assert(!step_fits(sizes, start_side(total_area(sizes)), divider, k1));
    } else if k2 < k1 {
        assert(!step_fits(sizes, start_side(total_area(sizes)), divider, k2));
    }
}

/// Packs images of the given sizes into one atlas: starting from a square
/// bin of side `0.9 * sqrt(total area)`, the bin is widened and heightened
/// in turn by a `step_divider`-th (at least one pixel) until the packer
/// places every image; the atlas then spans exactly the placed images.
///
/// `None` when a side of the bin would leave the `i32` range first.
pub fn try_pack_atlas(dimensions: &[(i32, i32)], step_divider: u32) -> (r: Option<Atlas>)
    requires
        step_divider > 0,
        total_area(dimensions@) <= u32::MAX,
    ensures
        r is Some <==> packs_in_bounds(dimensions@, step_divider as int),
        r matches Some(a) ==> is_packed_atlas(a, dimensions@, step_divider as int),
        r matches Some(a) ==> items_inside_unscaled(a, dimensions@),
        r matches Some(a) ==> items_disjoint(a),
        r matches Some(a) ==> spans_items(a.items@, a.width as int, a.height as int),
{
    let total = area_of_sizes(dimensions);
    let start = start_side_of(total);
    match grow_until_packed(dimensions, start, step_divider) {
        Some((rects, w, h, k)) => {
            proof {
                assert(is_fit_step(dimensions@, step_divider as int, k@));
                lemma_fit_step_unique(
                    dimensions@,
                    step_divider as int,
                    k@,
                    fit_step(dimensions@, step_divider as int),
                );
                if dimensions.len() == 0 {
                    assert(is_start_side(0, 0));
                    lemma_start_side_unique(0, 0, start_side(0));
                    assert(total == 0);
                }
            }
            let atlas = atlas_from_rects(dimensions, rects, w, h);
            proof {
                if dimensions.len() == 0 {
                    assert forall|k: usize| !#[trigger] atlas.items@.contains_key(k) by {}
                }
            }
            Some(atlas)
        },
        None => None,
    }
}

/// `a` is the packed atlas of `sizes` with both sides rounded up to powers
/// of two, its items unscaled where the packer put them: no two of them
/// overlap, and the packed sides are how far they reach.
pub open spec fn is_pot_packed_atlas(a: Atlas, sizes: Seq<(i32, i32)>, divider: int) -> bool {
    &&& a.width == pot(packed_width(sizes, divider))
    &&& a.height == pot(packed_height(sizes, divider))
    &&& a.wf()
    &&& forall|k: usize| #[trigger] a.items@.contains_key(k) <==> k < sizes.len()
    &&& forall|k: usize| k < sizes.len() ==> #[trigger] a.items@[k] == packed_item(
        sizes,
        fit_rects(sizes, divider),
        k,
    )
    &&& items_inside_unscaled(a, sizes)
    &&& items_disjoint(a)
    &&& spans_items(a.items@, packed_width(sizes, divider), packed_height(sizes, divider))
}

/// The atlas builder without scaling: packs the sizes (see
/// `try_pack_atlas`) and rounds the atlas sides up to powers of two.
///
/// `None` when packing would leave the `i32` range, or when a packed side
/// exceeds 2^30, where the doubling that finds its power of two overflows
/// `u32`.
pub fn build_unscaled_atlas(dimensions: &[(i32, i32)], step_divider: u32) -> (r: Option<Atlas>)
    requires
        step_divider > 0,
        total_area(dimensions@) <= u32::MAX,
    ensures
        r is Some <==> {
            &&& packs_in_bounds(dimensions@, step_divider as int)
            &&& packed_width(dimensions@, step_divider as int) <= 0x4000_0000
            &&& packed_height(dimensions@, step_divider as int) <= 0x4000_0000
        },
        r matches Some(a) ==> is_pot_packed_atlas(a, dimensions@, step_divider as int),
{
    match try_pack_atlas(dimensions, step_divider) {
        Some(packed) => {
            if packed.width > 0x4000_0000 || packed.height > 0x4000_0000 {
                return None;
            }
            let ghost pw = packed.width as int;
            let ghost ph = packed.height as int;
            let a = pot_atlas(packed);
            proof {
                lemma_pot_least(pw);
                lemma_pot_least(ph);
            }
            Some(a)
        },
        None => None,
    }
}

/// Law: the built atlas's sides are the least powers of two, at least 2,
/// that reach as far as its items do (2 by 2 with no items), and no two of
/// its items of positive size overlap.
pub proof fn lemma_pot_sides_cover_items(a: Atlas, sizes: Seq<(i32, i32)>, divider: int)
    requires
        is_pot_packed_atlas(a, sizes, divider),
    ensures
        exists|reach_w: int, reach_h: int| {
            &&& spans_items(a.items@, reach_w, reach_h)
            &&& is_pow2(a.width as int) && a.width >= 2 && a.width >= reach_w
            &&& (a.width == 2 || a.width / 2 < reach_w)
            &&& is_pow2(a.height as int) && a.height >= 2 && a.height >= reach_h
            &&& (a.height == 2 || a.height / 2 < reach_h)
        },
        items_disjoint(a),
{
    let pw = packed_width(sizes, divider);
    let ph = packed_height(sizes, divider);
    lemma_pot_least(pw);
    lemma_pot_least(ph);
    assert(spans_items(a.items@, pw, ph));
}

} // verus!
