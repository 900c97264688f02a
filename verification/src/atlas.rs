use crate::strings::{digits, format_radix};
use std::collections::hash_map::DefaultHasher;
use std::collections::HashMap;
use std::hash::Hasher;
use vstd::prelude::*;
use vstd::std_specs::hash::DefaultHasherAdditionalSpecFns;
use vstd::std_specs::iter::IteratorSpec;

verus! {

broadcast use vstd::std_specs::hash::group_hash_axioms;

/// A placed image inside a texture atlas: where it sits in the atlas and the
/// size of the source image it was made from.
#[derive(Clone, Copy, Debug, PartialEq, Eq, Structural)]
pub struct AtlasItem {
    pub id: usize,
    pub x: u32,
    pub y: u32,
    pub width: u32,
    pub height: u32,
    pub origin_width: u32,
    pub origin_height: u32,
}

/// A texture atlas: its size in pixels and its items keyed by item id.
#[derive(Clone, Debug)]
pub struct Atlas {
    pub width: u32,
    pub height: u32,
    pub items: HashMap<usize, AtlasItem>,
}

impl Default for Atlas {
    /// An empty 4x4 atlas.
    fn default() -> (r: Atlas)
        ensures
            r.width == 4,
            r.height == 4,
            r.items@ == Map::<usize, AtlasItem>::empty(),
    {
        Atlas { width: 4, height: 4, items: HashMap::new() }
    }
}

impl Atlas {
    /// Every item is stored under its own id.
    pub open spec fn wf(&self) -> bool {
        forall|k: usize| #[trigger] self.items@.contains_key(k) ==> self.items@[k].id == k
    }
}

/// The items of an atlas in the order its map hands them out.
pub open spec fn items_in_map_order(atlas: &Atlas) -> Seq<AtlasItem> {
    vstd::std_specs::hash::into_iter_values(vstd::std_specs::hash::spec_values_iter(&atlas.items))
}

/// The item shrunk by `gap` on each side.
pub open spec fn gapped_item(item: AtlasItem, gap: u32) -> AtlasItem {
    AtlasItem {
        id: item.id,
        x: (item.x + gap) as u32,
        y: (item.y + gap) as u32,
        width: (item.width - 2 * gap) as u32,
        height: (item.height - 2 * gap) as u32,
        origin_width: item.origin_width,
        origin_height: item.origin_height,
    }
}

/// Shifts every item of `m` inward by `gap` on each side.
pub open spec fn gapped_items(m: Map<usize, AtlasItem>, gap: u32) -> Map<usize, AtlasItem> {
    Map::new(
        |k: usize| m.contains_key(k),
        |k: usize| AtlasItem {
            id: m[k].id,
            x: (m[k].x + gap) as u32,
            y: (m[k].y + gap) as u32,
            width: (m[k].width - 2 * gap) as u32,
            height: (m[k].height - 2 * gap) as u32,
            origin_width: m[k].origin_width,
            origin_height: m[k].origin_height,
        },
    )
}

/// Shrinks every item by `gap` pixels on each side, keeping the atlas size:
/// the gap keeps neighbouring images from bleeding into each other.
pub fn gaps_atlas(atlas: Atlas, gap: u32) -> (r: Atlas)
    requires
        forall|k: usize| #[trigger] atlas.items@.contains_key(k) ==> {
            &&& atlas.items@[k].x + gap <= u32::MAX
            &&& atlas.items@[k].y + gap <= u32::MAX
            &&& 2 * gap <= atlas.items@[k].width
            &&& 2 * gap <= atlas.items@[k].height
        },
    ensures
        r.width == atlas.width,
        r.height == atlas.height,
        forall|k: usize| #[trigger] atlas.items@.contains_key(k)
            ==> r.items@.contains_key(atlas.items@[k].id),
        forall|id: usize| #[trigger] r.items@.contains_key(id) ==> exists|k: usize|
            #[trigger] atlas.items@.contains_key(k) && atlas.items@[k].id == id
                && r.items@[id] == gapped_item(atlas.items@[k], gap),
        atlas.wf() ==> r.wf() && r.items@ == gapped_items(atlas.items@, gap),
{
    let ghost m = atlas.items@;
    let ghost s0 = vstd::std_specs::hash::spec_hash_map_iter(&atlas.items).remaining();
    let mut items: HashMap<usize, AtlasItem> = HashMap::new();
    for (k, item) in it: atlas.items.iter()
        invariant
            m == atlas.items@,
            it.seq() == s0,
            forall|k: usize| #[trigger] m.contains_key(k) ==> s0.contains((&k, &m[k])),
            forall|i: int| 0 <= i < s0.len() ==> #[trigger] m.contains_key(*s0[i].0) && m[*s0[i].0] == *s0[i].1,
            forall|k: usize| #[trigger] m.contains_key(k) ==> {
                &&& m[k].x + gap <= u32::MAX
                &&& m[k].y + gap <= u32::MAX
                &&& 2 * gap <= m[k].width
                &&& 2 * gap <= m[k].height
            },
            forall|i: int| 0 <= i < it.index() ==> items@.contains_key((*it.seq()[i].1).id),
            forall|id: usize| #[trigger] items@.contains_key(id) ==> exists|k: usize|
                #[trigger] m.contains_key(k) && m[k].id == id && items@[id] == gapped_item(m[k], gap),
    {
        assert((k, item) == s0[it.index() as int]);
        assert(m.contains_key(*k) && m[*k] == *item);
        let item_gaps = AtlasItem {
            id: item.id,
            x: item.x + gap,
            y: item.y + gap,
            width: item.width - 2 * gap,
            height: item.height - 2 * gap,
            origin_width: item.origin_width,
            origin_height: item.origin_height,
        };
        items.insert(item.id, item_gaps);
    }
    assert forall|k: usize| #[trigger] m.contains_key(k) implies items@.contains_key(m[k].id) by {
        let i = choose|i: int| 0 <= i < s0.len() && s0[i] == (&k, &m[k]);
        assert(items@.contains_key((*s0[i].1).id));
    }
    proof {
        if atlas.wf() {
            assert(items@ =~= gapped_items(m, gap));
        }
    }
    Atlas { width: atlas.width, height: atlas.height, items }
}

/// Ids never decrease along the list.
pub open spec fn sorted_by_id(items: Seq<AtlasItem>) -> bool {
    forall|i: int, j: int| 0 <= i < j < items.len() ==> (#[trigger] items[i]).id <= (#[trigger] items[j]).id
}

/// Puts `item` after every item whose id is not greater, keeping the list
/// sorted by id.
fn insert_by_id(list: &mut Vec<AtlasItem>, item: AtlasItem)
    requires
        sorted_by_id(old(list)@),
    ensures
        sorted_by_id(final(list)@),
        final(list)@.len() == old(list)@.len() + 1,
        final(list)@.to_set() == old(list)@.to_set().insert(item),
{
    let ghost before = list@;
    let mut j: usize = 0;
    while j < list.len() && list[j].id <= item.id
        invariant
            j <= list.len(),
            list@ == before,
            forall|m: int| 0 <= m < j ==> (#[trigger] list@[m]).id <= item.id,
        decreases list.len() - j,
    {
        j = j + 1;
    }
    list.insert(j, item);
    proof {
        let after = list@;
        assert(after =~= before.insert(j as int, item));
        assert forall|a: int, b: int| 0 <= a < b < after.len() implies (#[trigger] after[a]).id <= (#[trigger] after[b]).id by {
            if b < j {
            } else if b == j {
            } else if a < j {
                assert(after[b] == before[b - 1]);
                assert(before[j as int].id > item.id);
            } else if a == j {
                assert(after[b] == before[b - 1]);
                assert(before[j as int].id > item.id);
                if b - 1 > j {
                    assert(before[j as int].id <= before[b - 1].id);
                }
            } else {
                assert(after[a] == before[a - 1]);
                assert(after[b] == before[b - 1]);
            }
        }
        assert forall|x: AtlasItem| after.contains(x) <==> before.to_set().insert(item).contains(x) by {
            if before.contains(x) {
                let m = choose|m: int| 0 <= m < before.len() && before[m] == x;
                if m < j {
                    assert(after[m] == x);
                } else {
                    assert(after[m + 1] == x);
                }
            }
            if x == item {
                assert(after[j as int] == item);
            }
            if after.contains(x) {
                let m = choose|m: int| 0 <= m < after.len() && after[m] == x;
                if m < j {
                    assert(before[m] == x);
                } else if m > j {
                    assert(before[m - 1] == x);
                }
            }
        }
        assert(after.to_set() =~= before.to_set().insert(item));
    }
}

/// The `n` low bytes of `v`, least significant first.
pub open spec fn le_bytes(v: nat, n: nat) -> Seq<u8>
    decreases n,
{
    if n == 0 {
        Seq::empty()
    } else {
        seq![(v % 256) as u8] + le_bytes(v / 256, (n - 1) as nat)
    }
}

/// `b` is `v` written in `n` bytes, least or most significant first (the
/// target's native byte order).
pub open spec fn encodes(b: Seq<u8>, v: nat, n: nat) -> bool {
    b == le_bytes(v, n) || b == le_bytes(v, n).reverse()
}

/// Feeds a `usize` to the hasher (`Hasher::write_usize`, which writes the
/// value's native-endian bytes): one more chunk goes in, the value in
/// `usize::BITS / 8` bytes in the target's byte order.
#[verifier::external_body]
fn hasher_write_usize(state: &mut DefaultHasher, v: usize)
    ensures
        final(state)@.len() == old(state)@.len() + 1,
        final(state)@.drop_last() == old(state)@,
        encodes(final(state)@.last(), v as nat, (usize::BITS / 8) as nat),
{
    state.write_usize(v);
}

/// Feeds a `u32` to the hasher (`Hasher::write_u32`, which writes the
/// value's native-endian bytes): one more chunk goes in, the value in four
/// bytes in the target's byte order.
#[verifier::external_body]
fn hasher_write_u32(state: &mut DefaultHasher, v: u32)
    ensures
        final(state)@.len() == old(state)@.len() + 1,
        final(state)@.drop_last() == old(state)@,
        encodes(final(state)@.last(), v as nat, 4),
{
    state.write_u32(v);
}

/// Field `j` of the item, in declaration order: id, x, y, width, height,
/// origin width, origin height.
pub open spec fn item_field(it: AtlasItem, j: int) -> nat {
    if j == 0 {
        it.id as nat
    } else if j == 1 {
        it.x as nat
    } else if j == 2 {
        it.y as nat
    } else if j == 3 {
        it.width as nat
    } else if j == 4 {
        it.height as nat
    } else if j == 5 {
        it.origin_width as nat
    } else {
        it.origin_height as nat
    }
}

/// How many bytes the hasher is fed for field `j` of an item.
pub open spec fn field_bytes(j: int) -> nat {
    if j == 0 {
        (usize::BITS / 8) as nat
    } else {
        4
    }
}

/// The chunk fed for field `j` of the `i`-th item, seven chunks per item.
pub open spec fn chunk_of(s: Seq<Seq<u8>>, i: int, j: int) -> Seq<u8> {
    s[7 * i + j]
}

/// The chunks are the items' fields, seven per item in order, each in the
/// target's byte order.
pub open spec fn chunks_of_items(s: Seq<Seq<u8>>, items: Seq<AtlasItem>) -> bool {
    &&& s.len() == 7 * items.len()
    &&& forall|i: int, j: int|
        0 <= i < items.len() && 0 <= j < 7 ==> encodes(#[trigger] chunk_of(s, i, j), item_field(items[i], j), field_bytes(j))
}

impl Atlas {
    /// The atlas items sorted by id (items with equal ids keep the order in
    /// which the map hands them out).
    pub fn items_by_id(&self) -> (r: Vec<AtlasItem>)
        ensures
            sorted_by_id(r@),
            r@.len() == self.items@.len(),
            r@.to_set() == self.items@.values(),
    {
        let mut list: Vec<AtlasItem> = Vec::new();
        let ghost vs = items_in_map_order(self);
        let ghost mut done: int = 0;
        proof {
            vstd::std_specs::hash::axiom_spec_values_iter(&self.items);
        }
        for item in it: self.items.values()
            invariant
                done == it.index(),
                done <= vs.len(),
                it.seq().map_values(|v: &AtlasItem| *v) == vs,
                vs == items_in_map_order(self),
                sorted_by_id(list@),
                list@.len() == done,
                list@.to_set() == vs.take(done).to_set(),
        {
            insert_by_id(&mut list, *item);
            proof {
                assert(vs[done] == *item);
                assert(vs.take(done + 1) =~= vs.take(done).push(*item));
                vs.take(done).lemma_push_to_set_commute(*item);
                done = done + 1;
            }
        }
        proof {
            assert(vs.take(done) =~= vs);
            assert(vs.len() == self.items@.dom().len());
            assert(vs.to_set() =~= self.items@.values()) by {
                assert forall|v: AtlasItem| vs.to_set().contains(v) <==> self.items@.values().contains(v) by {
                    let rem = vstd::std_specs::hash::spec_values_iter(&self.items).remaining();
                    if vs.contains(v) {
                        let i = choose|i: int| 0 <= i < vs.len() && vs[i] == v;
                        assert(rem.unref()[i] == v);
                        assert(rem.unref().to_set().contains(v));
                    }
                    if self.items@.values().contains(v) {
                        assert(rem.unref().to_set().contains(v));
                        let i = choose|i: int| 0 <= i < rem.unref().len() && rem.unref()[i] == v;
                        assert(vs[i] == v);
                    }
                }
            }
        }
        list
    }

    /// A short fingerprint of the atlas layout: the default hasher fed with
    /// every item, sorted by id, field by field in declaration order (each
    /// field one chunk of its bytes in the target's byte order), finished
    /// and written in lowercase hexadecimal.
    pub fn hash(&self) -> (r: String)
        ensures
            exists|s: Seq<Seq<u8>>, items: Seq<AtlasItem>| {
                &&& items.len() == self.items@.len()
                &&& sorted_by_id(items)
                &&& items.to_set() == self.items@.values()
                &&& chunks_of_items(s, items)
                &&& r@ == digits(DefaultHasher::spec_finish(s) as nat, 16)
            },
    {
        let mut hasher = DefaultHasher::new();
        let items = self.items_by_id();
        let mut i: usize = 0;
        while i < items.len()
            invariant
                i <= items.len(),
                hasher@.len() == 7 * i,
                forall|a: int, j: int|
                    0 <= a < i && 0 <= j < 7 ==> encodes(
                        #[trigger] chunk_of(hasher@, a, j),
                        item_field(items@[a], j),
                        field_bytes(j),
                    ),
            decreases items.len() - i,
        {
            let item = items[i];
            let ghost h0 = hasher@;
            hasher_write_usize(&mut hasher, item.id);
            let ghost h1 = hasher@;
            hasher_write_u32(&mut hasher, item.x);
            let ghost h2 = hasher@;
            hasher_write_u32(&mut hasher, item.y);
            let ghost h3 = hasher@;
            hasher_write_u32(&mut hasher, item.width);
            let ghost h4 = hasher@;
            hasher_write_u32(&mut hasher, item.height);
            let ghost h5 = hasher@;
            hasher_write_u32(&mut hasher, item.origin_width);
            let ghost h6 = hasher@;
            hasher_write_u32(&mut hasher, item.origin_height);
            proof {
                let h7 = hasher@;
                let base = 7 * i;
                assert(h7.len() == base + 7);
                assert(forall|q: int| 0 <= q < base ==> #[trigger] h7[q] == h0[q]) by {
                    assert forall|q: int| 0 <= q < base implies #[trigger] h7[q] == h0[q] by {
                        assert(h7[q] == h6[q] && h6[q] == h5[q] && h5[q] == h4[q] && h4[q] == h3[q]);
                        assert(h3[q] == h2[q] && h2[q] == h1[q] && h1[q] == h0[q]);
                    }
                }
                assert(h7[base] == h1.last());
                assert(h7[base + 1] == h2.last());
                assert(h7[base + 2] == h3.last());
                assert(h7[base + 3] == h4.last());
                assert(h7[base + 4] == h5.last());
                assert(h7[base + 5] == h6.last());
                assert(h7[base + 6] == h7.last());
                assert forall|a: int, j: int| 0 <= a < i + 1 && 0 <= j < 7 implies encodes(
                    #[trigger] chunk_of(h7, a, j),
                    item_field(items@[a], j),
                    field_bytes(j),
                ) by {
                    if a < i {
                        assert(7 * a + j < base) by (nonlinear_arith)
                            requires a < i, j < 7, base == 7 * i;
                        assert(chunk_of(h0, a, j) == chunk_of(h7, a, j));
                    } else {
                        assert(7 * a + j == base + j);
                    }
                }
            }
            i = i + 1;
        }
        let h = hasher.finish();
        let r = format_radix(h, 16);
        proof {
            assert(chunks_of_items(hasher@, items@));
            assert(r@ == digits(DefaultHasher::spec_finish(hasher@) as nat, 16));
        }
        r
    }
}

} // verus!
