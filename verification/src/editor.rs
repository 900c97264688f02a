//! Editor selection: which states of which sprite group the timeline has
//! picked, and which changes to a group's states the editor offers.
use vstd::prelude::*;

verus! {

/// Orientation of an alignment guide in the sprite editor.
#[derive(Clone, Copy, PartialEq, Eq, Structural, Debug)]
pub enum GuideDirection {
    Horizonal,
    Vertical,
}

/// `s` is in strictly ascending order, so no index occurs twice.
pub open spec fn strictly_ascending(s: Seq<usize>) -> bool {
    forall|i: int, j: int| 0 <= i < j < s.len() ==> s[i] < s[j]
}

/// The selection after a click on state `index`: a selected state is
/// dropped, any other state is added.
pub open spec fn toggled(sel: Set<usize>, index: usize) -> Set<usize> {
    if sel.contains(index) {
        sel.remove(index)
    } else {
        sel.insert(index)
    }
}

/// The states of one sprite group selected on the timeline, by index.
#[derive(Clone, Debug)]
pub struct TimeLinePoints {
    pub sprite_group_index: usize,
    pub states_indices: Vec<usize>,
}

impl TimeLinePoints {
    /// The indices are listed in ascending order, each once.
    pub open spec fn wf(&self) -> bool {
        strictly_ascending(self.states_indices@)
    }

    /// The selected state indices.
    pub open spec fn selected(&self) -> Set<usize> {
        self.states_indices@.to_set()
    }

    /// State `index` of the group, selected alone.
    pub fn single(sprite_group_index: usize, index: usize) -> (r: TimeLinePoints)
        ensures
            r.wf(),
            r.sprite_group_index == sprite_group_index,
            r.states_indices@ == seq![index],
    {
        let mut v: Vec<usize> = Vec::new();
        v.push(index);
        TimeLinePoints { sprite_group_index, states_indices: v }
    }

    /// All `count` states of the group selected.
    pub fn all(sprite_group_index: usize, count: usize) -> (r: TimeLinePoints)
        ensures
            r.wf(),
            r.sprite_group_index == sprite_group_index,
            r.states_indices@ == Seq::new(count as nat, |i: int| i as usize),
    {
        let mut v: Vec<usize> = Vec::new();
        let mut i: usize = 0;
        while i < count
            invariant
                i <= count,
                v@ == Seq::new(i as nat, |j: int| j as usize),
            decreases count - i,
        {
            v.push(i);
            i = i + 1;
            assert(v@ =~= Seq::new(i as nat, |j: int| j as usize));
        }
        TimeLinePoints { sprite_group_index, states_indices: v }
    }

    /// The selection after a click on state `index` of this group; `None`
    /// when nothing would be left selected.
    pub fn toggle(&self, index: usize) -> (r: Option<TimeLinePoints>)
        requires
            self.wf(),
        ensures
            r is None <==> toggled(self.selected(), index) == Set::<usize>::empty(),
            r matches Some(p) ==> {
                &&& p.wf()
                &&& p.sprite_group_index == self.sprite_group_index
                &&& p.selected() == toggled(self.selected(), index)
            },
    {
        let s = &self.states_indices;
        let n = s.len();
        let mut p: usize = 0;
        while p < n && s[p] < index
            invariant
                n == s.len(),
                p <= n,
                forall|j: int| 0 <= j < p ==> s@[j] < index,
            decreases n - p,
        {
            p = p + 1;
        }
        let ghost sel = self.selected();
        let mut v = s.clone();
        assert(v@ =~= s@);
        if p < n && s[p] == index {
            if n == 1 {
                proof {
                    assert(sel.contains(index));
                    assert(sel.remove(index) =~= Set::<usize>::empty()) by {
                        assert forall|x: usize| sel.contains(x) implies x == index by {
                            let j = choose|j: int| 0 <= j < s.len() && s@[j] == x;
                            assert(j == 0);
                        }
                    }
                }
                return None;
            }
            v.remove(p);
            proof {
                assert(sel.contains(index));
                assert forall|x: usize| v@.to_set().contains(x) <==> sel.remove(index).contains(x) by {
                    if v@.contains(x) {
                        let j = choose|j: int| 0 <= j < v@.len() && v@[j] == x;
                        if j < p {
                            assert(s@[j] == x && s@[j] < s@[p as int]);
                        } else {
                            assert(s@[j + 1] == x && s@[p as int] < s@[j + 1]);
                        }
                    }
                    if sel.contains(x) && x != index {
                        let j = choose|j: int| 0 <= j < s.len() && s@[j] == x;
                        if j < p {
                            assert(v@[j] == x);
                        } else {
                            assert(j != p);
                            assert(v@[j - 1] == x);
                        }
                    }
                }
                assert(v@.to_set() =~= sel.remove(index));
                assert(v@.len() == n - 1);
                assert(v@.contains(v@[0]));
                assert(!(sel.remove(index) =~= Set::<usize>::empty()) ) by {
                    assert(sel.remove(index).contains(v@[0]));
                }
            }
            Some(TimeLinePoints { sprite_group_index: self.sprite_group_index, states_indices: v })
        } else {
            proof {
                assert(!sel.contains(index)) by {
                    if sel.contains(index) {
                        let j = choose|j: int| 0 <= j < s.len() && s@[j] == index;
                        if j >= p {
                            if j > p {
                                assert(s@[p as int] < s@[j]);
                            }
                        }
                    }
                }
            }
            v.insert(p, index);
            proof {
                assert forall|i: int, j: int| 0 <= i < j < v@.len() implies v@[i] < v@[j] by {
                    if j < p {
                    } else if j == p {
                    } else if i < p {
                        assert(v@[j] == s@[j - 1]);
                        assert(s@[j - 1] >= s@[p as int]);
                    } else if i == p {
                        assert(v@[j] == s@[j - 1]);
                        if j - 1 > p {
                            assert(s@[p as int] < s@[j - 1]);
                        }
                    } else {
                        assert(v@[i] == s@[i - 1] && v@[j] == s@[j - 1]);
                    }
                }
                assert forall|x: usize| v@.to_set().contains(x) <==> sel.insert(index).contains(x) by {
                    if v@.contains(x) {
                        let j = choose|j: int| 0 <= j < v@.len() && v@[j] == x;
                        if j < p {
                            assert(s@[j] == x);
                        } else if j > p {
                            assert(s@[j - 1] == x);
                        }
                    }
                    if sel.contains(x) {
                        let j = choose|j: int| 0 <= j < s.len() && s@[j] == x;
                        if j < p {
                            assert(v@[j] == x);
                        } else {
                            assert(v@[j + 1] == x);
                        }
                    }
                    if x == index {
                        assert(v@[p as int] == x);
                    }
                }
                assert(v@.to_set() =~= sel.insert(index));
                assert(sel.insert(index).contains(index));
            }
            Some(TimeLinePoints { sprite_group_index: self.sprite_group_index, states_indices: v })
        }
    }
}

/// The timeline selection after a click on state `index` of group `group`:
/// with nothing selected, or with another group's states selected, the
/// clicked state is selected alone; in the selected group the click toggles
/// the state, and `None` means that nothing is left selected.
pub fn select_timeline_point(current: &Option<TimeLinePoints>, group: usize, index: usize) -> (r: Option<
    TimeLinePoints,
>)
    requires
        current matches Some(c) ==> c.wf(),
    ensures
        match current {
            Some(c) if c.sprite_group_index == group => {
                &&& r is None <==> toggled(c.selected(), index) == Set::<usize>::empty()
                &&& r matches Some(p) ==> {
                    &&& p.wf()
                    &&& p.sprite_group_index == group
                    &&& p.selected() == toggled(c.selected(), index)
                }
            },
            _ => r matches Some(p) && p.sprite_group_index == group && p.states_indices@ == seq![index],
        },
{
    match current {
        Some(c) => {
            if c.sprite_group_index == group {
                c.toggle(index)
            } else {
                Some(TimeLinePoints::single(group, index))
            }
        },
        None => Some(TimeLinePoints::single(group, index)),
    }
}

/// Whether the editor offers to add a state (when the edited state is not
/// one of the group's states) or to remove one (when it is, and more than
/// two states would remain possible to keep the animation's two ends).
pub fn modify_states_possible(adding: bool, removing: bool, on_existing_state: bool, states_count: usize) -> (r:
    bool)
    ensures
        r == ((adding && !on_existing_state) || (removing && on_existing_state && states_count > 2)),
{
    if adding && !on_existing_state {
        return true;
    }
    removing && on_existing_state && states_count > 2
}

proof fn lemma_ascending_unique(a: Seq<usize>, b: Seq<usize>)
    requires
        strictly_ascending(a),
        strictly_ascending(b),
        a.to_set() == b.to_set(),
    ensures
        a == b,
    decreases a.len(),
{
    if a.len() == 0 {
        if b.len() > 0 {
            assert(b.to_set().contains(b[0]));
        }
        assert(a =~= b);
    } else if b.len() == 0 {
        assert(a.to_set().contains(a[0]));
    } else {
        assert(b.to_set().contains(a[0]));
        assert(a.to_set().contains(b[0]));
        let k = choose|k: int| 0 <= k < b.len() && b[k] == a[0];
        let m = choose|m: int| 0 <= m < a.len() && a[m] == b[0];
        if k > 0 {
            assert(b[0] < b[k]);
        }
        if m > 0 {
            assert(a[0] < a[m]);
        }
        let a1 = a.drop_first();
        let b1 = b.drop_first();
        assert forall|x: usize| a1.to_set().contains(x) <==> b1.to_set().contains(x) by {
            if a1.contains(x) {
                let i = choose|i: int| 0 <= i < a1.len() && a1[i] == x;
                assert(a[i + 1] == x && a[0] < a[i + 1]);
                assert(b.to_set().contains(x));
                let j = choose|j: int| 0 <= j < b.len() && b[j] == x;
                assert(j != 0);
                assert(b1[j - 1] == x);
            }
            if b1.contains(x) {
                let i = choose|i: int| 0 <= i < b1.len() && b1[i] == x;
                assert(b[i + 1] == x && b[0] < b[i + 1]);
                assert(a.to_set().contains(x));
                let j = choose|j: int| 0 <= j < a.len() && a[j] == x;
                assert(j != 0);
                assert(a1[j - 1] == x);
            }
        }
        assert(a1.to_set() =~= b1.to_set());
        lemma_ascending_unique(a1, b1);
        assert forall|i: int| 0 <= i < a.len() implies a[i] == b[i] by {
            if i > 0 {
                assert(a[i] == a1[i - 1]);
                assert(b[i] == b1[i - 1]);
            }
        }
        assert(a =~= b);
    }
}

/// Law: a second click on the same state restores the selection, index for
/// index, whenever the first click left something selected.
pub proof fn lemma_toggle_twice(p: TimeLinePoints, q: TimeLinePoints, r: TimeLinePoints, index: usize)
    requires
        p.wf(),
        q.wf(),
        r.wf(),
        q.selected() == toggled(p.selected(), index),
        r.selected() == toggled(q.selected(), index),
    ensures
        r.states_indices@ == p.states_indices@,
{
    assert(toggled(toggled(p.selected(), index), index) =~= p.selected());
    lemma_ascending_unique(r.states_indices@, p.states_indices@);
}

} // verus!
