//! Text helpers: bold markup spans and the sets of letters a scenario uses.
use vstd::prelude::*;
use vstd::std_specs::iter::IteratorSpec;
use vstd::string::*;
use crate::strings::string_of_chars;

verus! {

broadcast use vstd::string::group_string_axioms;

/// The characters of `s`, in order.
pub fn chars_of(s: &str) -> (r: Vec<char>)
    ensures
        r@ == s@,
{
    let mut r: Vec<char> = Vec::new();
    let ghost whole = s@;
    for c in it: s.chars()
        invariant
            it.seq() == whole,
            r@ == whole.take(it.index() as int),
    {
        proof {
            assert(whole.take(it.index() + 1) =~= whole.take(it.index() as int).push(c));
        }
        r.push(c);
    }
    assert(whole.take(whole.len() as int) =~= whole);
    r
}

/// The scanner state of `mark_str` after some characters: whether the text
/// is bold, where the current span starts, the index of the last character
/// seen, how many characters until a span starts after a `**` marker
/// (0: none), and the spans found so far as (code, from, to).
pub type MarkState = (bool, int, int, int, Seq<(usize, int, int)>);

/// Position `i` of `t` starts a `**` marker.
pub open spec fn is_marker(t: Seq<char>, i: int) -> bool {
    0 <= i && i + 1 < t.len() && t[i] == '*' && t[i + 1] == '*'
}

/// The span code of a bold flag: 1 for bold, 0 for normal.
pub open spec fn span_code(bold: bool) -> usize {
    if bold { 1 } else { 0 }
}

/// One scanner step on the character at `i`.
pub open spec fn mark_step(t: Seq<char>, st: MarkState, i: int) -> MarkState {
    let (bold, start, prev, pending, spans) = st;
    let start1 = if pending == 1 { i } else { start };
    let pending1 = if pending == 1 { 0 } else if pending > 1 { pending - 1 } else { 0 };
    if is_marker(t, i) {
        let spans1 = if prev > start1 { spans.push((span_code(bold), start1, i)) } else { spans };
        (!bold, start1, i, 2, spans1)
    } else {
        (bold, start1, i, pending1, spans)
    }
}

/// The scanner state after the first `n` characters of `t`.
pub open spec fn mark_run(t: Seq<char>, n: nat) -> MarkState
    decreases n,
{
    if n == 0 {
        (false, 0, 0, 0, Seq::empty())
    } else {
        mark_step(t, mark_run(t, (n - 1) as nat), n - 1)
    }
}

/// The spans of `t` as (code, from, to) character positions: the scanner's
/// spans, plus the trailing span when it holds more than its first
/// character and no marker is still pending.
pub open spec fn mark_ranges(t: Seq<char>) -> Seq<(usize, int, int)> {
    let (bold, start, prev, pending, spans) = mark_run(t, t.len());
    if prev > start && pending == 0 {
        spans.push((span_code(bold), start, t.len() as int))
    } else {
        spans
    }
}

/// The spans of `t`: text between `**` markers, coded 1 when bold and 0
/// when not.
pub open spec fn mark_spans(t: Seq<char>) -> Seq<(usize, Seq<char>)> {
    mark_ranges(t).map_values(|r: (usize, int, int)| (r.0, t.subrange(r.1, r.2)))
}

proof fn lemma_mark_run_bounds(t: Seq<char>, n: nat)
    requires
        n <= t.len(),
    ensures
        ({
            let (bold, start, prev, pending, spans) = mark_run(t, n);
            &&& 0 <= start <= n
            &&& 0 <= prev <= start || n > 0
            &&& 0 <= prev < n || n == 0
            &&& prev == 0 || n > 0
            &&& 0 <= pending <= 2
            &&& forall|k: int| 0 <= k < spans.len() ==> 0 <= #[trigger] spans[k].1 <= spans[k].2 <= n
                && spans[k].0 <= 1
        }),
    decreases n,
{
    if n > 0 {
        lemma_mark_run_bounds(t, (n - 1) as nat);
    }
}

/// Splits `**bold**` markup into spans: each span is the text between two
/// markers with code 1 when bold and 0 when not.
pub fn mark_str(txt: &str) -> (r: Vec<(usize, &str)>)
    ensures
        r.len() == mark_spans(txt@).len(),
        forall|k: int| 0 <= k < r.len() ==> (#[trigger] r@[k]).0 == mark_spans(txt@)[k].0
            && r@[k].1@ == mark_spans(txt@)[k].1,
{
    let chars = chars_of(txt);
    let n = chars.len();
    let ghost t = txt@;
    let mut spans: Vec<(usize, &str)> = Vec::new();
    let mut is_bold = false;
    let mut span_start: usize = 0;
    let mut prev_index: usize = 0;
    let mut pending: usize = 0;
    let mut i: usize = 0;
    while i < n
        invariant
            chars@ == t,
            t == txt@,
            n == t.len(),
            i <= n,
            mark_run(t, i as nat) == (is_bold, span_start as int, prev_index as int, pending as int,
                mark_run(t, i as nat).4),
            spans.len() == mark_run(t, i as nat).4.len(),
            forall|k: int| 0 <= k < spans.len() ==> {
                let sp = mark_run(t, i as nat).4[k];
                &&& (#[trigger] spans@[k]).0 == sp.0
                &&& spans@[k].1@ == t.subrange(sp.1, sp.2)
            },
        decreases n - i,
    {
        proof {
            lemma_mark_run_bounds(t, i as nat);
        }
        let c = chars[i];
        if pending == 1 {
            span_start = i;
            pending = 0;
        } else if pending > 1 {
            pending = pending - 1;
        }
        let marker = c == '*' && i + 1 < n && chars[i + 1] == '*';
        if marker {
            if prev_index > span_start {
                let code: usize = if is_bold { 1 } else { 0 };
                spans.push((code, txt.substring_char(span_start, i)));
            }
            pending = 2;
            is_bold = !is_bold;
        }
        prev_index = i;
        i = i + 1;
    }
    proof {
        lemma_mark_run_bounds(t, n as nat);
    }
    if prev_index > span_start && pending == 0 {
        let code: usize = if is_bold { 1 } else { 0 };
        spans.push((code, txt.substring_char(span_start, n)));
    }
    spans
}

proof fn lemma_plain_run(t: Seq<char>, n: nat)
    requires
        n <= t.len(),
        forall|i: int| !#[trigger] is_marker(t, i),
    ensures
        mark_run(t, n) == (false, 0int, if n == 0 { 0int } else { n - 1 }, 0int, Seq::<(usize, int, int)>::empty()),
    decreases n,
{
    if n > 0 {
        lemma_plain_run(t, (n - 1) as nat);
    }
}

/// Law: a text with no `**` marker and at least two characters is a
/// single normal span holding the whole text.
pub proof fn lemma_plain_text_single_span(t: Seq<char>)
    requires
        t.len() >= 2,
        forall|i: int| !#[trigger] is_marker(t, i),
    ensures
        mark_spans(t) == seq![(0usize, t)],
{
    lemma_plain_run(t, t.len());
    assert(t.subrange(0, t.len() as int) =~= t);
    assert(mark_spans(t) =~= seq![(0usize, t)]);
}

/// How many `**` markers start before position `n`.
pub open spec fn marker_count(t: Seq<char>, n: int) -> nat
    decreases n,
{
    if n <= 0 {
        0
    } else {
        marker_count(t, n - 1) + if is_marker(t, n - 1) { 1nat } else { 0nat }
    }
}

/// A span (code, from, to) as `mark_ranges` gives it: starting at the
/// beginning of the text or right after a `**` marker, at least two
/// characters long, ending where a marker starts or at the end of the text,
/// and bold exactly when an odd number of markers start before its end.
pub open spec fn well_placed_span(t: Seq<char>, sp: (usize, int, int)) -> bool {
    &&& 0 <= sp.1
    &&& sp.1 == 0 || (sp.1 >= 2 && is_marker(t, sp.1 - 2))
    &&& sp.2 - sp.1 >= 2
    &&& sp.2 <= t.len()
    &&& sp.2 == t.len() || is_marker(t, sp.2)
    &&& sp.0 == span_code(marker_count(t, sp.2) % 2 == 1)
}

proof fn lemma_mark_run_spans(t: Seq<char>, n: nat)
    requires
        n <= t.len(),
    ensures
        ({
            let (bold, start, prev, pending, spans) = mark_run(t, n);
            &&& bold == (marker_count(t, n as int) % 2 == 1)
            &&& prev == if n == 0 { 0 } else { n - 1 }
            &&& 0 <= start
            &&& start == 0 || (start >= 2 && is_marker(t, start - 2))
            &&& pending == 2 ==> n >= 1 && is_marker(t, n - 1)
            &&& pending == 1 ==> n >= 2 && is_marker(t, n - 2)
            &&& 0 <= pending <= 2
            &&& forall|k: int| 0 <= k < spans.len() ==> well_placed_span(t, #[trigger] spans[k]) && spans[k].2 < n
            &&& forall|k: int, l: int| 0 <= k < l < spans.len() ==> #[trigger] spans[k].2 < #[trigger] spans[l].2
        }),
    decreases n,
{
    if n > 0 {
        lemma_mark_run_spans(t, (n - 1) as nat);
        let i = n - 1;
        let (bold, start, prev, pending, spans) = mark_run(t, (n - 1) as nat);
        let start1 = if pending == 1 { i as int } else { start };
        assert(marker_count(t, n as int) == marker_count(t, i as int) + if is_marker(t, i as int) { 1nat } else { 0nat });
        if is_marker(t, i as int) && prev > start1 {
            let sp = (span_code(bold), start1, i as int);
            assert(mark_run(t, n).4 == spans.push(sp));
            assert(well_placed_span(t, sp));
        }
    }
}

/// Law: every span of `mark_str` starts at the beginning of the text or
/// right after a `**` marker and holds at least two characters; the spans
/// come in the order of their ends; each ends where a `**` marker starts or
/// at the end of the text; and a span is bold exactly when an odd number of
/// markers start before its end.
pub proof fn lemma_span_structure(t: Seq<char>)
    ensures
        forall|k: int| 0 <= k < mark_ranges(t).len() ==> well_placed_span(t, #[trigger] mark_ranges(t)[k]),
        forall|k: int, l: int| 0 <= k < l < mark_ranges(t).len() ==> #[trigger] mark_ranges(t)[k].2
            < #[trigger] mark_ranges(t)[l].2,
        mark_spans(t).len() == mark_ranges(t).len(),
        forall|k: int| 0 <= k < mark_spans(t).len() ==> #[trigger] mark_spans(t)[k] == (
            mark_ranges(t)[k].0,
            t.subrange(mark_ranges(t)[k].1, mark_ranges(t)[k].2),
        ),
{
    lemma_mark_run_spans(t, t.len());
    let (bold, start, prev, pending, spans) = mark_run(t, t.len());
    if prev > start && pending == 0 {
        let sp = (span_code(bold), start, t.len() as int);
        assert(mark_ranges(t) == spans.push(sp));
        assert(well_placed_span(t, sp));
    }
}

/// The characters that occur in some of the texts.
pub open spec fn chars_in(texts: Seq<Seq<char>>) -> Set<char> {
    Set::new(|c: char| exists|i: int| 0 <= i < texts.len() && #[trigger] texts[i].contains(c))
}

/// Every character comes before the next one: sorted, without repeats.
pub open spec fn strictly_sorted(s: Seq<char>) -> bool {
    forall|i: int, j: int| 0 <= i < j < s.len() ==> #[trigger] s[i] < #[trigger] s[j]
}

/// The views of the texts.
pub open spec fn texts_view(texts: Seq<String>) -> Seq<Seq<char>> {
    texts.map_values(|t: String| t@)
}

/// Adds `c` to a sorted, repeat-free list, keeping it so.
fn insert_sorted(list: &mut Vec<char>, c: char)
    requires
        strictly_sorted(old(list)@),
    ensures
        strictly_sorted(final(list)@),
        final(list)@.to_set() == old(list)@.to_set().insert(c),
{
    let ghost before = list@;
    let mut j: usize = 0;
    while j < list.len() && list[j] < c
        invariant
            j <= list.len(),
            list@ == before,
            forall|m: int| 0 <= m < j ==> #[trigger] list@[m] < c,
        decreases list.len() - j,
    {
        j = j + 1;
    }
    if j < list.len() && list[j] == c {
        assert(before.to_set().insert(c) =~= list@.to_set()) by {
            assert(list@[j as int] == c);
        }
        return;
    }
    assert(forall|m: int| j <= m < before.len() ==> c < #[trigger] before[m]) by {
        assert forall|m: int| j <= m < before.len() implies c < #[trigger] before[m] by {
            if m > j {
                assert(before[j as int] < before[m]);
            }
        }
    }
    list.insert(j, c);
    proof {
        let after = list@;
        assert(after =~= before.insert(j as int, c));
        assert forall|a: int, b: int| 0 <= a < b < after.len() implies #[trigger] after[a] < #[trigger] after[b] by {
            if b < j {
            } else if b == j {
            } else if a < j {
                assert(after[b] == before[b - 1]);
            } else if a == j {
                assert(after[b] == before[b - 1]);
            } else {
                assert(after[a] == before[a - 1]);
                assert(after[b] == before[b - 1]);
            }
        }
        assert forall|x: char| after.contains(x) <==> before.to_set().insert(c).contains(x) by {
            if before.contains(x) {
                let m = choose|m: int| 0 <= m < before.len() && before[m] == x;
                if m < j {
                    assert(after[m] == x);
                } else {
                    assert(after[m + 1] == x);
                }
            }
            if x == c {
                assert(after[j as int] == c);
            }
            if after.contains(x) {
                let m = choose|m: int| 0 <= m < after.len() && after[m] == x;
                if m < j {
                    assert(before[m] == x);
                } else if m > j {
                    assert(before[m - 1] == x);
                }
            }
        }
        assert(after.to_set() =~= before.to_set().insert(c));
    }
}

/// The alphabet of the texts: their characters, each once, in ascending
/// order.
pub open spec fn scenario_alphabet(texts: Seq<Seq<char>>) -> Seq<char> {
    choose|s: Seq<char>| strictly_sorted(s) && s.to_set() == chars_in(texts)
}

/// The characters of the scenario's texts, each once, in ascending order:
/// the alphabet a font subset has to keep.
pub fn get_scenario_chars(texts: &[String]) -> (r: String)
    ensures
        strictly_sorted(r@),
        r@.to_set() == chars_in(texts_view(texts@)),
        r@ == scenario_alphabet(texts_view(texts@)),
{
    let mut chars: Vec<char> = Vec::new();
    let ghost tv = texts_view(texts@);
    let mut i: usize = 0;
    while i < texts.len()
        invariant
            i <= texts.len(),
            tv == texts_view(texts@),
            strictly_sorted(chars@),
            chars@.to_set() == chars_in(tv.take(i as int)),
        decreases texts.len() - i,
    {
        let text_chars = chars_of(texts[i].as_str());
        let mut j: usize = 0;
        while j < text_chars.len()
            invariant
                i < texts.len(),
                j <= text_chars.len(),
                text_chars@ == tv[i as int],
                tv == texts_view(texts@),
                strictly_sorted(chars@),
                chars@.to_set() == chars_in(tv.take(i as int)).union(text_chars@.take(j as int).to_set()),
            decreases text_chars.len() - j,
        {
            insert_sorted(&mut chars, text_chars[j]);
            proof {
                assert(text_chars@.take(j + 1) =~= text_chars@.take(j as int).push(text_chars@[j as int]));
                text_chars@.take(j as int).lemma_push_to_set_commute(text_chars@[j as int]);
                assert(chars@.to_set() =~= chars_in(tv.take(i as int)).union(text_chars@.take(j + 1).to_set()));
            }
            j = j + 1;
        }
        proof {
            assert(text_chars@.take(j as int) =~= text_chars@);
            lemma_chars_in_step(tv, i as int);
            assert(chars@.to_set() =~= chars_in(tv.take(i + 1)));
        }
        i = i + 1;
    }
    assert(tv.take(i as int) =~= tv);
    proof {
        let a = scenario_alphabet(tv);
        assert(strictly_sorted(chars@) && chars@.to_set() == chars_in(tv));
        lemma_strictly_sorted_unique(chars@, a);
    }
    string_of_chars(&chars)
}

/// Adds `c` at the end of a repeat-free list unless it is already there.
fn push_if_absent(list: &mut Vec<char>, c: char)
    requires
        old(list)@.no_duplicates(),
    ensures
        final(list)@.no_duplicates(),
        final(list)@.to_set() == old(list)@.to_set().insert(c),
{
    let mut j: usize = 0;
    while j < list.len()
        invariant
            j <= list.len(),
            list@ == old(list)@,
            old(list)@.no_duplicates(),
            forall|m: int| 0 <= m < j ==> #[trigger] list@[m] != c,
        decreases list.len() - j,
    {
        if list[j] == c {
            assert(old(list)@.to_set().insert(c) =~= list@.to_set()) by {
                assert(list@[j as int] == c);
            }
            return;
        }
        j = j + 1;
    }
    let ghost before = list@;
    list.push(c);
    proof {
        before.lemma_push_to_set_commute(c);
    }
}

/// The letters of the scenario's texts, each once. The order is not
/// specified (the engine collects them through a hash set); this one keeps
/// first occurrences.
pub fn scenario_letters(texts: &[String]) -> (r: String)
    ensures
        r@.no_duplicates(),
        r@.to_set() == chars_in(texts_view(texts@)),
{
    let mut letters: Vec<char> = Vec::new();
    let ghost tv = texts_view(texts@);
    let mut i: usize = 0;
    while i < texts.len()
        invariant
            i <= texts.len(),
            tv == texts_view(texts@),
            letters@.no_duplicates(),
            letters@.to_set() == chars_in(tv.take(i as int)),
        decreases texts.len() - i,
    {
        let text_chars = chars_of(texts[i].as_str());
        let mut j: usize = 0;
        while j < text_chars.len()
            invariant
                i < texts.len(),
                j <= text_chars.len(),
                text_chars@ == tv[i as int],
                tv == texts_view(texts@),
                letters@.no_duplicates(),
                letters@.to_set() == chars_in(tv.take(i as int)).union(text_chars@.take(j as int).to_set()),
            decreases text_chars.len() - j,
        {
            push_if_absent(&mut letters, text_chars[j]);
            proof {
                assert(text_chars@.take(j + 1) =~= text_chars@.take(j as int).push(text_chars@[j as int]));
                text_chars@.take(j as int).lemma_push_to_set_commute(text_chars@[j as int]);
                assert(letters@.to_set() =~= chars_in(tv.take(i as int)).union(text_chars@.take(j + 1).to_set()));
            }
            j = j + 1;
        }
        proof {
            assert(text_chars@.take(j as int) =~= text_chars@);
            lemma_chars_in_step(tv, i as int);
            assert(letters@.to_set() =~= chars_in(tv.take(i + 1)));
        }
        i = i + 1;
    }
    assert(tv.take(i as int) =~= tv);
    string_of_chars(&letters)
}

proof fn lemma_chars_in_step(tv: Seq<Seq<char>>, i: int)
    requires
        0 <= i < tv.len(),
    ensures
        chars_in(tv.take(i + 1)) == chars_in(tv.take(i)).union(tv[i].to_set()),
{
    assert forall|c: char| #[trigger] chars_in(tv.take(i + 1)).contains(c) <==> chars_in(tv.take(i)).union(tv[i].to_set()).contains(c) by {
        if chars_in(tv.take(i + 1)).contains(c) {
            let k = choose|k: int| 0 <= k < i + 1 && #[trigger] tv.take(i + 1)[k].contains(c);
            if k < i {
                assert(tv.take(i)[k].contains(c));
            }
        }
        if chars_in(tv.take(i)).contains(c) {
            let k = choose|k: int| 0 <= k < i && #[trigger] tv.take(i)[k].contains(c);
            assert(tv.take(i + 1)[k].contains(c));
        }
        if tv[i].contains(c) {
            assert(tv.take(i + 1)[i].contains(c));
        }
    }
    assert(chars_in(tv.take(i + 1)) =~= chars_in(tv.take(i)).union(tv[i].to_set()));
}

/// Law: a sorted, repeat-free list of characters is fixed by its set of
/// characters. So the alphabet `get_scenario_chars` returns depends only on
/// which characters the texts use, not on their order or repetitions.
pub proof fn lemma_strictly_sorted_unique(a: Seq<char>, b: Seq<char>)
    requires
        strictly_sorted(a),
        strictly_sorted(b),
        a.to_set() == b.to_set(),
    ensures
        a == b,
    decreases a.len(),
{
    if a.len() == 0 {
        if b.len() > 0 {
            assert(b.to_set().contains(b[0]));
        }
        assert(a =~= b);
    } else if b.len() == 0 {
        assert(a.to_set().contains(a[0]));
    } else {
        assert(b.to_set().contains(a[0]));
        assert(a.to_set().contains(b[0]));
        let k = choose|k: int| 0 <= k < b.len() && b[k] == a[0];
        let m = choose|m: int| 0 <= m < a.len() && a[m] == b[0];
        if k > 0 {
            assert(b[0] < b[k]);
        }
        if m > 0 {
            assert(a[0] < a[m]);
        }
        assert(a[0] == b[0]);
        let a1 = a.drop_first();
        let b1 = b.drop_first();
        assert forall|x: char| a1.to_set().contains(x) <==> b1.to_set().contains(x) by {
            if a1.contains(x) {
                let i = choose|i: int| 0 <= i < a1.len() && a1[i] == x;
                assert(a[i + 1] == x && a[0] < a[i + 1]);
                assert(b.to_set().contains(x));
                let j = choose|j: int| 0 <= j < b.len() && b[j] == x;
                assert(j != 0);
                assert(b1[j - 1] == x);
            }
            if b1.contains(x) {
                let i = choose|i: int| 0 <= i < b1.len() && b1[i] == x;
                assert(b[i + 1] == x && b[0] < b[i + 1]);
                assert(a.to_set().contains(x));
                let j = choose|j: int| 0 <= j < a.len() && a[j] == x;
                assert(j != 0);
                assert(a1[j - 1] == x);
            }
        }
        assert(a1.to_set() =~= b1.to_set());
        lemma_strictly_sorted_unique(a1, b1);
        assert(a =~= b) by {
            assert forall|i: int| 0 <= i < a.len() implies a[i] == b[i] by {
                if i > 0 {
                    assert(a[i] == a1[i - 1]);
                    assert(b[i] == b1[i - 1]);
                }
            }
        }
    }
}

} // verus!
