//! The order of the entries of a directory.

use crate::codec::{self, to_lowercase};
use crate::model::{PathItem, PathItemView, PathType};
use crate::query::{self, Query};
use crate::text::{chars_of, Text};
use vstd::prelude::*;
use vstd::seq_lib::*;

verus! {

/// What entries of one type are ordered by.
#[derive(Clone, Copy, PartialEq, Eq, Structural)]
pub enum SortKey {
    Name,
    Mtime,
    Size,
}

/// An entry with its name in lower case.
pub struct Ranked {
    pub item: PathItem,
    pub lowered: String,
}

/// An entry with its name in lower case.
pub struct RankedView {
    pub item: PathItemView,
    pub lowered: Text,
}

impl View for Ranked {
    type V = RankedView;

    open spec fn view(&self) -> RankedView {
        RankedView { item: self.item@, lowered: self.lowered@ }
    }
}

impl DeepView for Ranked {
    type V = RankedView;

    open spec fn deep_view(&self) -> RankedView {
        self@
    }
}

/// Comes before in the dictionary, letter by letter in the order of the code points, which is also
/// that of the bytes in UTF-8.
pub open spec fn text_less(a: Text, b: Text) -> bool
    decreases a.len(),
{
    if b.len() == 0 {
        false
    } else if a.len() == 0 {
        true
    } else if a[0] != b[0] {
        a[0] < b[0]
    } else {
        text_less(a.skip(1), b.skip(1))
    }
}

/// Directories come before files.
pub open spec fn type_rank(t: PathType) -> int {
    match t {
        PathType::Dir => 0,
        PathType::File => 1,
    }
}

/// `a` has to come before `b`: by type first, then by the key. Of names the lower case counts.
pub open spec fn comes_before(a: RankedView, b: RankedView, by: SortKey) -> bool {
    let (x, y) = (a.item, b.item);
    if type_rank(x.path_type) != type_rank(y.path_type) {
        type_rank(x.path_type) < type_rank(y.path_type)
    } else {
        match by {
            SortKey::Name => text_less(a.lowered, b.lowered),
            SortKey::Mtime => x.mtime < y.mtime,
            SortKey::Size => x.size < y.size,
        }
    }
}

/// How many entries at the start of `items` have to come before `item`.
pub open spec fn place_of(items: Seq<RankedView>, item: RankedView, by: SortKey) -> int
    decreases items.len(),
{
    if items.len() > 0 && comes_before(items[0], item, by) {
        1 + place_of(items.skip(1), item, by)
    } else {
        0
    }
}

/// The entries in order; those that neither has to come before the other keep their order.
pub open spec fn sorted_ranked(items: Seq<RankedView>, by: SortKey) -> Seq<RankedView>
    decreases items.len(),
{
    if items.len() == 0 {
        items
    } else {
        let rest = sorted_ranked(items.skip(1), by);
        rest.insert(place_of(rest, items[0], by), items[0])
    }
}

/// The entries with their names in lower case.
pub open spec fn ranked(items: Seq<PathItemView>) -> Seq<RankedView> {
    Seq::new(
        items.len(),
        |i: int| RankedView { item: items[i], lowered: codec::unicode_lowercase(items[i].name) },
    )
}

/// The entries without the lower case of their names.
pub open spec fn unranked(items: Seq<RankedView>) -> Seq<PathItemView> {
    Seq::new(items.len(), |i: int| items[i].item)
}

/// The entries in order; see `sorted_ranked`.
pub open spec fn sorted(items: Seq<PathItemView>, by: SortKey) -> Seq<PathItemView> {
    unranked(sorted_ranked(ranked(items), by))
}

/// What the query asks the entries to be ordered by.
pub open spec fn requested_key(params: Seq<(Text, Text)>) -> SortKey {
    let asked = query::lookup(params, "sort"@);
    if asked == Some("mtime"@) {
        SortKey::Mtime
    } else if asked == Some("size"@) {
        SortKey::Size
    } else {
        SortKey::Name
    }
}

/// The entries in the order that the query asks for.
pub open spec fn arranged(
    items: Seq<PathItemView>,
    params: Seq<(Text, Text)>,
) -> Seq<PathItemView> {
    let up = sorted(items, requested_key(params));
    if query::lookup(params, "order"@) == Some("desc"@) {
        up.reverse()
    } else {
        up
    }
}

// ---------------------------------------------------------------------------
// The order is an order
// ---------------------------------------------------------------------------

proof fn lemma_text_less_irreflexive(a: Text)
    ensures
        !text_less(a, a),
    decreases a.len(),
{
    if a.len() > 0 {
        lemma_text_less_irreflexive(a.skip(1));
    }
}

proof fn lemma_text_less_transitive(a: Text, b: Text, c: Text)
    requires
        text_less(a, b),
        text_less(b, c),
    ensures
        text_less(a, c),
    decreases a.len(),
{
    if a.len() > 0 && a[0] == b[0] && b[0] == c[0] {
        lemma_text_less_transitive(a.skip(1), b.skip(1), c.skip(1));
    }
}

proof fn lemma_text_less_connected(a: Text, b: Text)
    requires
        !text_less(a, b),
        !text_less(b, a),
    ensures
        a == b,
    decreases a.len(),
{
    if a.len() > 0 && b.len() > 0 {
        lemma_text_less_connected(a.skip(1), b.skip(1));
        assert(a =~= seq![a[0]] + a.skip(1));
        assert(b =~= seq![b[0]] + b.skip(1));
    } else {
        assert(a =~= b);
    }
}

/// If `a` comes before `b`, then every third entry comes after `a` or before `b`.
proof fn lemma_order_is_weak(a: RankedView, b: RankedView, c: RankedView, by: SortKey)
    requires
        comes_before(a, b, by),
    ensures
        comes_before(a, c, by) || comes_before(c, b, by),
{
    let (la, lb, lc) = (a.lowered, b.lowered, c.lowered);
    if text_less(la, lb) && !text_less(la, lc) && !text_less(lc, lb) {
        if text_less(lc, la) {
            lemma_text_less_transitive(lc, la, lb);
        } else {
            lemma_text_less_connected(la, lc);
        }
    }
}

/// No entry of the sequence has to come before one that stands ahead of it.
pub open spec fn is_ordered(items: Seq<RankedView>, by: SortKey) -> bool {
    forall|i: int, j: int|
        0 <= i < j < items.len() ==> !comes_before(#[trigger] items[j], #[trigger] items[i], by)
}

proof fn lemma_place_of(items: Seq<RankedView>, item: RankedView, by: SortKey)
    ensures
        0 <= place_of(items, item, by) <= items.len(),
        forall|i: int|
            0 <= i < place_of(items, item, by) ==> comes_before(#[trigger] items[i], item, by),
        place_of(items, item, by) < items.len() ==> !comes_before(
            items[place_of(items, item, by)],
            item,
            by,
        ),
    decreases items.len(),
{
    if items.len() > 0 && comes_before(items[0], item, by) {
        let rest = items.skip(1);
        lemma_place_of(rest, item, by);
        let n = place_of(items, item, by);
        assert forall|i: int| 0 <= i < n implies comes_before(#[trigger] items[i], item, by) by {
            if i > 0 {
                assert(items[i] == rest[i - 1]);
            }
        }
        if n < items.len() {
            assert(items[n] == rest[n - 1]);
        }
    }
}

proof fn lemma_place_of_is(items: Seq<RankedView>, item: RankedView, by: SortKey, n: int)
    requires
        0 <= n <= items.len(),
        forall|i: int| 0 <= i < n ==> comes_before(#[trigger] items[i], item, by),
        n < items.len() ==> !comes_before(items[n], item, by),
    ensures
        place_of(items, item, by) == n,
{
    lemma_place_of(items, item, by);
    let m = place_of(items, item, by);
    if m < n {
        assert(comes_before(items[m], item, by));
    } else if m > n {
        assert(comes_before(items[n], item, by));
    }
}

/// In an ordered sequence everything behind the place does not come before the item.
proof fn lemma_behind_the_place(
    items: Seq<RankedView>,
    item: RankedView,
    by: SortKey,
    at: int,
    i: int,
)
    requires
        is_ordered(items, by),
        0 <= at <= i < items.len(),
        !comes_before(items[at], item, by),
    ensures
        !comes_before(items[i], item, by),
{
    if comes_before(items[i], item, by) && at < i {
        lemma_order_is_weak(items[i], item, items[at], by);
    }
}

/// In an ordered sequence everything ahead of an entry that comes before the item does so too.
proof fn lemma_ahead_of_the_place(
    items: Seq<RankedView>,
    item: RankedView,
    by: SortKey,
    at: int,
    i: int,
)
    requires
        is_ordered(items, by),
        0 <= i <= at < items.len(),
        comes_before(items[at], item, by),
    ensures
        comes_before(items[i], item, by),
{
    if i < at {
        lemma_order_is_weak(items[at], item, items[i], by);
    }
}

proof fn lemma_sorted_len(items: Seq<RankedView>, by: SortKey)
    ensures
        sorted_ranked(items, by).len() == items.len(),
    decreases items.len(),
{
    if items.len() > 0 {
        let rest = sorted_ranked(items.skip(1), by);
        lemma_sorted_len(items.skip(1), by);
        lemma_place_of(rest, items[0], by);
    }
}

/// Sorting puts the entries in order: directories ahead of files, and within each type by the
/// key, smallest first.
pub proof fn law_sorting_orders(items: Seq<RankedView>, by: SortKey)
    ensures
        is_ordered(sorted_ranked(items, by), by),
        forall|i: int, j: int|
            0 <= i < j < sorted_ranked(items, by).len() && (#[trigger] sorted_ranked(items, by)[j]).item.path_type
                == PathType::Dir ==> (#[trigger] sorted_ranked(items, by)[i]).item.path_type
                == PathType::Dir,
    decreases items.len(),
{
    if items.len() > 0 {
        let item = items[0];
        let rest = sorted_ranked(items.skip(1), by);
        law_sorting_orders(items.skip(1), by);
        lemma_place_of(rest, item, by);
        let n = place_of(rest, item, by);
        let all = rest.insert(n, item);
        assert forall|i: int, j: int| 0 <= i < j < all.len() implies !comes_before(
            #[trigger] all[j],
            #[trigger] all[i],
            by,
        ) by {
            if j == n {
                // `all[i]` comes before the item, so the item cannot come before it.
                lemma_no_cycle(rest[i], item, by);
            } else if i == n {
                lemma_behind_the_place(rest, item, by, n, j - 1);
            } else {
                let a = if i < n { i } else { i - 1 };
                let b = if j < n { j } else { j - 1 };
                assert(all[i] == rest[a]);
                assert(all[j] == rest[b]);
            }
        }
    }
}

proof fn lemma_no_cycle(a: RankedView, b: RankedView, by: SortKey)
    requires
        comes_before(a, b, by),
    ensures
        !comes_before(b, a, by),
{
    let (la, lb) = (a.lowered, b.lowered);
    if text_less(la, lb) && text_less(lb, la) {
        lemma_text_less_transitive(la, lb, la);
        lemma_text_less_irreflexive(la);
    }
}

/// Sorting keeps every entry, as often as it was there.
pub proof fn law_sorting_keeps_every_entry(items: Seq<RankedView>, by: SortKey)
    ensures
        sorted_ranked(items, by).to_multiset() == items.to_multiset(),
    decreases items.len(),
{
    if items.len() > 0 {
        let rest = sorted_ranked(items.skip(1), by);
        law_sorting_keeps_every_entry(items.skip(1), by);
        lemma_place_of(rest, items[0], by);
        broadcast use vstd::seq_lib::group_to_multiset_ensures;

        let n = place_of(rest, items[0], by);
        assert(rest.insert(n, items[0]).to_multiset() =~= rest.to_multiset().insert(items[0]));
        assert(items =~= seq![items[0]] + items.skip(1));
        assert(items.skip(1).insert(0, items[0]) =~= items);
        assert(items.to_multiset() =~= items.skip(1).to_multiset().insert(items[0]));
    }
}

proof fn lemma_sorted_keeps(items: Seq<PathItemView>, by: SortKey)
    ensures
        sorted(items, by).to_multiset() == items.to_multiset(),
    decreases items.len(),
{
    let all = ranked(items);
    if items.len() == 0 {
        assert(sorted(items, by) =~= items);
    } else {
        assert(all.skip(1) =~= ranked(items.skip(1)));
        lemma_sorted_keeps(items.skip(1), by);
        let rest = sorted_ranked(all.skip(1), by);
        lemma_place_of(rest, all[0], by);
        let n = place_of(rest, all[0], by);
        assert(unranked(rest.insert(n, all[0])) =~= unranked(rest).insert(n, items[0]));
        broadcast use vstd::seq_lib::group_to_multiset_ensures;

        assert(unranked(rest).insert(n, items[0]).to_multiset() =~= unranked(
            rest,
        ).to_multiset().insert(items[0]));
        assert(items.skip(1).insert(0, items[0]) =~= items);
        assert(items.to_multiset() =~= items.skip(1).to_multiset().insert(items[0]));
    }
}

/// Whatever order the query asks for, every entry is kept, as often as it was there.
pub proof fn law_arranging_keeps_every_entry(
    items: Seq<PathItemView>,
    params: Seq<(Text, Text)>,
)
    ensures
        arranged(items, params).to_multiset() == items.to_multiset(),
{
    let up = sorted(items, requested_key(params));
    lemma_sorted_keeps(items, requested_key(params));
    up.lemma_reverse_to_multiset();
}

/// Neither entry has to come before the other.
pub open spec fn ties_with(x: RankedView, by: SortKey) -> spec_fn(RankedView) -> bool {
    |y: RankedView| !comes_before(x, y, by) && !comes_before(y, x, by)
}

/// Neither of two entries has to come before the other exactly if they are of one type and have the
/// same key: the same size, the same time, or the same name in lower case.
pub proof fn law_ties_have_the_same_key(x: RankedView, y: RankedView, by: SortKey)
    ensures
        (ties_with(x, by))(y) <==> x.item.path_type == y.item.path_type && match by {
            SortKey::Name => x.lowered == y.lowered,
            SortKey::Mtime => x.item.mtime == y.item.mtime,
            SortKey::Size => x.item.size == y.item.size,
        },
{
    if !text_less(x.lowered, y.lowered) && !text_less(y.lowered, x.lowered) {
        lemma_text_less_connected(x.lowered, y.lowered);
    }
    lemma_text_less_irreflexive(x.lowered);
}

/// The first text stands ahead of the second in a dictionary: where they first differ its letter is
/// the smaller one, or it ends there.
pub open spec fn precedes(a: Text, b: Text) -> bool {
    exists|n: int| #[trigger] differ_at(a, b, n)
}

/// The two texts agree up to `n`, and there the first has the smaller letter or its end.
pub open spec fn differ_at(a: Text, b: Text, n: int) -> bool {
    &&& 0 <= n <= a.len()
    &&& n < b.len()
    &&& a.take(n) == b.take(n)
    &&& n < a.len() ==> a[n] < b[n]
}

/// Names are compared as in a dictionary, by the numbers of their letters.
pub proof fn law_names_are_compared_as_in_a_dictionary(a: Text, b: Text)
    ensures
        text_less(a, b) <==> precedes(a, b),
    decreases a.len(),
{
    if b.len() == 0 {
    } else if a.len() == 0 {
        assert(a.take(0) =~= b.take(0));
        assert(differ_at(a, b, 0));
    } else if a[0] != b[0] {
        assert(a.take(0) =~= b.take(0));
        if a[0] < b[0] {
            assert(differ_at(a, b, 0));
        }
        if precedes(a, b) {
            let n = choose|n: int| #[trigger] differ_at(a, b, n);
            if n > 0 {
                assert(a.take(n)[0] == b.take(n)[0]);
            }
        }
    } else {
        let (x, y) = (a.skip(1), b.skip(1));
        law_names_are_compared_as_in_a_dictionary(x, y);
        if precedes(x, y) {
            let n = choose|n: int| #[trigger] differ_at(x, y, n);
            let (p, q) = (a.take(n + 1), b.take(n + 1));
            assert forall|i: int| 0 <= i < n + 1 implies p[i] == q[i] by {
                if i > 0 {
                    assert(x.take(n)[i - 1] == y.take(n)[i - 1]);
                }
            }
            assert(a.take(n + 1) =~= b.take(n + 1));
            assert(differ_at(a, b, n + 1));
        }
        if precedes(a, b) {
            let n = choose|n: int| #[trigger] differ_at(a, b, n);
            assert(n > 0);
            let (p, q) = (x.take(n - 1), y.take(n - 1));
            assert forall|i: int| 0 <= i < n - 1 implies p[i] == q[i] by {
                assert(a.take(n)[i + 1] == b.take(n)[i + 1]);
            }
            assert(x.take(n - 1) =~= y.take(n - 1));
            assert(differ_at(x, y, n - 1));
        }
    }
}

/// The entries come in this order: directories ahead of files, and within each type by the key,
/// smallest first; of names the lower case counts.
pub open spec fn comes_in_order(items: Seq<PathItemView>, by: SortKey) -> bool {
    forall|i: int, j: int|
        0 <= i < j < items.len() ==> {
            let (x, y) = (#[trigger] items[i], #[trigger] items[j]);
            &&& y.path_type == PathType::Dir ==> x.path_type == PathType::Dir
            &&& x.path_type == y.path_type ==> match by {
                SortKey::Name => !precedes(
                    codec::unicode_lowercase(y.name),
                    codec::unicode_lowercase(x.name),
                ),
                SortKey::Mtime => x.mtime <= y.mtime,
                SortKey::Size => x.size <= y.size,
            }
        }
}

proof fn lemma_sorted_in_order(items: Seq<PathItemView>, by: SortKey)
    ensures
        comes_in_order(sorted(items, by), by),
        sorted(items, by).len() == items.len(),
{
    let all = ranked(items);
    let up = sorted_ranked(all, by);
    law_sorting_orders(all, by);
    law_sorting_keeps_every_entry(all, by);
    broadcast use vstd::seq_lib::group_to_multiset_ensures;

    assert(up.to_multiset().len() == all.to_multiset().len());
    assert forall|i: int| 0 <= i < up.len() implies (#[trigger] up[i]).lowered
        == codec::unicode_lowercase(up[i].item.name) by {
        assert(up.contains(up[i]));
        assert(up.to_multiset().count(up[i]) > 0);
        assert(all.contains(up[i]));
        let k = choose|k: int| 0 <= k < all.len() && all[k] == up[i];
        assert(all[k].lowered == codec::unicode_lowercase(items[k].name));
    }
    let out = sorted(items, by);
    assert forall|i: int, j: int| 0 <= i < j < out.len() implies {
        let (x, y) = (#[trigger] out[i], #[trigger] out[j]);
        &&& y.path_type == PathType::Dir ==> x.path_type == PathType::Dir
        &&& x.path_type == y.path_type ==> match by {
            SortKey::Name => !precedes(
                codec::unicode_lowercase(y.name),
                codec::unicode_lowercase(x.name),
            ),
            SortKey::Mtime => x.mtime <= y.mtime,
            SortKey::Size => x.size <= y.size,
        }
    } by {
        let (x, y) = (up[i], up[j]);
        assert(!comes_before(y, x, by));
        law_names_are_compared_as_in_a_dictionary(y.lowered, x.lowered);
    }
}

/// Entries come in the order that the query asks for: by size with `sort=size`, by time with
/// `sort=mtime`, by name otherwise; and the other way round with `order=desc`.
pub proof fn law_entries_come_in_the_order_asked_for(
    items: Seq<PathItemView>,
    params: Seq<(Text, Text)>,
)
    ensures
        ({
            let by = if query::lookup(params, "sort"@) == Some("size"@) {
                SortKey::Size
            } else if query::lookup(params, "sort"@) == Some("mtime"@) {
                SortKey::Mtime
            } else {
                SortKey::Name
            };
            let out = arranged(items, params);
            &&& out.len() == items.len()
            &&& query::lookup(params, "order"@) == Some("desc"@) ==> comes_in_order(
                out.reverse(),
                by,
            )
            &&& query::lookup(params, "order"@) != Some("desc"@) ==> comes_in_order(out, by)
        }),
{
    reveal_strlit("size");
    reveal_strlit("mtime");
    assert("size"@.len() != "mtime"@.len());
    let up = sorted(items, requested_key(params));
    lemma_sorted_in_order(items, requested_key(params));
    assert(up.reverse().reverse() =~= up);
}

/// The page of a shared directory has its entries by type and name.
pub proof fn law_sorting_by_name_orders(items: Seq<PathItemView>)
    ensures
        comes_in_order(sorted(items, SortKey::Name), SortKey::Name),
        sorted(items, SortKey::Name).to_multiset() == items.to_multiset(),
{
    lemma_sorted_in_order(items, SortKey::Name);
    lemma_sorted_keeps(items, SortKey::Name);
}

/// Sorting is stable: entries of the same rank stay in the order in which they came.
pub proof fn law_sorting_is_stable(items: Seq<RankedView>, by: SortKey, x: RankedView)
    ensures
        sorted_ranked(items, by).filter(ties_with(x, by)) == items.filter(ties_with(x, by)),
    decreases items.len(),
{
    if items.len() > 0 {
        let item = items[0];
        let tie = ties_with(x, by);
        let rest = sorted_ranked(items.skip(1), by);
        law_sorting_is_stable(items.skip(1), by, x);
        lemma_place_of(rest, item, by);
        let n = place_of(rest, item, by);
        let (front, back) = (rest.take(n), rest.skip(n));
        assert(rest =~= front + back);
        assert(rest.insert(n, item) =~= front + (seq![item] + back));
        assert(items =~= seq![item] + items.skip(1));
        Seq::filter_distributes_over_add(front, seq![item] + back, tie);
        Seq::filter_distributes_over_add(seq![item], back, tie);
        Seq::filter_distributes_over_add(front, back, tie);
        Seq::filter_distributes_over_add(seq![item], items.skip(1), tie);
        if tie(item) {
            assert forall|i: int| 0 <= i < front.len() implies !tie(#[trigger] front[i]) by {
                assert(comes_before(rest[i], item, by));
                lemma_order_is_weak(rest[i], item, x, by);
            }
            lemma_nothing_stays(front, tie);
            assert(front.filter(tie) =~= Seq::empty());
        } else {
            lemma_nothing_stays(seq![item], tie);
            assert(seq![item].filter(tie) =~= Seq::empty());
        }
        assert(sorted_ranked(items, by).filter(tie) =~= items.filter(tie));
    }
}

proof fn lemma_nothing_stays(items: Seq<RankedView>, pred: spec_fn(RankedView) -> bool)
    requires
        forall|i: int| 0 <= i < items.len() ==> !pred(#[trigger] items[i]),
    ensures
        items.filter(pred).len() == 0,
    decreases items.len(),
{
    reveal(Seq::filter);
    if items.len() > 0 {
        lemma_nothing_stays(items.drop_last(), pred);
    }
}

// ---------------------------------------------------------------------------
// The functions
// ---------------------------------------------------------------------------

fn chars_less(a: &Vec<char>, b: &Vec<char>) -> (r: bool)
    ensures
        r == text_less(a@, b@),
{
    let mut i: usize = 0;
    assert(a@.skip(0) =~= a@);
    assert(b@.skip(0) =~= b@);
    loop
        invariant
            i <= a@.len(),
            i <= b@.len(),
            text_less(a@, b@) == text_less(a@.skip(i as int), b@.skip(i as int)),
        decreases a@.len() - i,
    {
        if i == b.len() {
            return false;
        }
        if i == a.len() {
            return true;
        }
        if a[i] != b[i] {
            return a[i] < b[i];
        }
        assert(a@.skip(i as int).skip(1) =~= a@.skip(i + 1));
        assert(b@.skip(i as int).skip(1) =~= b@.skip(i + 1));
        i += 1;
    }
}

/// An entry with the letters of its lower-case name.
struct Lettered {
    ranked: Ranked,
    letters: Vec<char>,
}

spec fn is_lettered(r: Lettered) -> bool {
    r.letters@ == r.ranked@.lowered
}

spec fn items_of(all: Seq<Lettered>) -> Seq<RankedView> {
    all.map_values(|r: Lettered| r.ranked@)
}

fn lettered_before(a: &Lettered, b: &Lettered, by: SortKey) -> (r: bool)
    requires
        is_lettered(*a),
        is_lettered(*b),
    ensures
        r == comes_before(a.ranked@, b.ranked@, by),
{
    let (x, y) = (&a.ranked.item, &b.ranked.item);
    let x_dir = x.is_dir();
    let y_dir = y.is_dir();
    if x_dir != y_dir {
        return x_dir;
    }
    match by {
        SortKey::Name => chars_less(&a.letters, &b.letters),
        SortKey::Mtime => x.mtime < y.mtime,
        SortKey::Size => x.size < y.size,
    }
}

fn find_place(all: &Vec<Lettered>, item: &Lettered, by: SortKey) -> (r: usize)
    requires
        forall|i: int| 0 <= i < all@.len() ==> is_lettered(#[trigger] all@[i]),
        is_lettered(*item),
        is_ordered(items_of(all@), by),
    ensures
        r == place_of(items_of(all@), item.ranked@, by),
        r <= all@.len(),
{
    let ghost items = items_of(all@);
    let mut low: usize = 0;
    let mut high: usize = all.len();
    while low < high
        invariant
            low <= high <= all@.len(),
            items == items_of(all@),
            is_ordered(items, by),
            is_lettered(*item),
            forall|i: int| 0 <= i < all@.len() ==> is_lettered(#[trigger] all@[i]),
            forall|i: int| 0 <= i < low ==> comes_before(#[trigger] items[i], item.ranked@, by),
            forall|i: int|
                high <= i < items.len() ==> !comes_before(#[trigger] items[i], item.ranked@, by),
        decreases high - low,
    {
        let middle: usize = low + (high - low) / 2;
        assert(items[middle as int] == all@[middle as int].ranked@);
        if lettered_before(&all[middle], item, by) {
            proof {
                assert forall|i: int| 0 <= i < middle + 1 implies comes_before(
                    #[trigger] items[i],
                    item.ranked@,
                    by,
                ) by {
                    lemma_ahead_of_the_place(items, item.ranked@, by, middle as int, i);
                }
            }
            low = middle + 1;
        } else {
            proof {
                assert forall|i: int| middle <= i < items.len() implies !comes_before(
                    #[trigger] items[i],
                    item.ranked@,
                    by,
                ) by {
                    lemma_behind_the_place(items, item.ranked@, by, middle as int, i);
                }
            }
            high = middle;
        }
    }
    proof {
        lemma_place_of_is(items, item.ranked@, by, low as int);
    }
    low
}

/// Puts the entries in order; see `sorted_ranked`.
pub fn sort_ranked(entries: Vec<Ranked>, by: SortKey) -> (r: Vec<Ranked>)
    ensures
        r.deep_view() == sorted_ranked(entries.deep_view(), by),
{
    let ghost all = entries.deep_view();
    let mut rest = entries;
    let mut done: Vec<Lettered> = Vec::new();
    assert(items_of(done@) =~= sorted_ranked(all.skip(all.len() as int), by));
    while rest.len() > 0
        invariant
            rest@.len() <= all.len(),
            rest.deep_view() == all.take(rest@.len() as int),
            items_of(done@) == sorted_ranked(all.skip(rest@.len() as int), by),
            forall|i: int| 0 <= i < done@.len() ==> is_lettered(#[trigger] done@[i]),
        decreases rest@.len(),
    {
        let ghost n = rest@.len() - 1;
        let ghost before = rest.deep_view();
        let ranked = rest.pop().unwrap();
        let letters = chars_of(ranked.lowered.as_str());
        let next = Lettered { ranked, letters };
        proof {
            assert(next.ranked@ == before[n]);
            assert(rest.deep_view() =~= all.take(n));
            law_sorting_orders(all.skip(n + 1), by);
            assert(all.skip(n).skip(1) =~= all.skip(n + 1));
            assert(all.skip(n)[0] == all[n]);
        }
        let at = find_place(&done, &next, by);
        let ghost old_done = done@;
        done.insert(at, next);
        assert(items_of(done@) =~= items_of(old_done).insert(at as int, next.ranked@));
    }
    let ghost result = sorted_ranked(all, by);
    proof {
        lemma_sorted_len(all, by);
        assert(all.skip(0) =~= all);
        assert(items_of(done@) =~= result.take(done@.len() as int));
    }
    let mut turned: Vec<Ranked> = Vec::new();
    while done.len() > 0
        invariant
            done@.len() <= result.len(),
            items_of(done@) == result.take(done@.len() as int),
            turned.deep_view() == result.skip(done@.len() as int).reverse(),
        decreases done@.len(),
    {
        let ghost n = done@.len() - 1;
        let ghost before = items_of(done@);
        let ghost old_turned = turned.deep_view();
        let last = done.pop().unwrap();
        assert(last.ranked@ == before[n]);
        turned.push(last.ranked);
        assert(items_of(done@) =~= result.take(n));
        assert(turned.deep_view() =~= old_turned.push(result[n]));
        assert(result.skip(n).reverse() =~= result.skip(n + 1).reverse().push(result[n]));
    }
    assert(result.skip(0).reverse().reverse() =~= result);
    reversed(turned)
}

/// Puts the entries in order; see `sorted`.
pub fn sort_items(paths: Vec<PathItem>, by: SortKey) -> (r: Vec<PathItem>)
    ensures
        r.deep_view() == sorted(paths.deep_view(), by),
{
    let ghost all = paths.deep_view();
    let mut backwards = reversed(paths);
    let mut entries: Vec<Ranked> = Vec::new();
    assert(entries.deep_view() =~= ranked(all).take(0));
    assert(backwards.deep_view() =~= all.skip(0).reverse());
    while backwards.len() > 0
        invariant
            backwards@.len() <= all.len(),
            backwards.deep_view() == all.skip(all.len() - backwards@.len()).reverse(),
            entries.deep_view() == ranked(all).take(all.len() - backwards@.len()),
        decreases backwards@.len(),
    {
        let ghost n = all.len() - backwards@.len();
        let ghost before = backwards.deep_view();
        let ghost old_entries = entries.deep_view();
        let item = backwards.pop().unwrap();
        let lowered = to_lowercase(item.name.as_str());
        assert(item@ == before[before.len() - 1]);
        assert(item@ == all[n]);
        entries.push(Ranked { item, lowered });
        assert(backwards.deep_view() =~= before.drop_last());
        assert(before.drop_last() =~= all.skip(n + 1).reverse());
        assert(entries.deep_view() =~= old_entries.push(ranked(all)[n]));
        assert(ranked(all).take(n + 1) =~= ranked(all).take(n).push(ranked(all)[n]));
    }
    assert(entries.deep_view() =~= ranked(all));
    let mut ordered = sort_ranked(entries, by);
    let ghost result = sorted_ranked(ranked(all), by);
    assert(ordered.deep_view() =~= result.take(ordered@.len() as int));
    let mut turned: Vec<PathItem> = Vec::new();
    while ordered.len() > 0
        invariant
            ordered@.len() <= result.len(),
            ordered.deep_view() == result.take(ordered@.len() as int),
            turned.deep_view() == unranked(result).skip(ordered@.len() as int).reverse(),
        decreases ordered@.len(),
    {
        let ghost n = ordered@.len() - 1;
        let ghost before = ordered.deep_view();
        let ghost old_turned = turned.deep_view();
        let last = ordered.pop().unwrap();
        assert(last@ == before[n]);
        turned.push(last.item);
        assert(ordered.deep_view() =~= result.take(n));
        assert(turned.deep_view() =~= old_turned.push(unranked(result)[n]));
        assert(unranked(result).skip(n).reverse() =~= unranked(result).skip(n + 1).reverse().push(
            unranked(result)[n],
        ));
    }
    assert(unranked(result).skip(0).reverse().reverse() =~= unranked(result));
    reversed(turned)
}

/// Puts the entries in the order that the query asks for.
pub fn sort_paths(paths: Vec<PathItem>, params: &Query) -> (r: Vec<PathItem>)
    ensures
        r.deep_view() == arranged(paths.deep_view(), params@),
{
    let by = if params.is("sort", "mtime") {
        SortKey::Mtime
    } else if params.is("sort", "size") {
        SortKey::Size
    } else {
        SortKey::Name
    };
    let up = sort_items(paths, by);
    if params.is("order", "desc") {
        reversed(up)
    } else {
        up
    }
}

fn reversed<T: DeepView>(items: Vec<T>) -> (r: Vec<T>)
    ensures
        r.deep_view() == items.deep_view().reverse(),
{
    let ghost all = items.deep_view();
    let mut rest = items;
    let mut out: Vec<T> = Vec::new();
    while rest.len() > 0
        invariant
            rest@.len() <= all.len(),
            rest.deep_view() == all.take(rest@.len() as int),
            out.deep_view() == all.skip(rest@.len() as int).reverse(),
        decreases rest@.len(),
    {
        let ghost n = rest@.len() - 1;
        let ghost before = rest.deep_view();
        let ghost old_out = out.deep_view();
        let item = rest.pop().unwrap();
        assert(item.deep_view() == before[n]);
        out.push(item);
        assert(rest.deep_view() =~= all.take(n));
        assert(out.deep_view() =~= old_out.push(all[n]));
        assert(all.skip(n).reverse() =~= all.skip(n + 1).reverse().push(all[n]));
    }
    assert(all.skip(0) =~= all);
    out
}

} // verus!
