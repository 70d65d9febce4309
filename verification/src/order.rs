use vstd::prelude::*;
use crate::item::{lemma_views, lemma_views_insert, views, ItemView, ProgramItem};
use crate::text::{lemma_lex_total, lemma_lex_transitive, lex_le, lowercase, name_less, name_lt};

verus! {

broadcast use lemma_views;

/// Whether `a` has to stand before `b` among siblings: a folder before a file,
/// and of two nodes of one kind the one whose name comes first when case is
/// ignored.
pub open spec fn precedes(a: ItemView, b: ItemView) -> bool {
    if a.is_folder != b.is_folder {
        a.is_folder
    } else {
        name_lt(a.name, b.name)
    }
}

/// Whether a sibling list is in display order: no node stands before one that
/// has to precede it.
pub open spec fn ordered(s: Seq<ItemView>) -> bool {
    forall|i: int, j: int| 0 <= i < j < s.len() ==> !precedes(#[trigger] s[j], #[trigger] s[i])
}

/// The sorted list `s` with `x` put in behind every node that it does not have
/// to precede.
pub open spec fn insert_sorted(s: Seq<ItemView>, x: ItemView) -> Seq<ItemView>
    decreases s.len(),
{
    if s.len() > 0 && precedes(x, s.last()) {
        insert_sorted(s.drop_last(), x).push(s.last())
    } else {
        s.push(x)
    }
}

/// The list in display order, nodes that tie keeping the order they came in.
pub open spec fn stable_sort(s: Seq<ItemView>) -> Seq<ItemView>
    decreases s.len(),
{
    if s.len() == 0 {
        s
    } else {
        insert_sorted(stable_sort(s.drop_last()), s.last())
    }
}

/// Where `c` need not follow `b` and `b` need not follow `a`, `c` need not
/// follow `a`.
pub proof fn lemma_precedes_chain(a: ItemView, b: ItemView, c: ItemView)
    requires
        !precedes(a, b),
        !precedes(b, c),
    ensures
        !precedes(a, c),
{
    if a.is_folder == b.is_folder && b.is_folder == c.is_folder {
        let x = lowercase(a.name);
        let y = lowercase(b.name);
        let z = lowercase(c.name);
        if name_lt(a.name, c.name) {
            lemma_lex_total(x, y);
            if x != y {
                lemma_lex_transitive(y, x, z);
            }
        }
    }
}

/// No node has to precede one that has to precede it.
pub proof fn lemma_precedes_asymmetric(a: ItemView, b: ItemView)
    requires
        precedes(a, b),
    ensures
        !precedes(b, a),
{
    lemma_lex_total(lowercase(a.name), lowercase(b.name));
}

/// Putting a node into a list in display order keeps the order, and adds
/// that node and nothing else.
pub proof fn lemma_insert_sorted(s: Seq<ItemView>, x: ItemView)
    requires
        ordered(s),
    ensures
        ordered(insert_sorted(s, x)),
        insert_sorted(s, x).len() == s.len() + 1,
        insert_sorted(s, x).to_multiset() == s.to_multiset().insert(x),
        forall|k: int|
            0 <= k < insert_sorted(s, x).len() ==> (#[trigger] insert_sorted(s, x)[k]) == x
                || s.contains(insert_sorted(s, x)[k]),
    decreases s.len(),
{
    broadcast use vstd::seq_lib::group_to_multiset_ensures;

    let r = insert_sorted(s, x);
    if s.len() > 0 && precedes(x, s.last()) {
        let front = s.drop_last();
        let last = s.last();
        let inner = insert_sorted(front, x);
        lemma_insert_sorted(front, x);
        assert(s =~= front.push(last));
        assert(r.to_multiset() =~= s.to_multiset().insert(x));
        lemma_precedes_asymmetric(x, last);
        assert forall|k: int| 0 <= k < r.len() implies (#[trigger] r[k]) == x || s.contains(
            r[k],
        ) by {
            if k < inner.len() {
                if inner[k] != x {
                    let e = inner[k];
                    assert(front.contains(e));
                    let m = choose|m: int| 0 <= m < front.len() && front[m] == e;
                    assert(s[m] == e);
                }
            } else {
                assert(s[s.len() - 1] == r[k]);
            }
        }
        assert forall|i: int, j: int| 0 <= i < j < r.len() implies !precedes(
            #[trigger] r[j],
            #[trigger] r[i],
        ) by {
            if j == r.len() - 1 {
                if inner[i] != x {
                    let e = inner[i];
                    assert(front.contains(e));
                    let m = choose|m: int| 0 <= m < front.len() && front[m] == e;
                    assert(s[m] == e && s[s.len() - 1] == last);
                }
            } else {
                assert(r[i] == inner[i] && r[j] == inner[j]);
            }
        }
    } else {
        assert forall|i: int, j: int| 0 <= i < j < r.len() implies !precedes(
            #[trigger] r[j],
            #[trigger] r[i],
        ) by {
            if j == r.len() - 1 {
                if i < s.len() - 1 {
                    assert(!precedes(s[s.len() - 1], s[i]));
                    lemma_precedes_chain(x, s.last(), s[i]);
                }
            } else {
                assert(r[i] == s[i] && r[j] == s[j]);
            }
        }
        assert forall|k: int| 0 <= k < r.len() implies (#[trigger] r[k]) == x || s.contains(
            r[k],
        ) by {
            if k < s.len() {
                assert(s[k] == r[k]);
            }
        }
    }
}

/// The sorted list is in display order and holds the same nodes, each as often
/// as the list it was made from.
pub proof fn lemma_stable_sort(s: Seq<ItemView>)
    ensures
        ordered(stable_sort(s)),
        stable_sort(s).len() == s.len(),
        stable_sort(s).to_multiset() == s.to_multiset(),
    decreases s.len(),
{
    broadcast use vstd::seq_lib::group_to_multiset_ensures;

    if s.len() > 0 {
        lemma_stable_sort(s.drop_last());
        lemma_insert_sorted(stable_sort(s.drop_last()), s.last());
        assert(s =~= s.drop_last().push(s.last()));
    }
}

/// Where `insert_sorted` puts the node: behind the last node of `s` that it
/// does not have to precede.
pub open spec fn insert_position(s: Seq<ItemView>, x: ItemView) -> int
    decreases s.len(),
{
    if s.len() > 0 && precedes(x, s.last()) {
        insert_position(s.drop_last(), x)
    } else {
        s.len() as int
    }
}

/// `insert_sorted` puts the node in at one place and moves nothing else.
pub proof fn lemma_insert_position(s: Seq<ItemView>, x: ItemView)
    ensures
        0 <= insert_position(s, x) <= s.len(),
        insert_sorted(s, x) == s.insert(insert_position(s, x), x),
    decreases s.len(),
{
    if s.len() > 0 && precedes(x, s.last()) {
        lemma_insert_position(s.drop_last(), x);
        assert(insert_sorted(s, x) =~= s.insert(insert_position(s, x), x));
    } else {
        assert(insert_sorted(s, x) =~= s.insert(s.len() as int, x));
    }
}

/// Sorting neither adds a node nor loses one.
pub proof fn lemma_sort_members(s: Seq<ItemView>)
    ensures
        forall|x: ItemView| stable_sort(s).contains(x) <==> s.contains(x),
{
    broadcast use vstd::seq_lib::group_to_multiset_ensures;

    lemma_stable_sort(s);
    assert forall|x: ItemView| stable_sort(s).contains(x) <==> s.contains(x) by {
        assert(stable_sort(s).to_multiset().count(x) == s.to_multiset().count(x));
    }
}

/// Whether a node and all that is below it is as the catalog shows it: a
/// file has no children; a folder has no icon and at least one child, and its
/// children are in display order and are themselves as the catalog shows
/// them.
pub open spec fn valid_node(item: ItemView) -> bool
    decreases item,
{
    if item.is_folder {
        &&& item.icon is None
        &&& item.children.len() > 0
        &&& ordered(item.children)
        &&& forall|i: int| 0 <= i < item.children.len() ==> valid_node(#[trigger] item.children[i])
    } else {
        item.children.len() == 0
    }
}

/// Every node of the list is as the catalog shows it.
pub open spec fn all_valid(items: Seq<ItemView>) -> bool {
    forall|i: int| 0 <= i < items.len() ==> valid_node(#[trigger] items[i])
}

/// Whether a sibling list is as the catalog shows it: in display order, and
/// made of valid nodes.
pub open spec fn valid_siblings(items: Seq<ItemView>) -> bool {
    ordered(items) && all_valid(items)
}

/// Sorting valid nodes gives a valid sibling list.
pub proof fn lemma_sort_valid(s: Seq<ItemView>)
    requires
        all_valid(s),
    ensures
        valid_siblings(stable_sort(s)),
{
    lemma_stable_sort(s);
    lemma_sort_members(s);
    let r = stable_sort(s);
    assert forall|i: int| 0 <= i < r.len() implies valid_node(#[trigger] r[i]) by {
        let x = r[i];
        assert(stable_sort(s).contains(x));
        assert(s.contains(x));
        let k = choose|k: int| 0 <= k < s.len() && s[k] == x;
        assert(valid_node(s[k]));
    }
}

/// In a list in display order no file stands before a folder, and of two
/// nodes of one kind the earlier one's lowercase name does not come after the
/// later one's.
pub proof fn lemma_ordered_siblings(s: Seq<ItemView>, i: int, j: int)
    requires
        ordered(s),
        0 <= i < j < s.len(),
    ensures
        s[j].is_folder ==> s[i].is_folder,
        s[i].is_folder == s[j].is_folder ==> lex_le(lowercase(s[i].name), lowercase(s[j].name)),
{
    assert(!precedes(s[j], s[i]));
}

/// A list that is in display order already is its own sorted form.
pub proof fn lemma_sort_of_ordered(s: Seq<ItemView>)
    requires
        ordered(s),
    ensures
        stable_sort(s) == s,
    decreases s.len(),
{
    if s.len() > 0 {
        let front = s.drop_last();
        assert forall|i: int, j: int| 0 <= i < j < front.len() implies !precedes(
            #[trigger] front[j],
            #[trigger] front[i],
        ) by {
            assert(front[i] == s[i] && front[j] == s[j]);
        }
        lemma_sort_of_ordered(front);
        if front.len() > 0 {
            assert(front.last() == s[s.len() - 2] && s.last() == s[s.len() - 1]);
            assert(!precedes(s.last(), front.last()));
        }
        assert(s =~= front.push(s.last()));
    }
}

/// Whether `a` has to stand before `b` among siblings.
pub fn item_precedes(a: &ProgramItem, b: &ProgramItem) -> (r: bool)
    ensures
        r == precedes(a@, b@),
{
    if a.is_folder() != b.is_folder() {
        a.is_folder()
    } else {
        name_less(a.name().as_str(), b.name().as_str())
    }
}

/// Sorts a sibling list into display order: folders first, then by name
/// without regard to case; nodes that tie keep the order they came in.
pub fn sort_items(items: Vec<ProgramItem>) -> (r: Vec<ProgramItem>)
    ensures
        views(r@) == stable_sort(views(items@)),
        ordered(views(r@)),
        views(r@).to_multiset() == views(items@).to_multiset(),
{
    let ghost all = items@;
    let mut out: Vec<ProgramItem> = Vec::new();
    assert(views(all.take(0)) =~= Seq::empty());
    for item in it: items
        invariant
            it.seq() == all,
            views(out@) == stable_sort(views(all.take(it.index() as int))),
    {
        let ghost done = it.index() as int;
        let ghost before = views(out@);
        let ghost x = item@;
        let mut pos: usize = out.len();
        let mut searching = true;
        assert(before.take(pos as int) =~= before);
        assert(before.skip(pos as int) =~= Seq::empty());
        while searching && pos > 0
            invariant
                pos <= out@.len(),
                before == views(out@),
                x == item@,
                insert_sorted(before, x) == insert_sorted(before.take(pos as int), x)
                    + before.skip(pos as int),
                !searching ==> pos > 0 && !precedes(x, before[pos - 1]),
            decreases pos + if searching { 1int } else { 0int },
        {
            if item_precedes(&item, &out[pos - 1]) {
                proof {
                    let head = before.take(pos as int);
                    assert(head.last() == before[pos - 1]);
                    assert(head.drop_last() =~= before.take(pos - 1));
                    assert(insert_sorted(before.take(pos - 1), x).push(before[pos - 1])
                        + before.skip(pos as int) =~= insert_sorted(before.take(pos - 1), x)
                        + before.skip(pos - 1));
                }
                pos = pos - 1;
            } else {
                searching = false;
            }
        }
        proof {
            let head = before.take(pos as int);
            if pos > 0 {
                assert(head.last() == before[pos - 1]);
            }
            assert(insert_sorted(head, x) == head.push(x));
            assert(head.push(x) + before.skip(pos as int) =~= before.insert(pos as int, x));
            lemma_views_insert(out@, pos as int, item);
            let next = all.take(done + 1);
            assert(next.drop_last() =~= all.take(done));
            assert(next.last() == all[done]);
            assert(views(next).drop_last() =~= views(all.take(done)));
            assert(views(next).last() == item@);
        }
        out.insert(pos, item);
    }
    proof {
        assert(all.take(all.len() as int) =~= all);
        lemma_stable_sort(views(all));
    }
    out
}

} // verus!
