use vstd::multiset::Multiset;
use vstd::prelude::*;
use crate::item::{lemma_views, lemma_views_concat, views, ItemView, ProgramItem};
use crate::order::{
    all_valid, insert_position, lemma_insert_position, lemma_sort_members,
    lemma_sort_valid, lemma_stable_sort, sort_items, stable_sort, valid_node,
};

verus! {

broadcast use lemma_views;

/// Whether a node is a folder called `name`.
pub open spec fn is_folder_named(item: ItemView, name: Seq<char>) -> bool {
    item.is_folder && item.name == name
}

/// Position of the first folder called `name` in `acc`, or the length of
/// `acc` where it holds none.
pub open spec fn first_folder_named(acc: Seq<ItemView>, name: Seq<char>) -> int
    decreases acc.len(),
{
    if acc.len() == 0 {
        0
    } else if is_folder_named(acc[0], name) {
        0
    } else {
        1 + first_folder_named(acc.drop_first(), name)
    }
}

/// The folder `into` after it took in the children of `from`: the children of
/// both, those of `into` first, put in display order.
pub open spec fn united(into: ItemView, from: ItemView) -> ItemView {
    ItemView {
        name: into.name,
        path: into.path,
        is_folder: into.is_folder,
        children: stable_sort(into.children + from.children),
        icon: into.icon,
    }
}

/// The accumulated top-level list after one more node: a folder whose name an
/// accumulated folder has already gives that folder its children; any other
/// node is added at the end.
pub open spec fn absorbed(acc: Seq<ItemView>, item: ItemView) -> Seq<ItemView> {
    let k = first_folder_named(acc, item.name);
    if item.is_folder && k < acc.len() {
        acc.update(k, united(acc[k], item))
    } else {
        acc.push(item)
    }
}

/// The top-level list that is left after the nodes were taken in from left to
/// right.
pub open spec fn merged(items: Seq<ItemView>) -> Seq<ItemView>
    decreases items.len(),
{
    if items.len() == 0 {
        items
    } else {
        absorbed(merged(items.drop_last()), items.last())
    }
}

/// `first_folder_named` is a position in the list or its length; it names a
/// folder called `name`, and no folder before it has that name.
pub proof fn lemma_first_folder_named(acc: Seq<ItemView>, name: Seq<char>)
    ensures
        0 <= first_folder_named(acc, name) <= acc.len(),
        first_folder_named(acc, name) < acc.len() ==> is_folder_named(
            acc[first_folder_named(acc, name)],
            name,
        ),
        forall|i: int|
            0 <= i < first_folder_named(acc, name) ==> !is_folder_named(#[trigger] acc[i], name),
    decreases acc.len(),
{
    if acc.len() > 0 && !is_folder_named(acc[0], name) {
        let rest = acc.drop_first();
        lemma_first_folder_named(rest, name);
        let k = first_folder_named(rest, name);
        assert forall|i: int| 0 <= i < k + 1 implies !is_folder_named(#[trigger] acc[i], name) by {
            if i > 0 {
                assert(acc[i] == rest[i - 1]);
            }
        }
        if k < rest.len() {
            assert(acc[k + 1] == rest[k]);
        }
    }
}

/// The position that `first_folder_named` gives is the only one with its
/// properties.
proof fn lemma_first_folder_is(acc: Seq<ItemView>, name: Seq<char>, k: int)
    requires
        0 <= k <= acc.len(),
        k < acc.len() ==> is_folder_named(acc[k], name),
        forall|i: int| 0 <= i < k ==> !is_folder_named(#[trigger] acc[i], name),
    ensures
        first_folder_named(acc, name) == k,
{
    lemma_first_folder_named(acc, name);
    let found = first_folder_named(acc, name);
    if found < k {
        assert(!is_folder_named(acc[found], name));
    } else if k < found {
        assert(!is_folder_named(acc[k], name));
    }
}

/// Whether no two folders of the list have the same name.
pub open spec fn folder_names_distinct(items: Seq<ItemView>) -> bool {
    forall|i: int, j: int|
        0 <= i < j < items.len() && (#[trigger] items[i]).is_folder
            && (#[trigger] items[j]).is_folder ==> items[i].name != items[j].name
}

/// Whether the list holds a folder called `name`.
pub open spec fn has_folder_named(items: Seq<ItemView>, name: Seq<char>) -> bool {
    exists|i: int| 0 <= i < items.len() && is_folder_named(#[trigger] items[i], name)
}

/// The children of all folders of the list that are called `name`, each as
/// often as it occurs among them.
pub open spec fn pooled_children(items: Seq<ItemView>, name: Seq<char>) -> Multiset<ItemView>
    decreases items.len(),
{
    if items.len() == 0 {
        Multiset::empty()
    } else if is_folder_named(items.last(), name) {
        pooled_children(items.drop_last(), name).add(items.last().children.to_multiset())
    } else {
        pooled_children(items.drop_last(), name)
    }
}

/// Where no folder has the name there are no children to pool.
proof fn lemma_pooled_nothing(items: Seq<ItemView>, name: Seq<char>)
    requires
        !has_folder_named(items, name),
    ensures
        pooled_children(items, name) == Multiset::<ItemView>::empty(),
    decreases items.len(),
{
    if items.len() > 0 {
        let front = items.drop_last();
        assert(items[items.len() - 1] == items.last());
        assert(!is_folder_named(items.last(), name));
        if has_folder_named(front, name) {
            let i = choose|i: int|
                0 <= i < front.len() && is_folder_named(#[trigger] front[i], name);
            assert(items[i] == front[i]);
        }
        lemma_pooled_nothing(front, name);
    }
}

/// A list with a node behind it has a folder of a name where the list has
/// one or the node is one.
proof fn lemma_has_folder_push(front: Seq<ItemView>, item: ItemView, name: Seq<char>)
    ensures
        has_folder_named(front.push(item), name) <==> has_folder_named(front, name)
            || is_folder_named(item, name),
{
    let items = front.push(item);
    if has_folder_named(front, name) {
        let i = choose|i: int|
            0 <= i < front.len() && is_folder_named(#[trigger] front[i], name);
        assert(items[i] == front[i]);
    }
    if is_folder_named(item, name) {
        assert(items[front.len() as int] == item);
    }
    if has_folder_named(items, name) {
        let i = choose|i: int|
            0 <= i < items.len() && is_folder_named(#[trigger] items[i], name);
        if i < front.len() {
            assert(front[i] == items[i]);
        }
    }
}

/// After merging no two top-level folders have the same name.
pub proof fn lemma_merged_distinct(items: Seq<ItemView>)
    ensures
        folder_names_distinct(merged(items)),
    decreases items.len(),
{
    if items.len() > 0 {
        let acc = merged(items.drop_last());
        let item = items.last();
        lemma_merged_distinct(items.drop_last());
        lemma_first_folder_named(acc, item.name);
        let k = first_folder_named(acc, item.name);
        let m = merged(items);
        assert forall|i: int, j: int|
            0 <= i < j < m.len() && (#[trigger] m[i]).is_folder
                && (#[trigger] m[j]).is_folder implies m[i].name != m[j].name by {
            if item.is_folder && k < acc.len() {
                assert(acc[i].is_folder && acc[j].is_folder);
                assert(m[i].name == acc[i].name && m[j].name == acc[j].name);
            } else if j < acc.len() {
                assert(m[i] == acc[i] && m[j] == acc[j]);
            } else {
                assert(m[i] == acc[i]);
            }
        }
    }
}

/// The children that the top-level folder called `name` has after the nodes
/// were taken in: those of the first folder of that name as they are, and
/// after every further folder of that name the children of both in display
/// order.
pub open spec fn united_children(items: Seq<ItemView>, name: Seq<char>) -> Seq<ItemView>
    decreases items.len(),
{
    if items.len() == 0 {
        Seq::empty()
    } else if is_folder_named(items.last(), name) {
        if has_folder_named(items.drop_last(), name) {
            stable_sort(united_children(items.drop_last(), name) + items.last().children)
        } else {
            items.last().children
        }
    } else {
        united_children(items.drop_last(), name)
    }
}

/// Merging unites same-named folders: the merged list has a folder of a name
/// exactly where a folder of that name was taken in, and that folder holds
/// the united children of all of them.
pub proof fn lemma_merged_unites(items: Seq<ItemView>, name: Seq<char>)
    ensures
        first_folder_named(merged(items), name) < merged(items).len() <==> has_folder_named(
            items,
            name,
        ),
        has_folder_named(items, name) ==> merged(items)[first_folder_named(
            merged(items),
            name,
        )].children == united_children(items, name),
    decreases items.len(),
{
    let m = merged(items);
    lemma_first_folder_named(m, name);
    if items.len() > 0 {
        let front = items.drop_last();
        let item = items.last();
        let acc = merged(front);
        assert(items =~= front.push(item));
        lemma_has_folder_push(front, item, name);
        lemma_merged_unites(front, name);
        lemma_merged_unites(front, item.name);
        lemma_first_folder_named(acc, name);
        lemma_first_folder_named(acc, item.name);
        let k = first_folder_named(acc, name);
        let at = first_folder_named(acc, item.name);
        if item.is_folder && at < acc.len() {
            assert forall|i: int| 0 <= i < k implies !is_folder_named(#[trigger] m[i], name) by {
                assert(!is_folder_named(acc[i], name));
            }
            lemma_first_folder_is(m, name, k);
        } else {
            if k < acc.len() {
                assert forall|i: int| 0 <= i < k implies !is_folder_named(
                    #[trigger] m[i],
                    name,
                ) by {
                    assert(m[i] == acc[i]);
                }
                assert(m[k] == acc[k]);
                lemma_first_folder_is(m, name, k);
            } else {
                assert forall|i: int| 0 <= i < acc.len() implies !is_folder_named(
                    #[trigger] m[i],
                    name,
                ) by {
                    assert(m[i] == acc[i]);
                    assert(!is_folder_named(acc[i], name));
                }
                if is_folder_named(item, name) {
                    lemma_first_folder_is(m, name, acc.len() as int);
                } else {
                    lemma_first_folder_is(m, name, m.len() as int);
                }
            }
        }
    } else {
        assert(!has_folder_named(items, name));
    }
}

/// The united children are the pooled children: uniting drops no child and
/// adds none.
pub proof fn lemma_united_pools(items: Seq<ItemView>, name: Seq<char>)
    ensures
        united_children(items, name).to_multiset() == pooled_children(items, name),
    decreases items.len(),
{
    broadcast use {
        vstd::seq_lib::lemma_multiset_commutative,
        vstd::seq_lib::group_to_multiset_ensures,
        vstd::multiset::group_multiset_axioms,
    };

    if items.len() == 0 {
        assert(united_children(items, name).to_multiset().len() == 0);
        assert(united_children(items, name).to_multiset() =~= Multiset::<ItemView>::empty());
    } else {
        let front = items.drop_last();
        let item = items.last();
        lemma_united_pools(front, name);
        if is_folder_named(item, name) {
            if has_folder_named(front, name) {
                lemma_stable_sort(united_children(front, name) + item.children);
            } else {
                lemma_pooled_nothing(front, name);
                assert(Multiset::<ItemView>::empty().add(item.children.to_multiset())
                    =~= item.children.to_multiset());
            }
        }
    }
}

/// Merging pools the children of same-named folders: the folder that the
/// merged list has for a name holds the children of all folders of that name
/// that were taken in, each as often as they held it.
pub proof fn lemma_merged_pools(items: Seq<ItemView>, name: Seq<char>)
    ensures
        first_folder_named(merged(items), name) < merged(items).len() <==> has_folder_named(
            items,
            name,
        ),
        has_folder_named(items, name) ==> merged(items)[first_folder_named(
            merged(items),
            name,
        )].children.to_multiset() == pooled_children(items, name),
{
    lemma_merged_unites(items, name);
    lemma_united_pools(items, name);
}

/// Nodes behind the last folder called `name` do not change what is united
/// under that name.
pub proof fn lemma_united_prefix(items: Seq<ItemView>, name: Seq<char>, n: int)
    requires
        0 <= n <= items.len(),
        forall|i: int| n <= i < items.len() ==> !is_folder_named(#[trigger] items[i], name),
    ensures
        united_children(items, name) == united_children(items.take(n), name),
    decreases items.len() - n,
{
    if n < items.len() {
        let front = items.drop_last();
        assert(!is_folder_named(items[items.len() - 1], name));
        assert forall|i: int| n <= i < front.len() implies !is_folder_named(
            #[trigger] front[i],
            name,
        ) by {
            assert(front[i] == items[i]);
        }
        lemma_united_prefix(front, name, n);
        assert(front.take(n) =~= items.take(n));
    } else {
        assert(items.take(n) =~= items);
    }
}

/// Merging never touches a file: each file node is in the merged list as
/// often as it was taken in, whatever its name.
pub proof fn lemma_merged_keeps_files(items: Seq<ItemView>, file: ItemView)
    requires
        !file.is_folder,
    ensures
        merged(items).to_multiset().count(file) == items.to_multiset().count(file),
    decreases items.len(),
{
    broadcast use {
        vstd::seq_lib::group_to_multiset_ensures,
        vstd::seq_lib::to_multiset_update,
        vstd::multiset::group_multiset_axioms,
    };

    if items.len() > 0 {
        let front = items.drop_last();
        let item = items.last();
        let acc = merged(front);
        assert(items =~= front.push(item));
        lemma_merged_keeps_files(front, file);
        lemma_first_folder_named(acc, item.name);
        let at = first_folder_named(acc, item.name);
        if item.is_folder && at < acc.len() {
            let joined = united(acc[at], item);
            assert(merged(items).to_multiset() == acc.to_multiset().insert(joined).remove(acc[at]));
            assert(joined != file && acc[at] != file && item != file);
        }
    }
}

/// Merging valid nodes gives valid nodes.
pub proof fn lemma_merged_valid(items: Seq<ItemView>)
    requires
        all_valid(items),
    ensures
        all_valid(merged(items)),
    decreases items.len(),
{
    if items.len() > 0 {
        let front = items.drop_last();
        let item = items.last();
        let acc = merged(front);
        assert forall|i: int| 0 <= i < front.len() implies valid_node(#[trigger] front[i]) by {
            assert(front[i] == items[i]);
        }
        assert(valid_node(items[items.len() - 1]));
        lemma_merged_valid(front);
        lemma_first_folder_named(acc, item.name);
        let at = first_folder_named(acc, item.name);
        let m = merged(items);
        if item.is_folder && at < acc.len() {
            let both = acc[at].children + item.children;
            assert(valid_node(acc[at]));
            assert forall|i: int| 0 <= i < both.len() implies valid_node(#[trigger] both[i]) by {
                if i < acc[at].children.len() {
                    assert(both[i] == acc[at].children[i]);
                } else {
                    assert(both[i] == item.children[i - acc[at].children.len()]);
                }
            }
            lemma_sort_valid(both);
            lemma_stable_sort(both);
            assert(valid_node(united(acc[at], item)));
            assert forall|i: int| 0 <= i < m.len() implies valid_node(#[trigger] m[i]) by {
                if i != at {
                    assert(m[i] == acc[i]);
                }
            }
        } else {
            assert forall|i: int| 0 <= i < m.len() implies valid_node(#[trigger] m[i]) by {
                if i < acc.len() {
                    assert(m[i] == acc[i]);
                }
            }
        }
    }
}

/// Sorting a list in which no two folders have the same name leaves it so.
pub proof fn lemma_sorted_distinct(s: Seq<ItemView>)
    requires
        folder_names_distinct(s),
    ensures
        folder_names_distinct(stable_sort(s)),
    decreases s.len(),
{
    if s.len() > 0 {
        let front = s.drop_last();
        let x = s.last();
        let t = stable_sort(front);
        assert forall|i: int, j: int|
            0 <= i < j < front.len() && (#[trigger] front[i]).is_folder
                && (#[trigger] front[j]).is_folder implies front[i].name != front[j].name by {
            assert(front[i] == s[i] && front[j] == s[j]);
        }
        lemma_sorted_distinct(front);
        lemma_sort_members(front);
        lemma_insert_position(t, x);
        let p = insert_position(t, x);
        let r = stable_sort(s);
        assert(r == t.insert(p, x));
        assert forall|i: int, j: int|
            0 <= i < j < r.len() && (#[trigger] r[i]).is_folder
                && (#[trigger] r[j]).is_folder implies r[i].name != r[j].name by {
            if i != p && j != p {
                let a = if i < p { i } else { i - 1 };
                let b = if j < p { j } else { j - 1 };
                assert(r[i] == t[a] && r[j] == t[b]);
            } else {
                let other = if i == p { r[j] } else { r[i] };
                let a = if i == p { j - 1 } else { i };
                assert(other == t[a]);
                assert(t.contains(other));
                assert(front.contains(other));
                let q = choose|q: int| 0 <= q < front.len() && front[q] == other;
                assert(s[q] == other && s[s.len() - 1] == x);
            }
        }
    }
}

/// Position of the first folder called `name` among `acc`, or the length of
/// `acc`.
fn find_folder(acc: &Vec<ProgramItem>, name: &String) -> (k: usize)
    ensures
        k == first_folder_named(views(acc@), name@),
        k <= acc@.len(),
{
    let ghost all = views(acc@);
    let mut k: usize = 0;
    assert(all.skip(0) =~= all);
    while k < acc.len()
        invariant
            k <= acc@.len(),
            all == views(acc@),
            first_folder_named(all, name@) == k + first_folder_named(all.skip(k as int), name@),
        decreases acc@.len() - k,
    {
        proof {
            assert(all.skip(k as int)[0] == acc@[k as int]@);
            assert(all.skip(k as int).drop_first() =~= all.skip(k + 1));
        }
        if acc[k].is_folder() && *acc[k].name() == *name {
            return k;
        }
        k = k + 1;
    }
    k
}

/// Takes the nodes in from left to right: a folder whose name an earlier
/// top-level folder has gives that folder its children, which are then put in
/// display order; every other node becomes a top-level node of its own.
pub fn merge_items(items: Vec<ProgramItem>) -> (r: Vec<ProgramItem>)
    ensures
        views(r@) == merged(views(items@)),
{
    let ghost all = items@;
    let mut acc: Vec<ProgramItem> = Vec::new();
    assert(views(all.take(0)) =~= Seq::empty());
    for item in it: items
        invariant
            it.seq() == all,
            views(acc@) == merged(views(all.take(it.index() as int))),
    {
        let ghost done = it.index() as int;
        let ghost before = views(acc@);
        proof {
            let next = all.take(done + 1);
            assert(next.drop_last() =~= all.take(done));
            assert(next.last() == all[done]);
            assert(views(next).drop_last() =~= views(all.take(done)));
            assert(views(next).last() == item@);
        }
        let k = find_folder(&acc, item.name());
        if item.is_folder() && k < acc.len() {
            let existing = acc.remove(k);
            let parts = existing.into_parts();
            let more = item.into_parts();
            let mut children = parts.3;
            let mut added = more.3;
            proof {
                lemma_views_concat(children@, added@);
            }
            children.append(&mut added);
            let children = sort_items(children);
            let joined = ProgramItem::from_parts(parts.0, parts.1, parts.2, children, parts.4);
            assert(joined@ == united(before[k as int], item@));
            acc.insert(k, joined);
            assert(views(acc@) =~= before.update(k as int, united(before[k as int], item@)));
        } else {
            acc.push(item);
            assert(views(acc@) =~= before.push(item@));
        }
    }
    assert(all.take(all.len() as int) =~= all);
    acc
}

} // verus!
