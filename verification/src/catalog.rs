use vstd::prelude::*;
use crate::item::{lemma_views, lemma_views_concat, views, ItemView, ProgramItem};
use crate::listing::{entry_views, DirEntry, EntryView};
use crate::merge::{
    first_folder_named, folder_names_distinct, has_folder_named, is_folder_named,
    lemma_first_folder_named, lemma_merged_distinct, lemma_merged_keeps_files,
    lemma_merged_unites, lemma_merged_valid, lemma_sorted_distinct, lemma_united_pools,
    lemma_united_prefix, merge_items, merged, pooled_children, united_children,
};
use crate::order::{
    all_valid, lemma_sort_members, lemma_sort_valid, lemma_stable_sort, ordered, sort_items,
    stable_sort, valid_node, valid_siblings,
};
use crate::scan::{scan_directory, scanned};

verus! {

broadcast use lemma_views;

/// The catalog made of the scans of the two roots: the nodes of the
/// system-wide root, then those of the per-user root, merged from left to
/// right and put in display order.
pub open spec fn catalog(system: Seq<ItemView>, user: Seq<ItemView>) -> Seq<ItemView> {
    stable_sort(merged(system + user))
}

/// The scan of a root: that of its listing, or nothing where the root could
/// not be resolved.
pub open spec fn root_scan(root: Option<Seq<EntryView>>) -> Seq<ItemView> {
    match root {
        Some(listing) => scanned(listing),
        None => Seq::empty(),
    }
}

/// The model of an optional listing.
pub open spec fn listing_of(root: Option<&Vec<DirEntry>>) -> Option<Seq<EntryView>> {
    match root {
        Some(listing) => Some(entry_views(listing@)),
        None => None,
    }
}

/// The catalog is in display order, and no two of its top-level folders have
/// the same name.
pub proof fn lemma_catalog_ordered(system: Seq<ItemView>, user: Seq<ItemView>)
    ensures
        ordered(catalog(system, user)),
        folder_names_distinct(catalog(system, user)),
{
    lemma_stable_sort(merged(system + user));
    lemma_merged_distinct(system + user);
    lemma_sorted_distinct(merged(system + user));
}

/// Where the scans of both roots are valid the catalog is valid at every
/// depth: each sibling list is in display order and no folder is empty.
pub proof fn lemma_catalog_valid(system: Seq<ItemView>, user: Seq<ItemView>)
    requires
        all_valid(system),
        all_valid(user),
    ensures
        valid_siblings(catalog(system, user)),
{
    let both = system + user;
    assert forall|i: int| 0 <= i < both.len() implies valid_node(#[trigger] both[i]) by {
        if i < system.len() {
            assert(both[i] == system[i]);
        } else {
            assert(both[i] == user[i - system.len()]);
        }
    }
    lemma_merged_valid(both);
    lemma_sort_valid(merged(both));
}

/// The catalog has a top-level folder of a name exactly where a root has
/// one, and that folder holds the united children of all top-level folders
/// of that name in both roots: each child as often as they held it, none
/// dropped.
pub proof fn lemma_catalog_unites(system: Seq<ItemView>, user: Seq<ItemView>, name: Seq<char>)
    ensures
        has_folder_named(catalog(system, user), name) <==> has_folder_named(system + user, name),
        forall|i: int|
            0 <= i < catalog(system, user).len() && is_folder_named(
                #[trigger] catalog(system, user)[i],
                name,
            ) ==> {
                &&& catalog(system, user)[i].children == united_children(system + user, name)
                &&& catalog(system, user)[i].children.to_multiset() == pooled_children(
                    system + user,
                    name,
                )
            },
{
    let m = merged(system + user);
    let c = catalog(system, user);
    let k = first_folder_named(m, name);
    lemma_merged_unites(system + user, name);
    lemma_united_pools(system + user, name);
    lemma_merged_distinct(system + user);
    lemma_first_folder_named(m, name);
    lemma_sort_members(m);
    if has_folder_named(system + user, name) {
        assert(m.contains(m[k]));
        assert(c.contains(m[k]));
        let i = choose|i: int| 0 <= i < c.len() && c[i] == m[k];
        assert(is_folder_named(c[i], name));
    }
    assert forall|i: int|
        0 <= i < c.len() && is_folder_named(#[trigger] c[i], name) implies k < m.len()
        && c[i] == m[k] by {
        assert(c.contains(c[i]));
        assert(m.contains(c[i]));
        let q = choose|q: int| 0 <= q < m.len() && m[q] == c[i];
        if q < k {
            assert(!is_folder_named(m[q], name));
        } else if k < q {
            assert(m[k].is_folder && m[q].is_folder);
        }
    }
    if has_folder_named(c, name) {
        let i = choose|i: int| 0 <= i < c.len() && is_folder_named(#[trigger] c[i], name);
        assert(k < m.len());
    }
}

/// Where each of the two roots has one top-level folder of a name, the
/// catalog has one folder of that name, and its children are the children of
/// the two, those of the system-wide root first, put in display order.
pub proof fn lemma_two_roots_unite(
    system: Seq<ItemView>,
    user: Seq<ItemView>,
    name: Seq<char>,
    i: int,
    j: int,
)
    requires
        0 <= i < system.len(),
        0 <= j < user.len(),
        forall|k: int|
            0 <= k < system.len() ==> (is_folder_named(#[trigger] system[k], name) <==> k == i),
        forall|k: int|
            0 <= k < user.len() ==> (is_folder_named(#[trigger] user[k], name) <==> k == j),
    ensures
        has_folder_named(catalog(system, user), name),
        folder_names_distinct(catalog(system, user)),
        forall|k: int|
            0 <= k < catalog(system, user).len() && is_folder_named(
                #[trigger] catalog(system, user)[k],
                name,
            ) ==> catalog(system, user)[k].children == stable_sort(
                system[i].children + user[j].children,
            ),
{
    let full = system + user;
    let at = system.len() + j;
    assert(full[i] == system[i]);
    assert(full[at] == user[j]);
    assert(has_folder_named(full, name));
    assert forall|k: int| at + 1 <= k < full.len() implies !is_folder_named(
        #[trigger] full[k],
        name,
    ) by {
        assert(full[k] == user[k - system.len()]);
    }
    lemma_united_prefix(full, name, at + 1);
    let upto = full.take(at + 1);
    let before = full.take(at);
    assert(upto.last() == user[j]);
    assert(upto.drop_last() =~= before);
    assert(before[i] == system[i]);
    assert(has_folder_named(before, name));
    assert forall|k: int| i + 1 <= k < before.len() implies !is_folder_named(
        #[trigger] before[k],
        name,
    ) by {
        if k < system.len() {
            assert(before[k] == system[k]);
        } else {
            assert(before[k] == user[k - system.len()]);
        }
    }
    lemma_united_prefix(before, name, i + 1);
    let first = before.take(i + 1);
    let none = before.take(i);
    assert(first.last() == system[i]);
    assert(first.drop_last() =~= none);
    if has_folder_named(none, name) {
        let k = choose|k: int| 0 <= k < none.len() && is_folder_named(#[trigger] none[k], name);
        assert(none[k] == system[k]);
    }
    assert(united_children(first, name) == system[i].children);
    assert(united_children(full, name) == stable_sort(system[i].children + user[j].children));
    lemma_catalog_unites(system, user, name);
    lemma_catalog_ordered(system, user);
}

/// Files are never merged: each file node is in the catalog as often as the
/// two scans hold it, whatever else has its name.
pub proof fn lemma_catalog_keeps_files(system: Seq<ItemView>, user: Seq<ItemView>, file: ItemView)
    requires
        !file.is_folder,
    ensures
        catalog(system, user).to_multiset().count(file) == system.to_multiset().count(file)
            + user.to_multiset().count(file),
{
    broadcast use vstd::seq_lib::lemma_multiset_commutative;

    lemma_merged_keeps_files(system + user, file);
    lemma_stable_sort(merged(system + user));
}

/// Merges the scans of the two roots into one catalog.
pub fn build_catalog(system: Vec<ProgramItem>, user: Vec<ProgramItem>) -> (r: Vec<ProgramItem>)
    ensures
        views(r@) == catalog(views(system@), views(user@)),
        ordered(views(r@)),
        folder_names_distinct(views(r@)),
        all_valid(views(system@)) && all_valid(views(user@)) ==> valid_siblings(views(r@)),
{
    let mut all = system;
    let mut rest = user;
    proof {
        lemma_views_concat(all@, rest@);
        lemma_catalog_ordered(views(system@), views(user@));
        if all_valid(views(system@)) && all_valid(views(user@)) {
            lemma_catalog_valid(views(system@), views(user@));
        }
    }
    all.append(&mut rest);
    sort_items(merge_items(all))
}

fn scan_root(root: Option<&Vec<DirEntry>>) -> (r: Vec<ProgramItem>)
    ensures
        views(r@) == root_scan(listing_of(root)),
        all_valid(views(r@)),
{
    match root {
        Some(listing) => scan_directory(listing),
        None => {
            let none: Vec<ProgramItem> = Vec::new();
            assert(views(none@) =~= Seq::empty());
            none
        },
    }
}

/// Builds the whole catalog from the listings of the system-wide and the
/// per-user root. A root that could not be resolved is passed as None and
/// adds nothing.
pub fn get_all_programs(
    system_root: Option<&Vec<DirEntry>>,
    user_root: Option<&Vec<DirEntry>>,
) -> (r: Vec<ProgramItem>)
    ensures
        views(r@) == catalog(root_scan(listing_of(system_root)), root_scan(listing_of(user_root))),
        valid_siblings(views(r@)),
        folder_names_distinct(views(r@)),
{
    let system = scan_root(system_root);
    let user = scan_root(user_root);
    build_catalog(system, user)
}

} // verus!
