use vstd::prelude::*;
use crate::icon::{extract_icon, extracted};
use crate::item::{lemma_views, views, ItemView, ProgramItem};
use crate::listing::{entry_views, lemma_entry_views, DirEntry, EntryView};
use crate::names::{file_stem, is_launchable, is_noise, launchable, noise, stem};
use crate::order::{
    all_valid, lemma_sort_members, lemma_sort_valid, sort_items, stable_sort,
    valid_node, valid_siblings,
};

verus! {

broadcast use {lemma_views, lemma_entry_views};

/// The node that an entry gives, if it gives one. A hidden entry and the
/// metadata file give none. A directory gives a folder holding the scan of
/// its listing, unless that scan is empty. A file whose extension is `lnk` or
/// `exe` gives a file node named by its stem, with the payload of its icon;
/// any other file gives none.
pub open spec fn emitted(entry: EntryView) -> Option<ItemView>
    decreases entry, 0int,
{
    if is_noise(entry.file_name) {
        None
    } else if entry.is_dir {
        if scanned(entry.children).len() > 0 {
            Some(ItemView::folder(entry.file_name, entry.path, scanned(entry.children)))
        } else {
            None
        }
    } else if is_launchable(entry.file_name) {
        Some(ItemView::file(stem(entry.file_name), entry.path, extracted(entry.icon)))
    } else {
        None
    }
}

/// The nodes that the entries of a listing give, in the order of the listing.
pub open spec fn collected(entries: Seq<EntryView>) -> Seq<ItemView>
    decreases entries, 0int,
{
    if entries.len() == 0 {
        Seq::empty()
    } else {
        match emitted(entries.last()) {
            Some(item) => collected(entries.drop_last()).push(item),
            None => collected(entries.drop_last()),
        }
    }
}

/// The scan of a listing: the nodes that its entries give, in display order.
pub open spec fn scanned(entries: Seq<EntryView>) -> Seq<ItemView>
    decreases entries, 1int,
{
    stable_sort(collected(entries))
}

/// Entries that give no node leave nothing to collect.
proof fn lemma_nothing_collected(entries: Seq<EntryView>)
    requires
        forall|i: int| 0 <= i < entries.len() ==> emitted(#[trigger] entries[i]) is None,
    ensures
        collected(entries) == Seq::<ItemView>::empty(),
    decreases entries.len(),
{
    if entries.len() > 0 {
        let front = entries.drop_last();
        assert forall|i: int| 0 <= i < front.len() implies emitted(#[trigger] front[i]) is None by {
            assert(front[i] == entries[i]);
        }
        lemma_nothing_collected(front);
        assert(entries.last() == entries[entries.len() - 1]);
    }
}

/// The scan of a listing that holds only hidden entries and the metadata
/// file is empty.
pub proof fn lemma_noise_scans_empty(entries: Seq<EntryView>)
    requires
        forall|i: int| 0 <= i < entries.len() ==> is_noise(#[trigger] entries[i].file_name),
    ensures
        scanned(entries) == Seq::<ItemView>::empty(),
{
    assert forall|i: int| 0 <= i < entries.len() implies emitted(#[trigger] entries[i]) is None by {
        assert(is_noise(entries[i].file_name));
    }
    lemma_nothing_collected(entries);
}

/// A directory gives no folder where none of its entries gives a node: what
/// is pruned below prunes what is above.
pub proof fn lemma_empty_directory_pruned(entry: EntryView)
    requires
        entry.is_dir,
        forall|i: int|
            0 <= i < entry.children.len() ==> emitted(#[trigger] entry.children[i]) is None,
    ensures
        emitted(entry) is None,
{
    lemma_nothing_collected(entry.children);
}

/// A shortcut or executable for which the shell gave no icon is still
/// listed, without an icon.
pub proof fn lemma_file_without_icon(entry: EntryView)
    requires
        !is_noise(entry.file_name),
        !entry.is_dir,
        is_launchable(entry.file_name),
        entry.icon is None,
    ensures
        emitted(entry) == Some(ItemView::file(stem(entry.file_name), entry.path, None)),
{
}

/// What is collected is what the entries give, and nothing else.
proof fn lemma_collected_members(entries: Seq<EntryView>)
    ensures
        forall|x: ItemView|
            collected(entries).contains(x) <==> exists|i: int|
                0 <= i < entries.len() && emitted(#[trigger] entries[i]) == Some(x),
    decreases entries.len(),
{
    if entries.len() == 0 {
        assert forall|x: ItemView| !collected(entries).contains(x) by {}
    } else {
        let front = entries.drop_last();
        let last = entries.last();
        lemma_collected_members(front);
        assert forall|x: ItemView|
            collected(entries).contains(x) <==> exists|i: int|
                0 <= i < entries.len() && emitted(#[trigger] entries[i]) == Some(x) by {
            if collected(entries).contains(x) {
                let k = choose|k: int|
                    0 <= k < collected(entries).len() && collected(entries)[k] == x;
                if emitted(last) is Some && k == collected(front).len() {
                    assert(emitted(entries[entries.len() - 1]) == Some(x));
                } else {
                    assert(collected(front)[k] == x);
                    assert(collected(front).contains(x));
                    let i = choose|i: int|
                        0 <= i < front.len() && emitted(#[trigger] front[i]) == Some(x);
                    assert(emitted(entries[i]) == Some(x));
                }
            }
            if exists|i: int| 0 <= i < entries.len() && emitted(#[trigger] entries[i]) == Some(x) {
                let i = choose|i: int|
                    0 <= i < entries.len() && emitted(#[trigger] entries[i]) == Some(x);
                if i == entries.len() - 1 {
                    assert(collected(entries)[collected(front).len() as int] == x);
                } else {
                    assert(emitted(front[i]) == Some(x));
                    assert(collected(front).contains(x));
                    let k = choose|k: int|
                        0 <= k < collected(front).len() && collected(front)[k] == x;
                    assert(collected(entries)[k] == x);
                }
            }
        }
    }
}

/// The scan holds exactly the nodes that the entries of the listing give.
pub proof fn lemma_scan_members(entries: Seq<EntryView>)
    ensures
        forall|x: ItemView|
            scanned(entries).contains(x) <==> exists|i: int|
                0 <= i < entries.len() && emitted(#[trigger] entries[i]) == Some(x),
{
    lemma_collected_members(entries);
    lemma_sort_members(collected(entries));
    assert forall|x: ItemView|
        scanned(entries).contains(x) <==> exists|i: int|
            0 <= i < entries.len() && emitted(#[trigger] entries[i]) == Some(x) by {
        assert(stable_sort(collected(entries)).contains(x) <==> collected(entries).contains(x));
    }
}

/// Every node that an entry gives is valid.
proof fn lemma_emitted_valid(entry: EntryView)
    ensures
        emitted(entry) matches Some(item) ==> valid_node(item),
    decreases entry, 0int,
{
    if !is_noise(entry.file_name) && entry.is_dir {
        lemma_scan_valid(entry.children);
    }
}

/// Every node that is collected is valid.
proof fn lemma_collected_valid(entries: Seq<EntryView>)
    ensures
        all_valid(collected(entries)),
    decreases entries, 0int,
{
    if entries.len() > 0 {
        lemma_collected_valid(entries.drop_last());
        lemma_emitted_valid(entries.last());
    }
}

/// A scan is in display order at every depth, and holds no folder without
/// children, however deep.
pub proof fn lemma_scan_valid(entries: Seq<EntryView>)
    ensures
        valid_siblings(scanned(entries)),
    decreases entries, 1int,
{
    lemma_collected_valid(entries);
    lemma_sort_valid(collected(entries));
}

/// Scans the listing of one directory: passes over hidden entries and the
/// metadata file, turns each directory into a folder of its own scan unless
/// that is empty, each shortcut and executable into a file node with its
/// icon, and sorts what it found into display order.
pub fn scan_directory(entries: &Vec<DirEntry>) -> (r: Vec<ProgramItem>)
    ensures
        views(r@) == scanned(entry_views(entries@)),
        valid_siblings(views(r@)),
    decreases entries,
{
    let ghost all = entry_views(entries@);
    let mut items: Vec<ProgramItem> = Vec::new();
    let mut i: usize = 0;
    assert(views(items@) =~= collected(all.take(0)));
    while i < entries.len()
        invariant
            i <= entries@.len(),
            all == entry_views(entries@),
            views(items@) == collected(all.take(i as int)),
        decreases entries@.len() - i,
    {
        let entry = &entries[i];
        let ghost before = views(items@);
        proof {
            let next = all.take(i + 1);
            assert(next.drop_last() =~= all.take(i as int));
            assert(next.last() == entry@);
            assert(collected(next) == match emitted(entry@) {
                Some(item) => before.push(item),
                None => before,
            });
        }
        if !noise(entry.file_name.as_str()) {
            if entry.is_dir {
                let children = scan_directory(&entry.children);
                if children.len() > 0 {
                    let folder = ProgramItem::folder(
                        entry.file_name.clone(),
                        entry.path.clone(),
                        children,
                    );
                    items.push(folder);
                    assert(emitted(entry@) == Some(folder@));
                    assert(views(items@) =~= before.push(folder@));
                }
            } else if launchable(entry.file_name.as_str()) {
                let icon = extract_icon(&entry.icon);
                let file = ProgramItem::file(
                    file_stem(entry.file_name.as_str()),
                    entry.path.clone(),
                    icon,
                );
                items.push(file);
                assert(emitted(entry@) == Some(file@));
                assert(views(items@) =~= before.push(file@));
            }
        }
        i = i + 1;
    }
    proof {
        assert(all.take(i as int) =~= all);
        lemma_scan_valid(all);
    }
    sort_items(items)
}

} // verus!
