use vstd::prelude::*;
use crate::icon::{dump_of, DumpView, PixelDump};

verus! {

/// One entry of a directory listing, as it was read: its name and path,
/// whether it is a directory, the listing of that directory (empty where it
/// could not be read), and for a file the pixel dump of its small icon where
/// the shell gave one.
#[derive(Debug, PartialEq, Eq)]
pub struct DirEntry {
    pub file_name: String,
    pub path: String,
    pub is_dir: bool,
    pub children: Vec<DirEntry>,
    pub icon: Option<PixelDump>,
}

/// Mathematical model of a directory entry.
pub struct EntryView {
    pub file_name: Seq<char>,
    pub path: Seq<char>,
    pub is_dir: bool,
    pub children: Seq<EntryView>,
    pub icon: Option<DumpView>,
}

/// The model of one entry.
pub open spec fn entry_view(entry: DirEntry) -> EntryView
    decreases entry, 1int,
{
    EntryView {
        file_name: entry.file_name@,
        path: entry.path@,
        is_dir: entry.is_dir,
        children: entry_views(entry.children@),
        icon: dump_of(entry.icon),
    }
}

/// The models of a listing, in order.
pub open spec fn entry_views(entries: Seq<DirEntry>) -> Seq<EntryView>
    decreases entries, 0int,
{
    if entries.len() == 0 {
        Seq::empty()
    } else {
        entry_views(entries.drop_last()).push(entry_view(entries.last()))
    }
}

impl View for DirEntry {
    type V = EntryView;

    open spec fn view(&self) -> EntryView {
        entry_view(*self)
    }
}

/// `entry_views` maps each entry to its model and keeps the order.
pub broadcast proof fn lemma_entry_views(entries: Seq<DirEntry>)
    ensures
        #![trigger entry_views(entries)]
        entry_views(entries).len() == entries.len(),
        forall|i: int|
            0 <= i < entries.len() ==> (#[trigger] entry_views(entries)[i]) == entries[i]@,
    decreases entries.len(),
{
    if entries.len() > 0 {
        lemma_entry_views(entries.drop_last());
    }
}

} // verus!
