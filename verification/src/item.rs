use vstd::prelude::*;
use crate::text::text_of;

verus! {

/// Mathematical model of one catalog node.
pub struct ItemView {
    /// Display name: a file's stem, a folder's own name.
    pub name: Seq<char>,
    /// Absolute path of the file or folder.
    pub path: Seq<char>,
    /// Whether the node is a folder.
    pub is_folder: bool,
    /// The nodes inside a folder, in display order.
    pub children: Seq<ItemView>,
    /// Encoded icon of a file, where one could be made.
    pub icon: Option<Seq<char>>,
}

impl ItemView {
    /// The model of a file node.
    pub open spec fn file(name: Seq<char>, path: Seq<char>, icon: Option<Seq<char>>) -> ItemView {
        ItemView { name, path, is_folder: false, children: Seq::empty(), icon }
    }

    /// The model of a folder node.
    pub open spec fn folder(name: Seq<char>, path: Seq<char>, children: Seq<ItemView>) -> ItemView {
        ItemView { name, path, is_folder: true, children, icon: None }
    }
}

/// One node of the catalog tree: a launchable file or a folder of nodes.
#[derive(Debug, PartialEq, Eq)]
pub struct ProgramItem {
    name: String,
    path: String,
    is_folder: bool,
    children: Vec<ProgramItem>,
    icon: Option<String>,
}

/// The model of one node.
pub closed spec fn item_view(item: ProgramItem) -> ItemView
    decreases item, 1int,
{
    ItemView {
        name: item.name@,
        path: item.path@,
        is_folder: item.is_folder,
        children: views(item.children@),
        icon: text_of(item.icon),
    }
}

/// The models of a sequence of nodes, in order.
pub closed spec fn views(items: Seq<ProgramItem>) -> Seq<ItemView>
    decreases items, 0int,
{
    if items.len() == 0 {
        Seq::empty()
    } else {
        views(items.drop_last()).push(item_view(items.last()))
    }
}

impl View for ProgramItem {
    type V = ItemView;

    open spec fn view(&self) -> ItemView {
        item_view(*self)
    }
}

/// `views` maps each node to its model and keeps the order.
pub broadcast proof fn lemma_views(items: Seq<ProgramItem>)
    ensures
        #![trigger views(items)]
        views(items).len() == items.len(),
        forall|i: int| 0 <= i < items.len() ==> (#[trigger] views(items)[i]) == items[i]@,
    decreases items.len(),
{
    if items.len() > 0 {
        lemma_views(items.drop_last());
    }
}

/// The models of a list with one node put in are the models with its model
/// put in at the same place.
pub proof fn lemma_views_insert(items: Seq<ProgramItem>, at: int, item: ProgramItem)
    requires
        0 <= at <= items.len(),
    ensures
        views(items.insert(at, item)) == views(items).insert(at, item@),
{
    broadcast use lemma_views;

    assert(views(items.insert(at, item)) =~= views(items).insert(at, item@));
}

/// The models of two lists joined are the models joined.
pub proof fn lemma_views_concat(a: Seq<ProgramItem>, b: Seq<ProgramItem>)
    ensures
        views(a + b) == views(a) + views(b),
{
    broadcast use lemma_views;

    assert(views(a + b) =~= views(a) + views(b));
}

impl ProgramItem {
    /// A file node.
    pub fn file(name: String, path: String, icon: Option<String>) -> (r: ProgramItem)
        ensures
            r@ == ItemView::file(name@, path@, text_of(icon)),
    {
        let r = ProgramItem { name, path, is_folder: false, children: Vec::new(), icon };
        assert(views(r.children@) =~= Seq::empty());
        r
    }

    /// A folder node holding `children` in the order given.
    pub fn folder(name: String, path: String, children: Vec<ProgramItem>) -> (r: ProgramItem)
        ensures
            r@ == ItemView::folder(name@, path@, views(children@)),
    {
        ProgramItem { name, path, is_folder: true, children, icon: None }
    }

    /// Takes the node apart: name, path, kind, children and icon.
    pub fn into_parts(self) -> (r: (String, String, bool, Vec<ProgramItem>, Option<String>))
        ensures
            r.0@ == self@.name,
            r.1@ == self@.path,
            r.2 == self@.is_folder,
            views(r.3@) == self@.children,
            text_of(r.4) == self@.icon,
    {
        (self.name, self.path, self.is_folder, self.children, self.icon)
    }

    /// Puts a node together from its parts.
    pub fn from_parts(
        name: String,
        path: String,
        is_folder: bool,
        children: Vec<ProgramItem>,
        icon: Option<String>,
    ) -> (r: ProgramItem)
        ensures
            r@ == (ItemView {
                name: name@,
                path: path@,
                is_folder,
                children: views(children@),
                icon: text_of(icon),
            }),
    {
        ProgramItem { name, path, is_folder, children, icon }
    }

    /// Display name of the node.
    pub fn name(&self) -> (r: &String)
        ensures
            r@ == self@.name,
    {
        &self.name
    }

    /// Absolute path of the node.
    pub fn path(&self) -> (r: &String)
        ensures
            r@ == self@.path,
    {
        &self.path
    }

    /// Whether the node is a folder.
    pub fn is_folder(&self) -> (r: bool)
        ensures
            r == self@.is_folder,
    {
        self.is_folder
    }

    /// The nodes inside the node, in display order.
    pub fn children(&self) -> (r: &Vec<ProgramItem>)
        ensures
            views(r@) == self@.children,
    {
        &self.children
    }

    /// Encoded icon of the node, if it has one.
    pub fn icon(&self) -> (r: Option<&String>)
        ensures
            r matches Some(text) ==> self@.icon == Some(text@),
            r is None ==> self@.icon is None,
    {
        self.icon.as_ref()
    }
}

impl Clone for ProgramItem {
    /// A copy of the node and of all that is below it.
    fn clone(&self) -> (r: ProgramItem)
        ensures
            r@ == self@,
        decreases self,
    {
        let mut children: Vec<ProgramItem> = Vec::new();
        let mut i: usize = 0;
        while i < self.children.len()
            invariant
                i <= self.children@.len(),
                children@.len() == i,
                forall|k: int| 0 <= k < i ==> children@[k]@ == self.children@[k]@,
            decreases self.children@.len() - i,
        {
            let child = self.children[i].clone();
            children.push(child);
            i = i + 1;
        }
        proof {
            lemma_views(children@);
            lemma_views(self.children@);
            assert(views(children@) =~= views(self.children@));
        }
        ProgramItem {
            name: self.name.clone(),
            path: self.path.clone(),
            is_folder: self.is_folder,
            children,
            icon: match &self.icon {
                Some(text) => Some(text.clone()),
                None => None,
            },
        }
    }
}

} // verus!
