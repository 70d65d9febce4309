use launcher_catalog::item::ProgramItem;
use launcher_catalog::order::{item_precedes, sort_items};

fn file(name: &str, path: &str) -> ProgramItem {
    ProgramItem::file(name.to_string(), path.to_string(), None)
}

fn folder(name: &str, children: Vec<ProgramItem>) -> ProgramItem {
    ProgramItem::folder(name.to_string(), format!("C:\\menu\\{}", name), children)
}

fn labels(items: &[ProgramItem]) -> Vec<(bool, String, String)> {
    items.iter().map(|i| (i.is_folder(), i.name().clone(), i.path().clone())).collect()
}

#[test]
fn folders_come_before_files() {
    let sorted = sort_items(vec![
        file("b", "1"),
        folder("Z", vec![file("x", "zx")]),
        file("A", "2"),
        folder("a", vec![file("y", "ay")]),
    ]);
    let names: Vec<(bool, String)> =
        sorted.iter().map(|i| (i.is_folder(), i.name().clone())).collect();
    assert_eq!(
        names,
        vec![
            (true, "a".to_string()),
            (true, "Z".to_string()),
            (false, "A".to_string()),
            (false, "b".to_string()),
        ]
    );
}

#[test]
fn is_folder_never_rises_and_names_never_fall() {
    let sorted = sort_items(vec![
        file("delta", "1"),
        file("Alpha", "2"),
        folder("gamma", vec![file("g", "g")]),
        file("beta", "3"),
        folder("Beta", vec![file("b", "b")]),
        file("alpha", "4"),
        folder("alpha", vec![file("a", "a")]),
    ]);
    assert_eq!(sorted.len(), 7);
    for pair in sorted.windows(2) {
        assert!(pair[0].is_folder() || !pair[1].is_folder());
        if pair[0].is_folder() == pair[1].is_folder() {
            assert!(pair[0].name().to_lowercase() <= pair[1].name().to_lowercase());
        }
    }
}

#[test]
fn ties_keep_the_order_they_came_in() {
    let sorted = sort_items(vec![
        file("x", "first"),
        file("X", "second"),
        file("a", "third"),
        file("x", "fourth"),
    ]);
    assert_eq!(
        labels(&sorted),
        vec![
            (false, "a".to_string(), "third".to_string()),
            (false, "x".to_string(), "first".to_string()),
            (false, "X".to_string(), "second".to_string()),
            (false, "x".to_string(), "fourth".to_string()),
        ]
    );
}

#[test]
fn sorting_nothing_and_one_node() {
    assert!(sort_items(Vec::new()).is_empty());
    let one = sort_items(vec![file("only", "p")]);
    assert_eq!(labels(&one), vec![(false, "only".to_string(), "p".to_string())]);
}

#[test]
fn sorting_keeps_every_node() {
    let input = vec![file("c", "1"), file("c", "1"), file("b", "2"), file("a", "3")];
    let sorted = sort_items(input);
    assert_eq!(
        labels(&sorted),
        vec![
            (false, "a".to_string(), "3".to_string()),
            (false, "b".to_string(), "2".to_string()),
            (false, "c".to_string(), "1".to_string()),
            (false, "c".to_string(), "1".to_string()),
        ]
    );
}

#[test]
fn precedence_of_two_nodes() {
    let tools = folder("tools", vec![file("t", "t")]);
    let apps = folder("Apps", vec![file("a", "a")]);
    let alpha = file("alpha", "1");
    let beta = file("Beta", "2");
    assert!(item_precedes(&tools, &alpha));
    assert!(!item_precedes(&alpha, &tools));
    assert!(item_precedes(&apps, &tools));
    assert!(!item_precedes(&tools, &apps));
    assert!(item_precedes(&alpha, &beta));
    assert!(!item_precedes(&beta, &alpha));
    assert!(!item_precedes(&alpha, &alpha));
}

#[test]
fn node_accessors_give_back_the_parts() {
    let icon = Some("aWNvbg==".to_string());
    let leaf = ProgramItem::file("App".to_string(), "C:\\App.lnk".to_string(), icon.clone());
    assert_eq!(leaf.name(), "App");
    assert_eq!(leaf.path(), "C:\\App.lnk");
    assert!(!leaf.is_folder());
    assert!(leaf.children().is_empty());
    assert_eq!(leaf.icon(), icon.as_ref());
    let dir = ProgramItem::folder("Dir".to_string(), "C:\\Dir".to_string(), vec![leaf]);
    assert!(dir.is_folder());
    assert_eq!(dir.icon(), None);
    assert_eq!(dir.children().len(), 1);
    assert_eq!(dir.children()[0].name(), "App");
    let (name, path, is_folder, children, icon) = dir.into_parts();
    assert_eq!(name, "Dir");
    assert_eq!(path, "C:\\Dir");
    assert!(is_folder);
    assert_eq!(children.len(), 1);
    assert_eq!(icon, None);
}

#[test]
fn clone_copies_the_whole_tree() {
    let leaf = ProgramItem::file("App".to_string(), "C:\\Dir\\App.lnk".to_string(), Some("aQ==".to_string()));
    let dir = folder("Dir", vec![leaf, folder("Sub", vec![file("x", "C:\\Dir\\Sub\\x.exe")])]);
    let copy = dir.clone();
    assert_eq!(copy, dir);
    assert_eq!(copy.children().len(), 2);
    assert_eq!(copy.children()[0].icon(), Some(&"aQ==".to_string()));
    assert_eq!(copy.children()[1].children()[0].path(), "C:\\Dir\\Sub\\x.exe");
    assert_ne!(copy, folder("Dir", Vec::new()));
}

#[test]
fn parts_put_together_give_the_node_back() {
    let dir = folder("Dir", vec![file("x", "C:\\Dir\\x.exe")]);
    let (name, path, is_folder, children, icon) = dir.clone().into_parts();
    assert_eq!(ProgramItem::from_parts(name, path, is_folder, children, icon), dir);
}
