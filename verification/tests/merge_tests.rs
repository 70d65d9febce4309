use launcher_catalog::catalog::build_catalog;
use launcher_catalog::item::ProgramItem;
use launcher_catalog::merge::merge_items;

fn file(name: &str, path: &str) -> ProgramItem {
    ProgramItem::file(name.to_string(), path.to_string(), None)
}

fn folder(name: &str, path: &str, children: Vec<ProgramItem>) -> ProgramItem {
    ProgramItem::folder(name.to_string(), path.to_string(), children)
}

fn outline(items: &[ProgramItem]) -> Vec<String> {
    let mut lines = Vec::new();
    for item in items {
        let kind = if item.is_folder() { "D" } else { "F" };
        lines.push(format!("{} {} {}", kind, item.name(), item.path()));
        for line in outline(item.children()) {
            lines.push(format!("  {}", line));
        }
    }
    lines
}

#[test]
fn same_named_folders_are_united() {
    let merged = merge_items(vec![
        folder("Games", "A\\Games", vec![file("Chess", "A\\Games\\Chess.lnk"), file("Tetris", "A\\Games\\Tetris.lnk")]),
        folder("Games", "B\\Games", vec![file("Solitaire", "B\\Games\\Solitaire.lnk")]),
    ]);
    assert_eq!(
        outline(&merged),
        vec![
            "D Games A\\Games",
            "  F Chess A\\Games\\Chess.lnk",
            "  F Solitaire B\\Games\\Solitaire.lnk",
            "  F Tetris A\\Games\\Tetris.lnk",
        ]
    );
}

#[test]
fn united_folder_keeps_children_that_look_alike() {
    let merged = merge_items(vec![
        folder("Games", "A\\Games", vec![file("Chess", "A\\Games\\Chess.lnk")]),
        folder("Games", "B\\Games", vec![file("Chess", "B\\Games\\Chess.lnk")]),
        folder("Games", "C\\Games", vec![file("chess", "C\\Games\\chess.exe")]),
    ]);
    assert_eq!(
        outline(&merged),
        vec![
            "D Games A\\Games",
            "  F Chess A\\Games\\Chess.lnk",
            "  F Chess B\\Games\\Chess.lnk",
            "  F chess C\\Games\\chess.exe",
        ]
    );
}

#[test]
fn subfolders_of_united_folders_are_not_united() {
    let merged = merge_items(vec![
        folder("Tools", "A\\Tools", vec![folder("Sub", "A\\Tools\\Sub", vec![file("x", "A\\x")])]),
        folder("Tools", "B\\Tools", vec![folder("Sub", "B\\Tools\\Sub", vec![file("y", "B\\y")])]),
    ]);
    assert_eq!(
        outline(&merged),
        vec![
            "D Tools A\\Tools",
            "  D Sub A\\Tools\\Sub",
            "    F x A\\x",
            "  D Sub B\\Tools\\Sub",
            "    F y B\\y",
        ]
    );
}

#[test]
fn files_are_never_merged() {
    let merged = merge_items(vec![
        file("Notes", "A\\Notes.lnk"),
        file("Notes", "B\\Notes.lnk"),
        file("Notes", "A\\Notes.lnk"),
    ]);
    assert_eq!(
        outline(&merged),
        vec!["F Notes A\\Notes.lnk", "F Notes B\\Notes.lnk", "F Notes A\\Notes.lnk"]
    );
}

#[test]
fn file_named_like_a_folder_stays_a_node_of_its_own() {
    let merged = merge_items(vec![
        folder("Tools", "A\\Tools", vec![file("App", "A\\Tools\\App.lnk")]),
        file("Tools", "B\\Tools.lnk"),
        file("Other", "B\\Other.lnk"),
        folder("Other", "B\\Other", vec![file("o", "B\\Other\\o.exe")]),
    ]);
    assert_eq!(
        outline(&merged),
        vec![
            "D Tools A\\Tools",
            "  F App A\\Tools\\App.lnk",
            "F Tools B\\Tools.lnk",
            "F Other B\\Other.lnk",
            "D Other B\\Other",
            "  F o B\\Other\\o.exe",
        ]
    );
}

#[test]
fn folder_names_are_matched_exactly() {
    let merged = merge_items(vec![
        folder("Games", "A\\Games", vec![file("a", "1")]),
        folder("games", "B\\games", vec![file("b", "2")]),
    ]);
    assert_eq!(
        outline(&merged),
        vec!["D Games A\\Games", "  F a 1", "D games B\\games", "  F b 2"]
    );
}

#[test]
fn merging_keeps_the_order_of_first_appearance() {
    let merged = merge_items(vec![
        file("z", "1"),
        folder("B", "b1", vec![file("q", "q")]),
        folder("A", "a1", vec![file("r", "r")]),
        folder("B", "b2", vec![file("p", "p")]),
    ]);
    assert_eq!(
        outline(&merged),
        vec!["F z 1", "D B b1", "  F p p", "  F q q", "D A a1", "  F r r"]
    );
    assert!(merge_items(Vec::new()).is_empty());
}

#[test]
fn catalog_of_two_scans_is_merged_and_sorted() {
    let system = vec![
        folder("Games", "A\\Games", vec![file("Chess", "A\\Games\\Chess.lnk")]),
        file("Zed", "A\\Zed.lnk"),
    ];
    let user = vec![
        folder("Accessories", "B\\Accessories", vec![file("Paint", "B\\Accessories\\Paint.lnk")]),
        folder("Games", "B\\Games", vec![file("Arcade", "B\\Games\\Arcade.lnk")]),
        file("alpha", "B\\alpha.exe"),
    ];
    let catalog = build_catalog(system, user);
    assert_eq!(
        outline(&catalog),
        vec![
            "D Accessories B\\Accessories",
            "  F Paint B\\Accessories\\Paint.lnk",
            "D Games A\\Games",
            "  F Arcade B\\Games\\Arcade.lnk",
            "  F Chess A\\Games\\Chess.lnk",
            "F alpha B\\alpha.exe",
            "F Zed A\\Zed.lnk",
        ]
    );
}

#[test]
fn catalog_has_one_top_level_folder_for_each_name() {
    let system = vec![
        folder("a", "1", vec![file("x", "x")]),
        folder("b", "2", vec![file("y", "y")]),
    ];
    let user = vec![
        folder("b", "3", vec![file("z", "z")]),
        folder("a", "4", vec![file("w", "w")]),
        folder("c", "5", vec![file("v", "v")]),
    ];
    let catalog = build_catalog(system, user);
    let names: Vec<&String> = catalog.iter().filter(|i| i.is_folder()).map(|i| i.name()).collect();
    assert_eq!(names, vec!["a", "b", "c"]);
    assert!(build_catalog(Vec::new(), Vec::new()).is_empty());
}
