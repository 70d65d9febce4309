use launcher_catalog::catalog::get_all_programs;
use launcher_catalog::icon::{icon_to_base64, PixelDump};
use launcher_catalog::item::ProgramItem;
use launcher_catalog::listing::DirEntry;
use launcher_catalog::scan::scan_directory;

fn file_entry(dir: &str, name: &str) -> DirEntry {
    DirEntry {
        file_name: name.to_string(),
        path: format!("{}\\{}", dir, name),
        is_dir: false,
        children: Vec::new(),
        icon: None,
    }
}

fn dir_entry(dir: &str, name: &str, children: Vec<DirEntry>) -> DirEntry {
    DirEntry {
        file_name: name.to_string(),
        path: format!("{}\\{}", dir, name),
        is_dir: true,
        children,
        icon: None,
    }
}

fn outline(items: &[ProgramItem]) -> Vec<String> {
    let mut lines = Vec::new();
    for item in items {
        let kind = if item.is_folder() { "D" } else { "F" };
        lines.push(format!("{} {} {}", kind, item.name(), item.path()));
        for line in outline(item.children()) {
            lines.push(format!("  {}", line));
        }
    }
    lines
}

fn count_files(items: &[ProgramItem]) -> usize {
    items.iter().map(|i| if i.is_folder() { count_files(i.children()) } else { 1 }).sum()
}

#[test]
fn listing_of_noise_scans_empty() {
    let entries = vec![
        file_entry("R", ".hidden.lnk"),
        file_entry("R", "desktop.ini"),
        file_entry("R", ".exe"),
        dir_entry("R", ".git", vec![file_entry("R\\.git", "App.exe")]),
    ];
    assert!(scan_directory(&entries).is_empty());
    assert!(scan_directory(&Vec::new()).is_empty());
}

#[test]
fn empty_folders_are_pruned_at_every_depth() {
    let entries = vec![
        dir_entry(
            "R",
            "Outer",
            vec![
                dir_entry(
                    "R\\Outer",
                    "Inner",
                    vec![
                        file_entry("R\\Outer\\Inner", "readme.txt"),
                        dir_entry("R\\Outer\\Inner", "Deep", vec![file_entry("R\\Outer\\Inner\\Deep", "desktop.ini")]),
                    ],
                ),
                file_entry("R\\Outer", "notes.md"),
            ],
        ),
        dir_entry("R", "Unreadable", Vec::new()),
        dir_entry("R", "Kept", vec![dir_entry("R\\Kept", "Sub", vec![file_entry("R\\Kept\\Sub", "App.exe")])]),
    ];
    assert_eq!(
        outline(&scan_directory(&entries)),
        vec!["D Kept R\\Kept", "  D Sub R\\Kept\\Sub", "    F App R\\Kept\\Sub\\App.exe"]
    );
}

#[test]
fn only_shortcuts_and_executables_are_listed() {
    let entries = vec![
        file_entry("R", "Setup.exe"),
        file_entry("R", "Guide.pdf"),
        file_entry("R", "Link.lnk"),
        file_entry("R", "LOUD.EXE"),
        file_entry("R", "noext"),
        file_entry("R", "archive.exe.zip"),
    ];
    assert_eq!(
        outline(&scan_directory(&entries)),
        vec!["F Link R\\Link.lnk", "F Setup R\\Setup.exe"]
    );
}

#[test]
fn scan_sorts_folders_first_then_by_name() {
    let entries = vec![
        file_entry("R", "zeta.lnk"),
        dir_entry("R", "beta", vec![file_entry("R\\beta", "b.exe")]),
        file_entry("R", "Alpha.exe"),
        dir_entry("R", "Gamma", vec![file_entry("R\\Gamma", "z.lnk"), file_entry("R\\Gamma", "A.lnk")]),
        dir_entry("R", "alpha.lnk", vec![file_entry("R\\alpha.lnk", "inner.exe")]),
    ];
    let scan = scan_directory(&entries);
    assert_eq!(
        outline(&scan),
        vec![
            "D alpha.lnk R\\alpha.lnk",
            "  F inner R\\alpha.lnk\\inner.exe",
            "D beta R\\beta",
            "  F b R\\beta\\b.exe",
            "D Gamma R\\Gamma",
            "  F A R\\Gamma\\A.lnk",
            "  F z R\\Gamma\\z.lnk",
            "F Alpha R\\Alpha.exe",
            "F zeta R\\zeta.lnk",
        ]
    );
    for item in &scan {
        assert!(item.icon().is_none() || !item.is_folder());
    }
}

#[test]
fn file_without_icon_is_still_listed() {
    let scan = scan_directory(&vec![file_entry("R", "Ghost.lnk")]);
    assert_eq!(scan.len(), 1);
    assert_eq!(scan[0].name(), "Ghost");
    assert_eq!(scan[0].path(), "R\\Ghost.lnk");
    assert!(!scan[0].is_folder());
    assert_eq!(scan[0].icon(), None);
}

#[test]
fn file_with_a_dump_gets_its_icon() {
    let pixels = vec![0x10u8, 0x20, 0x30, 0xFF, 0x40, 0x50, 0x60, 0x70];
    let mut good = file_entry("R", "Good.exe");
    good.icon = Some(PixelDump { width: 2, height: 1, pixels: pixels.clone() });
    let mut bad = file_entry("R", "Bad.exe");
    bad.icon = Some(PixelDump { width: 2, height: 2, pixels: pixels.clone() });
    let scan = scan_directory(&vec![good, bad]);
    assert_eq!(scan.len(), 2);
    assert_eq!(scan[0].name(), "Bad");
    assert_eq!(scan[0].icon(), None);
    assert_eq!(scan[1].name(), "Good");
    let expected = icon_to_base64(2, 1, pixels);
    assert!(expected.is_some());
    assert_eq!(scan[1].icon(), expected.as_ref());
}

#[test]
fn two_roots_give_one_catalog() {
    let root_a = vec![dir_entry("A", "Tools", vec![file_entry("A\\Tools", "App1.exe")])];
    let root_b = vec![
        dir_entry("B", "Tools", vec![file_entry("B\\Tools", "App2.lnk")]),
        file_entry("B", "Notes.lnk"),
    ];
    let catalog = get_all_programs(Some(&root_a), Some(&root_b));
    assert_eq!(
        outline(&catalog),
        vec![
            "D Tools A\\Tools",
            "  F App1 A\\Tools\\App1.exe",
            "  F App2 B\\Tools\\App2.lnk",
            "F Notes B\\Notes.lnk",
        ]
    );
    assert_eq!(catalog.len(), 2);
    assert!(catalog[0].is_folder());
    assert!(!catalog[1].is_folder());
    assert_eq!(count_files(&catalog), 3);
    for item in catalog.iter().chain(catalog[0].children().iter()) {
        assert_eq!(item.icon(), None);
    }
}

#[test]
fn games_folders_of_two_roots_are_united() {
    let root_a = vec![dir_entry(
        "A",
        "Games",
        vec![file_entry("A\\Games", "Tetris.lnk"), file_entry("A\\Games", "chess.lnk")],
    )];
    let root_b = vec![dir_entry(
        "B",
        "Games",
        vec![file_entry("B\\Games", "Solitaire.exe"), file_entry("B\\Games", "Arcade.lnk")],
    )];
    let catalog = get_all_programs(Some(&root_a), Some(&root_b));
    assert_eq!(
        outline(&catalog),
        vec![
            "D Games A\\Games",
            "  F Arcade B\\Games\\Arcade.lnk",
            "  F chess A\\Games\\chess.lnk",
            "  F Solitaire B\\Games\\Solitaire.exe",
            "  F Tetris A\\Games\\Tetris.lnk",
        ]
    );
}

#[test]
fn missing_root_adds_nothing() {
    let root = vec![file_entry("A", "Only.lnk")];
    assert_eq!(outline(&get_all_programs(Some(&root), None)), vec!["F Only A\\Only.lnk"]);
    assert_eq!(outline(&get_all_programs(None, Some(&root))), vec!["F Only A\\Only.lnk"]);
    assert!(get_all_programs(None, None).is_empty());
}

#[test]
fn same_named_files_of_two_roots_both_appear() {
    let root_a = vec![file_entry("A", "Notes.lnk")];
    let root_b = vec![file_entry("B", "Notes.lnk"), file_entry("B", "notes.exe")];
    let catalog = get_all_programs(Some(&root_a), Some(&root_b));
    assert_eq!(
        outline(&catalog),
        vec!["F Notes A\\Notes.lnk", "F Notes B\\Notes.lnk", "F notes B\\notes.exe"]
    );
}
