use launcher_catalog::names::{file_stem, launchable, noise};
use launcher_catalog::text::{chars_of, lex_less, name_less, same_text};

#[test]
fn hidden_entries_and_the_metadata_file_are_noise() {
    assert!(noise(".hidden"));
    assert!(noise("."));
    assert!(noise(".lnk"));
    assert!(noise("desktop.ini"));
    assert!(!noise("Desktop.ini"));
    assert!(!noise("desktop.ini.lnk"));
    assert!(!noise("App.exe"));
    assert!(!noise("Tools"));
    assert!(!noise(""));
}

#[test]
fn shortcuts_and_executables_are_launchable() {
    assert!(launchable("App1.exe"));
    assert!(launchable("App2.lnk"));
    assert!(launchable("a.b.exe"));
    assert!(launchable("Caf\u{e9} \u{1F600}.lnk"));
}

#[test]
fn other_files_are_not_launchable() {
    assert!(!launchable("readme.txt"));
    assert!(!launchable("noext"));
    assert!(!launchable("App.EXE"));
    assert!(!launchable("App.Lnk"));
    assert!(!launchable("App.exe."));
    assert!(!launchable("App.exe.bak"));
    assert!(!launchable(".lnk"));
    assert!(!launchable(".exe"));
    assert!(!launchable("exe"));
    assert!(!launchable(""));
}

#[test]
fn stem_is_the_name_without_its_extension() {
    assert_eq!(file_stem("App1.exe"), "App1");
    assert_eq!(file_stem("Notes.lnk"), "Notes");
    assert_eq!(file_stem("a.b.lnk"), "a.b");
    assert_eq!(file_stem("noext"), "noext");
    assert_eq!(file_stem(".bashrc"), ".bashrc");
    assert_eq!(file_stem("trailing."), "trailing");
    assert_eq!(file_stem("Caf\u{e9} \u{1F600}.lnk"), "Caf\u{e9} \u{1F600}");
    assert_eq!(file_stem(""), "");
}

#[test]
fn chars_of_keeps_every_character() {
    assert_eq!(chars_of("h\u{e9}llo"), vec!['h', '\u{e9}', 'l', 'l', 'o']);
    assert_eq!(chars_of(""), Vec::<char>::new());
}

#[test]
fn lexicographic_order_goes_by_code_point() {
    let order = |a: &str, b: &str| lex_less(&chars_of(a), &chars_of(b));
    assert!(order("a", "b"));
    assert!(!order("b", "a"));
    assert!(!order("a", "a"));
    assert!(order("", "a"));
    assert!(!order("a", ""));
    assert!(!order("", ""));
    assert!(order("ab", "abc"));
    assert!(order("Z", "a"));
    assert!(order("abc", "abd"));
    assert!(order("z", "\u{e9}"));
    assert!(order("\u{ffff}", "\u{10000}"));
}

#[test]
fn names_are_compared_without_regard_to_case() {
    assert!(name_less("apple", "Banana"));
    assert!(!name_less("Banana", "apple"));
    assert!(name_less("Apple", "banana"));
    assert!(!name_less("same", "SAME"));
    assert!(!name_less("SAME", "same"));
    assert!(name_less("\u{c9}a", "\u{e9}b"));
    assert!(name_less("App1", "app2"));
}

#[test]
fn same_text_compares_characters() {
    assert!(same_text("Tools", "Tools"));
    assert!(!same_text("Tools", "tools"));
    assert!(!same_text("Tools", "Tool"));
    assert!(same_text("", ""));
}
