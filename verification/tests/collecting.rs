use qtrs_build::collect::{collect, is_extension};
use qtrs_build::Entry;

fn file(name: &str) -> Entry {
    Entry::File { name: name.to_string() }
}

fn dir(name: &str, entries: Vec<Entry>) -> Entry {
    Entry::Dir { name: name.to_string(), entries: Some(entries) }
}

fn strings(list: &[&str]) -> Vec<String> {
    list.iter().map(|s| s.to_string()).collect()
}

#[test]
fn extension_is_behind_the_last_dot() {
    assert!(is_extension("main.ui", "ui"));
    assert!(is_extension("a.b.ui", "ui"));
    assert!(is_extension("..ui", "ui"));
    assert!(!is_extension("main.ui.bak", "ui"));
    assert!(!is_extension("main.UI", "ui"));
    assert!(!is_extension("mainui", "ui"));
    assert!(!is_extension("ui", "ui"));
    assert!(!is_extension(".ui", "ui"));
    assert!(!is_extension("", "ui"));
    assert!(!is_extension("a.b.ui", "b.ui"));
}

#[test]
fn extension_agrees_with_std() {
    for name in ["a", "a.", ".a", "..", ".", "a.ui", ".ui", "..ui", "a..ui", "x.y.ui", "é.ui"] {
        for ext in ["ui", "", "a", "y.ui"] {
            let std_says = std::path::Path::new(name).extension().and_then(|e| e.to_str());
            assert_eq!(is_extension(name, ext), std_says == Some(ext), "{name:?} {ext:?}");
        }
    }
}

#[test]
fn missing_directory_has_no_files() {
    assert_eq!(collect("/p/ui", &None, "ui"), Vec::<String>::new());
}

#[test]
fn empty_directory_has_no_files() {
    assert_eq!(collect("/p/ui", &Some(Vec::new()), "ui"), Vec::<String>::new());
}

#[test]
fn files_are_collected_at_every_depth_and_sorted() {
    let tree = vec![
        file("main.ui"),
        dir("dialogs", vec![file("open.ui"), dir("deep", vec![file("x.ui")]), file("notes.txt")]),
        file("about.ui"),
        file("icons.qrc"),
        dir("empty.ui", vec![]),
    ];
    assert_eq!(
        collect("/p/ui", &Some(tree), "ui"),
        strings(&[
            "/p/ui/about.ui",
            "/p/ui/dialogs/deep/x.ui",
            "/p/ui/dialogs/open.ui",
            "/p/ui/main.ui"
        ])
    );
}

#[test]
fn unreadable_directory_is_passed_over() {
    let tree = vec![
        Entry::Dir { name: "locked".to_string(), entries: None },
        file("a.qrc"),
    ];
    assert_eq!(collect("/r", &Some(tree), "qrc"), strings(&["/r/a.qrc"]));
}

#[test]
fn order_is_that_of_the_paths() {
    let tree = vec![file("a-b.ui"), dir("a", vec![file("b.ui")])];
    assert_eq!(collect("/u", &Some(tree), "ui"), strings(&["/u/a/b.ui", "/u/a-b.ui"]));
}
