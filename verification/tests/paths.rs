use qtrs_build::embed::manifest_dir;
use qtrs_build::path::{
    contains_path, is_same_path, join, make_absolute, path_is_le, sort_paths, starts_at_root,
    strip_prefix,
};
use qtrs_build::text::{decimal_text, trim};
use qtrs_build::tools::split_path_var;

fn strings(list: &[&str]) -> Vec<String> {
    list.iter().map(|s| s.to_string()).collect()
}

#[test]
fn join_puts_one_separator_between() {
    assert_eq!(join("/a", "b"), "/a/b");
    assert_eq!(join("/a/", "b"), "/a/b");
    assert_eq!(join("/", "b"), "/b");
    assert_eq!(join("", "b"), "b");
    assert_eq!(join(".", "ui"), "./ui");
}

#[test]
fn join_with_an_absolute_path_is_that_path() {
    assert_eq!(join("/a", "/b"), "/b");
}

#[test]
fn join_agrees_with_std() {
    for base in ["", "/", ".", "a", "a/", "/a//b"] {
        for rel in ["x", "x/y", "/x", ""] {
            let expected = std::path::Path::new(base).join(rel);
            assert_eq!(join(base, rel), expected.to_str().unwrap());
        }
    }
}

#[test]
fn paths_are_the_same_by_components() {
    assert!(is_same_path("/usr//include/", "/usr/include"));
    assert!(is_same_path("a/./b", "a/b"));
    assert!(!is_same_path("./a", "a"));
    assert!(!is_same_path("/a", "a"));
    assert!(!is_same_path("a/b", "a/c"));
}

#[test]
fn order_and_sameness_agree_with_std() {
    let paths = [
        "", ".", "..", "/", "a", "./a", "/a", "a/b", "a-b", "a.b", "a/b/c", "a//b", "a/./b", "../a",
        "..a", "B", "é", "a/", "ab", "/./a", "A/z", "z",
    ];
    for a in paths {
        for b in paths {
            let pa = std::path::Path::new(a);
            let pb = std::path::Path::new(b);
            assert_eq!(path_is_le(a, b), pa <= pb, "{a:?} {b:?}");
            assert_eq!(is_same_path(a, b), pa == pb, "{a:?} {b:?}");
        }
    }
}

#[test]
fn sort_goes_by_components_and_not_by_characters() {
    let sorted = sort_paths(strings(&["a-b.ui", "a/b.ui", "Z.ui", "a.ui"]));
    assert_eq!(sorted, strings(&["Z.ui", "a/b.ui", "a-b.ui", "a.ui"]));
}

#[test]
fn sort_keeps_the_order_of_the_same_path() {
    assert_eq!(sort_paths(strings(&["b", "a//x", "a/x"])), strings(&["a//x", "a/x", "b"]));
    assert_eq!(sort_paths(strings(&["b", "a/x", "a//x"])), strings(&["a/x", "a//x", "b"]));
}

#[test]
fn contains_path_goes_by_components() {
    let list = strings(&["/usr/include", "/opt/qt"]);
    assert!(contains_path(&list, "/opt//qt/"));
    assert!(!contains_path(&list, "/opt"));
}

#[test]
fn prefix_is_stripped_as_std_does() {
    let paths = [
        "", ".", "..", "/", "//", "./", ".//", "a", "a/", "a//", "./a", ".//a/", "/a", "//a//", "/./a", "a/b",
        "a/b/c", "a//b/", "a/./b", "a/b/.", "a/b//./c", "a/../b", "/a/b", "/a//b", "/a/b/c.ui", "/a/b//c.ui",
        "/a/b/./d//./c.ui/", "/q/a", "/ab", "é/x", "/.", "./.",
    ];
    for p in paths {
        for base in paths {
            let expected = std::path::Path::new(p).strip_prefix(base).ok();
            let expected_text = expected.map(|e| e.to_str().unwrap().to_string());
            assert_eq!(strip_prefix(p, base), expected_text, "{p:?} {base:?}");
        }
    }
}

#[test]
fn stripped_path_keeps_its_text() {
    assert_eq!(strip_prefix("/p/ui/a//b.ui", "/p/ui"), Some("a//b.ui".to_string()));
    assert_eq!(strip_prefix("/p/ui/.//a/./b.ui", "/p//ui/"), Some("a/./b.ui".to_string()));
}

#[test]
fn stripped_path_is_what_was_joined() {
    for rel in ["a.ui", "d/a.ui", "d/e/..ui"] {
        assert_eq!(strip_prefix(&join("/p/ui", rel), "/p/ui"), Some(rel.to_string()));
    }
    assert_eq!(strip_prefix("/q/a.ui", "/p/ui"), None);
}

#[test]
fn absolute_paths_start_at_the_root() {
    assert!(starts_at_root("/") && starts_at_root("/a"));
    assert!(!starts_at_root("") && !starts_at_root("a") && !starts_at_root("./a"));
}

#[test]
fn package_directory_is_seen_from_the_current_one() {
    assert_eq!(manifest_dir(None), ".");
    assert_eq!(manifest_dir(Some("/pkg".to_string())), "/pkg");
    assert_eq!(make_absolute("/work", "."), "/work");
    assert_eq!(make_absolute("/work", "sub"), "/work/sub");
    assert_eq!(make_absolute("/work", "/pkg"), "/pkg");
    assert_eq!(make_absolute("/work", "./ui/main.ui"), "/work/./ui/main.ui");
}

#[test]
fn path_variable_is_split_at_colons() {
    assert_eq!(
        split_path_var(&Some("/bin::/usr/bin".to_string())),
        strings(&["/bin", "", "/usr/bin"])
    );
    assert_eq!(split_path_var(&Some(String::new())), strings(&[""]));
    assert_eq!(split_path_var(&None), Vec::<String>::new());
}

#[test]
fn numbers_in_decimal() {
    assert_eq!(decimal_text(0), "0");
    assert_eq!(decimal_text(9), "9");
    assert_eq!(decimal_text(10), "10");
    assert_eq!(decimal_text(1234567890), "1234567890");
    assert_eq!(decimal_text(usize::MAX), usize::MAX.to_string());
}

#[test]
fn trim_agrees_with_std() {
    for s in ["", " ", "a", " /usr/include \n", "\u{a0}a b\u{3000}", "\u{200b}a\u{200b}", "\t\r\n"] {
        assert_eq!(trim(s), s.trim());
    }
}

#[test]
fn white_space_is_what_std_says() {
    for u in 0u32..0x11000 {
        if let Some(c) = char::from_u32(u) {
            let s = c.to_string();
            assert_eq!(trim(&s).is_empty(), c.is_whitespace(), "{u:x}");
        }
    }
}
