use qtrs_build::forms::{
    alias_of_form, escape_xml, header_of_form, name_of_form, qrc_of_forms, sanitize_ident,
    strip_extension,
};

fn strings(list: &[&str]) -> Vec<String> {
    list.iter().map(|s| s.to_string()).collect()
}

#[test]
fn identifiers_are_kept() {
    assert_eq!(sanitize_ident("main_Window2"), "main_Window2");
    assert_eq!(sanitize_ident("_x"), "_x");
}

#[test]
fn other_characters_become_underscores() {
    assert_eq!(sanitize_ident("my-form.v2"), "my_form_v2");
    assert_eq!(sanitize_ident("a/b\\c"), "a_b_c");
    assert_eq!(sanitize_ident("é"), "_");
    assert_eq!(sanitize_ident("-"), "_");
}

#[test]
fn an_underscore_is_put_before_digits_and_nothing() {
    assert_eq!(sanitize_ident("2nd"), "_2nd");
    assert_eq!(sanitize_ident(""), "_");
}

#[test]
fn sanitizing_twice_makes_no_difference() {
    for s in ["", "1", "a b", "_", "é1"] {
        let once = sanitize_ident(s);
        assert_eq!(sanitize_ident(&once), once);
    }
}

#[test]
fn names_that_read_alike_become_one() {
    assert_eq!(sanitize_ident("a-b"), sanitize_ident("a_b"));
    assert_eq!(sanitize_ident("1a"), sanitize_ident("_1a"));
    assert_ne!(sanitize_ident("ab"), sanitize_ident("a_b"));
    assert_ne!(sanitize_ident("a"), sanitize_ident("_a"));
}

#[test]
fn extension_is_stripped_as_std_does() {
    for p in [
        "a.ui", "a.b.ui", "d.x/a.ui", "d.x/a", "a", ".ui", "d/.ui", "..", "d/..", "a.", "a..ui", "", "é.ui",
    ] {
        let expected = std::path::Path::new(p).with_extension("");
        assert_eq!(strip_extension(p), expected.to_str().unwrap(), "{p:?}");
    }
}

#[test]
fn extension_behind_a_dot_is_stripped() {
    assert_eq!(strip_extension("..ui"), ".");
    assert_eq!(strip_extension("d/..ui"), "d/.");
}

fn aliases(forms: &[&str]) -> Vec<String> {
    let forms = strings(forms);
    (0..forms.len()).map(|i| alias_of_form(&forms, i)).collect()
}

fn headers(forms: &[&str]) -> Vec<String> {
    let forms = strings(forms);
    (0..forms.len()).map(|i| header_of_form(&forms, i)).collect()
}

#[test]
fn plain_form_keeps_its_name() {
    for name in ["main", "my-form", "2nd form", "a.b", "é", "_"] {
        let form = format!("{name}.ui");
        assert_eq!(aliases(&[&form]), vec![format!("qrc/{name}.ui")]);
    }
    assert_eq!(headers(&["main.ui", "my-form.ui"]), strings(&["ui_main.h", "ui_my_form.h"]));
}

#[test]
fn plain_form_keeps_its_name_whatever_stands_beside_it() {
    assert_eq!(aliases(&["a/b.ui", "a_b.ui"])[1], "qrc/a_b.ui");
    assert_eq!(aliases(&["a-b.ui", "a_b.ui"]), strings(&["qrc/a-b.ui", "qrc/a_b.ui"]));
}

#[test]
fn nested_form_is_flattened() {
    let forms = strings(&["dialogs/open.ui"]);
    assert_eq!(name_of_form(&forms, 0), "dialogs_open");
    assert_eq!(alias_of_form(&forms, 0), "qrc/dialogs_open.ui");
    assert_eq!(header_of_form(&forms, 0), "ui_dialogs_open.h");
    assert_eq!(aliases(&["dialogs/2nd form.ui"]), strings(&["qrc/dialogs_2nd form.ui"]));
}

#[test]
fn nested_form_that_would_share_its_name_keeps_its_separators() {
    assert_eq!(aliases(&["a/b.ui", "a_b.ui"]), strings(&["qrc/a/b.ui", "qrc/a_b.ui"]));
    assert_eq!(aliases(&["a/b_c.ui", "a_b/c.ui"]), strings(&["qrc/a/b_c.ui", "qrc/a_b/c.ui"]));
}

#[test]
fn headers_are_numbered_where_they_would_be_the_same() {
    assert_eq!(headers(&["a/b.ui", "a_b.ui", "c.ui"]), strings(&["ui_a_b-0.h", "ui_a_b-1.h", "ui_c.h"]));
    assert_eq!(headers(&["a-b.ui", "a_b.ui"]), strings(&["ui_a_b-0.h", "ui_a_b-1.h"]));
}

#[test]
fn forms_have_resource_paths_and_headers_of_their_own() {
    let forms = [
        "1a.ui", "_1a.ui", "a/b.ui", "a_b.ui", "a-b.ui", "a b.ui", "a/b/c.ui", "a/b_c.ui", "a_b/c.ui",
        "a_b_c.ui", "a_b-0.ui", "é.ui", "è.ui", "a.b.ui",
    ];
    for all in [aliases(&forms), headers(&forms)] {
        for i in 0..all.len() {
            for j in 0..i {
                assert_ne!(all[i], all[j], "{} {}", forms[i], forms[j]);
            }
        }
    }
}

#[test]
fn list_maps_each_form_to_its_resource_path() {
    let text = qrc_of_forms(
        &strings(&["/pkg/ui/d/x-y.ui", "/pkg/ui/main.ui"]),
        &strings(&["d/x-y.ui", "main.ui"]),
    );
    assert_eq!(
        text,
        "<RCC>\n    <qresource prefix=\"/\">\n\
         \x20       <file alias=\"qrc/d_x-y.ui\">/pkg/ui/d/x-y.ui</file>\n\
         \x20       <file alias=\"qrc/main.ui\">/pkg/ui/main.ui</file>\n\
         \x20   </qresource>\n</RCC>\n"
    );
}

#[test]
fn list_of_no_forms_is_empty() {
    assert_eq!(
        qrc_of_forms(&Vec::new(), &Vec::new()),
        "<RCC>\n    <qresource prefix=\"/\">\n    </qresource>\n</RCC>\n"
    );
}

#[test]
fn names_are_written_as_xml() {
    assert_eq!(escape_xml("a&b<c>\"d\"\t\n\r'"), "a&amp;b&lt;c&gt;&quot;d&quot;&#9;&#10;&#13;'");
    assert_eq!(escape_xml("my-form é"), "my-form é");
    let text = qrc_of_forms(&strings(&["/p/R&D.ui"]), &strings(&["R&D.ui"]));
    assert!(text.contains("<file alias=\"qrc/R&amp;D.ui\">/p/R&amp;D.ui</file>"));
}
