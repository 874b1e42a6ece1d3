use qtrs_build::headers::{
    core_dir_candidates, dir_named_by, dir_reported_by, header_dir_candidates, headers_query_args, qmake_candidates,
    qt_include_dirs,
};
use qtrs_build::ProgramOutput;

fn strings(list: &[&str]) -> Vec<String> {
    list.iter().map(|s| s.to_string()).collect()
}

fn no_names() -> Vec<Vec<String>> {
    vec![Vec::new(), Vec::new(), Vec::new()]
}

fn output(success: bool, stdout: &[u8]) -> ProgramOutput {
    ProgramOutput { success, stdout: stdout.to_vec() }
}

#[test]
fn qmake_is_asked_under_four_names() {
    assert_eq!(qmake_candidates(), strings(&["qmake6", "qmake", "qmake-qt5", "qmake-qt6"]));
    assert_eq!(headers_query_args(), strings(&["-query", "QT_INSTALL_HEADERS"]));
}

#[test]
fn reported_directory_is_trimmed() {
    assert_eq!(
        dir_reported_by(&output(true, b"  /usr/include/qt6\r\n")),
        Some("/usr/include/qt6".to_string())
    );
    assert_eq!(dir_named_by(" a b "), Some("a b".to_string()));
}

#[test]
fn nothing_is_reported_by_failure_or_white_space() {
    assert_eq!(dir_reported_by(&output(false, b"/usr/include\n")), None);
    assert_eq!(dir_reported_by(&output(true, b" \n\t")), None);
    assert_eq!(dir_reported_by(&output(true, b"")), None);
    assert_eq!(dir_named_by("\u{3000}"), None);
}

#[test]
fn bytes_that_are_not_utf8_are_replaced() {
    assert_eq!(
        dir_reported_by(&output(true, b"/usr/\xff/\xc3\xa9\n")),
        Some("/usr/\u{fffd}/é".to_string())
    );
}

#[test]
fn candidates_are_three_roots_with_three_modules() {
    assert_eq!(
        header_dir_candidates("/inc", &no_names()),
        strings(&[
            "/inc",
            "/inc/QtCore",
            "/inc/QtGui",
            "/inc/QtWidgets",
            "/inc/qt6",
            "/inc/qt6/QtCore",
            "/inc/qt6/QtGui",
            "/inc/qt6/QtWidgets",
            "/inc/Qt6",
            "/inc/Qt6/QtCore",
            "/inc/Qt6/QtGui",
            "/inc/Qt6/QtWidgets",
        ])
    );
}

#[test]
fn existing_directories_are_included_once() {
    let mut there = vec![true, true, false, true];
    there.extend([true, true, false, false]);
    there.extend([false, false, false, false]);
    assert_eq!(
        qt_include_dirs("/inc", &no_names(), &there),
        strings(&["/inc", "/inc/QtCore", "/inc/QtWidgets", "/inc/qt6", "/inc/qt6/QtCore"])
    );
}

#[test]
fn base_stays_even_where_it_does_not_exist() {
    assert_eq!(qt_include_dirs("", &no_names(), &vec![false; 12]), strings(&[""]));
    assert_eq!(qt_include_dirs("/gone", &Vec::new(), &Vec::new()), strings(&["/gone"]));
}

#[test]
fn unknown_base_leads_to_relative_directories() {
    let mut there = vec![false; 12];
    there[1] = true;
    there[5] = true;
    assert_eq!(qt_include_dirs("", &no_names(), &there), strings(&["", "QtCore", "qt6/QtCore"]));
}

#[test]
fn core_module_is_looked_for_below_three_roots() {
    assert_eq!(
        core_dir_candidates("/inc"),
        strings(&["/inc/QtCore", "/inc/qt6/QtCore", "/inc/Qt6/QtCore"])
    );
}

#[test]
fn compat_directories_of_the_versions_are_candidates() {
    let listings = vec![
        strings(&["6.5", "qstring.h", "6.10.1", "5.15", "6.", "6.x", "66", "7.0"]),
        Vec::new(),
        strings(&["6.2"]),
    ];
    let all = header_dir_candidates("/inc", &listings);
    assert_eq!(
        all[..6],
        strings(&[
            "/inc",
            "/inc/QtCore",
            "/inc/QtCore/6.10.1/compat",
            "/inc/QtCore/6.5/compat",
            "/inc/QtGui",
            "/inc/QtWidgets",
        ])
    );
    assert_eq!(
        all[10..],
        strings(&[
            "/inc/Qt6",
            "/inc/Qt6/QtCore",
            "/inc/Qt6/QtCore/6.2/compat",
            "/inc/Qt6/QtGui",
            "/inc/Qt6/QtWidgets",
        ])
    );
}

#[test]
fn existing_compat_directory_is_included() {
    let listings = vec![strings(&["6.5", "6.4"])];
    let there = vec![true, true, false, true, false, true];
    assert_eq!(
        qt_include_dirs("/inc", &listings, &there),
        strings(&["/inc", "/inc/QtCore", "/inc/QtCore/6.5/compat", "/inc/QtWidgets"])
    );
}
