use qtrs_build::tools::{candidate_files, rcc_candidates, uic_candidates, which};
use qtrs_build::QtTools;

fn strings(list: &[&str]) -> Vec<String> {
    list.iter().map(|s| s.to_string()).collect()
}

fn searched(tools: &QtTools) -> Vec<String> {
    candidate_files(tools, &strings(&["rcc"]), &None)
}

#[test]
fn candidates_are_most_preferred_first() {
    assert_eq!(rcc_candidates(), strings(&["rcc6", "rcc-qt6", "rcc5", "rcc-qt5", "rcc"]));
    assert_eq!(uic_candidates(), strings(&["uic6", "uic-qt6", "uic5", "uic-qt5", "uic"]));
}

#[test]
fn unix_searches_the_common_directories() {
    let expected = strings(&["/usr/lib/qt6/bin/rcc", "/usr/lib/qt5/bin/rcc"]);
    assert_eq!(searched(&QtTools::unix()), expected);
    assert_eq!(searched(&QtTools::unix5()), expected);
    assert_eq!(searched(&QtTools::unix6()), expected);
}

#[test]
fn default_searches_path_only() {
    assert_eq!(searched(&QtTools::default()), Vec::<String>::new());
}

#[test]
fn added_directories_come_last() {
    let tools = QtTools::unix().add_qt_bin("/opt/qt/bin").add_qt_bin("relative");
    assert_eq!(
        searched(&tools),
        strings(&[
            "/usr/lib/qt6/bin/rcc",
            "/usr/lib/qt5/bin/rcc",
            "/opt/qt/bin/rcc",
            "relative/rcc"
        ])
    );
}

#[test]
fn directory_may_be_an_owned_text() {
    let tools = QtTools::default().add_qt_bin(String::from("/opt/qt/bin"));
    assert_eq!(searched(&tools), strings(&["/opt/qt/bin/rcc"]));
}

#[test]
fn clone_searches_the_same() {
    let tools = QtTools::unix().add_qt_bin("/x").force_noop();
    let copy = tools.clone();
    assert_eq!(searched(&copy), searched(&tools));
    assert_eq!(which(&copy, &strings(&["rcc"]), &None, &vec![true, true, true]), None);
}

#[test]
fn every_name_is_looked_for_before_the_next_directory() {
    let tools = QtTools::default().add_qt_bin("/c");
    let files = candidate_files(&tools, &strings(&["x", "y"]), &Some("/a:/b".to_string()));
    assert_eq!(files, strings(&["/a/x", "/a/y", "/b/x", "/b/y", "/c/x", "/c/y"]));
}

#[test]
fn first_runnable_file_is_taken() {
    let tools = QtTools::default().add_qt_bin("/c");
    let names = strings(&["x", "y"]);
    let path = Some("/a:/b".to_string());
    let hits = |marks: [bool; 6]| which(&tools, &names, &path, &marks.to_vec());
    assert_eq!(
        hits([false, true, true, false, false, true]),
        Some("/a/y".to_string())
    );
    assert_eq!(
        hits([false, false, false, false, true, true]),
        Some("/c/x".to_string())
    );
    assert_eq!(hits([false; 6]), None);
}

#[test]
fn path_goes_before_the_configured_directories() {
    let tools = QtTools::unix();
    let path = Some("/home/me/bin".to_string());
    let marks = vec![false, false, false, false, true, true];
    assert_eq!(
        which(&tools, &rcc_candidates(), &path, &marks),
        Some("/home/me/bin/rcc".to_string())
    );
}

#[test]
fn missing_answers_are_no_hits() {
    let tools = QtTools::unix();
    assert_eq!(which(&tools, &rcc_candidates(), &None, &Vec::new()), None);
}

#[test]
fn noop_finds_nothing() {
    let tools = QtTools::unix().force_noop();
    let all = vec![true; 10];
    assert_eq!(which(&tools, &rcc_candidates(), &None, &all), None);
    assert_eq!(
        which(&QtTools::unix(), &rcc_candidates(), &None, &all),
        Some("/usr/lib/qt6/bin/rcc6".to_string())
    );
}
