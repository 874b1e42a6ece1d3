use qtrs_build::{compiler_for, BuildPlan};
use std::path::Path;

fn plan() -> BuildPlan {
    BuildPlan {
        sources: vec!["/g/a.cpp".to_string(), "/g/b.cpp".to_string()],
        includes: vec!["/inc".to_string(), "/inc/QtCore".to_string()],
        out_dir: "/out/lib".to_string(),
        lib_name: "qtrs_ui".to_string(),
    }
}

#[test]
fn sources_are_compiled_in_order() {
    let build = compiler_for(&plan());
    let files: Vec<&Path> = build.get_files().collect();
    assert_eq!(files, vec![Path::new("/g/a.cpp"), Path::new("/g/b.cpp")]);
}

#[test]
fn set_up_is_that_of_the_plan() {
    let shown = format!("{:?}", compiler_for(&plan()));
    assert!(shown.contains("cpp: true"));
    assert!(shown.contains("metadata: false"));
    assert!(shown.contains("include_directories: [\"/inc\", \"/inc/QtCore\"]"));
    assert!(shown.contains("out_dir: Some(\"/out/lib\")"));
    let variable = shown.find("-Wno-unused-variable").unwrap();
    let function = shown.find("-Wno-unused-function").unwrap();
    assert!(variable < function);
}

#[test]
fn plan_without_includes_has_none() {
    let mut bare = plan();
    bare.includes = Vec::new();
    let shown = format!("{:?}", compiler_for(&bare));
    assert!(shown.contains("include_directories: []"));
}
