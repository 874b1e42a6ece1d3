use qtrs_build::script::{compile_rcc_core, compile_ui_core};
use qtrs_build::{Embed, Entry, ProgramOutput, QtTools, Rcc, Reply, Request, Step, Ui};

/// What the world outside a session looks like.
struct World {
    manifest: Option<String>,
    path: Option<String>,
    tree: Option<Vec<Entry>>,
    current: Result<&'static str, &'static str>,
    runnable: Vec<&'static str>,
    names: Vec<(&'static str, Vec<&'static str>)>,
    existing: Vec<&'static str>,
    qmakes: Vec<(&'static str, Option<(bool, &'static str)>)>,
    refused: Option<&'static str>,
    failing: Option<&'static str>,
}

impl World {
    fn with(tree: Option<Vec<Entry>>) -> World {
        World {
            manifest: Some("/pkg".to_string()),
            path: Some("/bin".to_string()),
            tree,
            current: Ok("/work"),
            runnable: vec!["/bin/uic6", "/bin/rcc6"],
            names: vec![],
            existing: vec![],
            qmakes: vec![],
            refused: None,
            failing: None,
        }
    }
}

fn file(name: &str) -> Entry {
    Entry::File { name: name.to_string() }
}

fn dir(name: &str, entries: Vec<Entry>) -> Entry {
    Entry::Dir { name: name.to_string(), entries: Some(entries) }
}

fn show(step: &Step) -> String {
    match step {
        Step::CreateDirs { dir } => format!("mkdir {dir}"),
        Step::WriteFile { path, text } => format!("write {path}: {text}"),
        Step::Run { program, args, cwd, subject } => {
            let place = match cwd {
                Some(d) => format!(" in {d}"),
                None => String::new(),
            };
            format!("run {program} {}{place} for {subject}", args.join(" "))
        }
        Step::Print { line } => format!("print {line}"),
        Step::Compile { plan } => format!(
            "compile {} with {} to {} as {}",
            plan.sources.join(" "),
            plan.includes.join(" "),
            plan.out_dir,
            plan.lib_name
        ),
    }
}

/// Drives the session and gives back its requests and its result.
fn drive(mut session: Embed, mut world: World) -> (Vec<String>, Result<(), String>) {
    let mut log = Vec::new();
    loop {
        let reply = match session.request() {
            Request::Env { name } => {
                log.push(format!("env {name}"));
                Reply::Env(match name {
                    "CARGO_MANIFEST_DIR" => world.manifest.clone(),
                    "PATH" => world.path.clone(),
                    _ => panic!("unexpected variable"),
                })
            }
            Request::ReadTree { dir } => {
                log.push(format!("tree {dir}"));
                Reply::Tree(world.tree.take())
            }
            Request::CurrentDir => {
                log.push("current".to_string());
                match world.current {
                    Ok(dir) => Reply::CurrentDir(dir.to_string()),
                    Err(e) => Reply::Failed(e.to_string()),
                }
            }
            Request::ListDirs { dirs } => {
                log.push(format!("list {}", dirs.join(" ")));
                let mut listings = Vec::new();
                for dir in dirs {
                    let found = world.names.iter().find(|n| n.0 == dir);
                    let names = found.map_or(Vec::new(), |n| n.1.clone());
                    listings.push(names.iter().map(|s| s.to_string()).collect());
                }
                Reply::Listings(listings)
            }
            Request::CanRun { paths } => {
                log.push(format!("can run {}", paths.join(" ")));
                Reply::Answers(paths.iter().map(|p| world.runnable.contains(&p.as_str())).collect())
            }
            Request::Exist { paths } => {
                log.push(format!("exist {}", paths.join(" ")));
                Reply::Answers(paths.iter().map(|p| world.existing.contains(&p.as_str())).collect())
            }
            Request::Query { program, args } => {
                log.push(format!("query {program} {}", args.join(" ")));
                let answer = world.qmakes.iter().find(|q| q.0 == program).and_then(|q| q.1);
                Reply::Output(answer.map(|(success, text)| ProgramOutput {
                    success,
                    stdout: text.as_bytes().to_vec(),
                }))
            }
            Request::Perform { step } => {
                let shown = show(step);
                let refused = world.refused.map_or(false, |r| shown.starts_with(r));
                let failing = world.failing.map_or(false, |r| shown.starts_with(r));
                log.push(shown);
                if refused {
                    Reply::Refused
                } else if failing {
                    Reply::Failed("no space left".to_string())
                } else {
                    Reply::Done
                }
            }
            Request::Finished { result } => return (log, result.clone()),
        };
        session = session.resume(reply);
    }
}

const LINK_UI: [&str; 3] = [
    "print cargo:rustc-link-search=native=/pkg/target/qtrs-build/ui/lib",
    "print cargo:rustc-link-lib=static:+whole-archive=qtrs_ui",
    "print cargo:rerun-if-changed=/pkg/target/qtrs-build/ui/lib/libqtrs_ui.a",
];

const LINK_QRC: [&str; 3] = [
    "print cargo:rustc-link-search=native=/pkg/target/qtrs-build/qrc/lib",
    "print cargo:rustc-link-lib=static:+whole-archive=qtrs_qrc",
    "print cargo:rerun-if-changed=/pkg/target/qtrs-build/qrc/lib/libqtrs_qrc.a",
];

const EMPTY_UI: [&str; 3] = [
    "mkdir /pkg/target/qtrs-build/ui/generated",
    "write /pkg/target/qtrs-build/ui/generated/empty.cpp: // qtrs-build — empty placeholder.\nint qtrs_empty_marker_ui;\n",
    "mkdir /pkg/target/qtrs-build/ui/lib",
];

fn bare() -> QtTools {
    QtTools::default()
}

#[test]
fn forms_are_checked_listed_compiled_and_linked() {
    let tree = vec![file("main.ui"), dir("dialogs", vec![file("open.ui")]), file("x.txt")];
    let (log, result) = drive(Ui::embed_with(bare()), World::with(Some(tree)));
    assert_eq!(result, Ok(()));
    let mut expected = vec![
        "env CARGO_MANIFEST_DIR",
        "tree /pkg/ui",
        "env PATH",
        "can run /bin/uic6 /bin/uic-qt6 /bin/uic5 /bin/uic-qt5 /bin/uic",
        "can run /bin/rcc6 /bin/rcc-qt6 /bin/rcc5 /bin/rcc-qt5 /bin/rcc",
        "mkdir /pkg/target/qtrs-build/ui/generated",
        "run /bin/uic6 -o /pkg/target/qtrs-build/ui/generated/ui_dialogs_open.h /pkg/ui/dialogs/open.ui for /pkg/ui/dialogs/open.ui",
        "print cargo:rerun-if-changed=/pkg/ui/dialogs/open.ui",
        "run /bin/uic6 -o /pkg/target/qtrs-build/ui/generated/ui_main.h /pkg/ui/main.ui for /pkg/ui/main.ui",
        "print cargo:rerun-if-changed=/pkg/ui/main.ui",
        "write /pkg/target/qtrs-build/ui/generated/ui.qrc: <RCC>\n    <qresource prefix=\"/\">\n        <file alias=\"qrc/dialogs_open.ui\">/pkg/ui/dialogs/open.ui</file>\n        <file alias=\"qrc/main.ui\">/pkg/ui/main.ui</file>\n    </qresource>\n</RCC>\n",
        "print cargo:rerun-if-changed=/pkg/target/qtrs-build/ui/generated/ui.qrc",
        "mkdir /pkg/target/qtrs-build/ui/generated",
        "run /bin/rcc6 -name qtrs_ui_0 -o /pkg/target/qtrs-build/ui/generated/qtrs_ui_0.cpp ui.qrc in /pkg/target/qtrs-build/ui/generated for /pkg/target/qtrs-build/ui/generated/ui.qrc",
        "print cargo:rerun-if-changed=/pkg/target/qtrs-build/ui/generated/ui.qrc",
        "mkdir /pkg/target/qtrs-build/ui/lib",
        "compile /pkg/target/qtrs-build/ui/generated/qtrs_ui_0.cpp with  to /pkg/target/qtrs-build/ui/lib as qtrs_ui",
    ];
    expected.extend(LINK_UI);
    assert_eq!(log, expected);
}

#[test]
fn lists_are_compiled_and_linked_at_every_depth() {
    let tree = vec![file("b.qrc"), dir("a", vec![file("icons.qrc")])];
    let (log, result) = drive(Rcc::embed_with(bare()), World::with(Some(tree)));
    assert_eq!(result, Ok(()));
    let mut expected = vec![
        "env CARGO_MANIFEST_DIR",
        "tree /pkg/resources",
        "env PATH",
        "can run /bin/rcc6 /bin/rcc-qt6 /bin/rcc5 /bin/rcc-qt5 /bin/rcc",
        "mkdir /pkg/target/qtrs-build/qrc/generated",
        "mkdir /pkg/target/qtrs-build/qrc/generated",
        "run /bin/rcc6 -name qtrs_qrc_0 -o /pkg/target/qtrs-build/qrc/generated/qtrs_qrc_0.cpp a/icons.qrc in /pkg/resources for /pkg/resources/a/icons.qrc",
        "print cargo:rerun-if-changed=/pkg/resources/a/icons.qrc",
        "run /bin/rcc6 -name qtrs_qrc_1 -o /pkg/target/qtrs-build/qrc/generated/qtrs_qrc_1.cpp b.qrc in /pkg/resources for /pkg/resources/b.qrc",
        "print cargo:rerun-if-changed=/pkg/resources/b.qrc",
        "mkdir /pkg/target/qtrs-build/qrc/lib",
        "compile /pkg/target/qtrs-build/qrc/generated/qtrs_qrc_0.cpp /pkg/target/qtrs-build/qrc/generated/qtrs_qrc_1.cpp with  to /pkg/target/qtrs-build/qrc/lib as qtrs_qrc",
    ];
    expected.extend(LINK_QRC);
    assert_eq!(log, expected);
}

#[test]
fn no_forms_make_an_empty_archive() {
    let mut world = World::with(None);
    world.qmakes = vec![("qmake6", Some((true, "/inc\n")))];
    world.existing = vec!["/inc", "/inc/QtCore", "/inc/Qt6"];
    let (log, result) = drive(Ui::embed(), world);
    assert_eq!(result, Ok(()));
    let mut expected = vec!["env CARGO_MANIFEST_DIR", "tree /pkg/ui"];
    expected.extend(EMPTY_UI);
    expected.extend([
        "query qmake6 -query QT_INSTALL_HEADERS",
        "exist /inc",
        "list /inc/QtCore /inc/qt6/QtCore /inc/Qt6/QtCore",
        "exist /inc /inc/QtCore /inc/QtGui /inc/QtWidgets /inc/qt6 /inc/qt6/QtCore /inc/qt6/QtGui /inc/qt6/QtWidgets /inc/Qt6 /inc/Qt6/QtCore /inc/Qt6/QtGui /inc/Qt6/QtWidgets",
        "compile /pkg/target/qtrs-build/ui/generated/empty.cpp with /inc /inc/QtCore /inc/Qt6 to /pkg/target/qtrs-build/ui/lib as qtrs_ui",
    ]);
    expected.extend(LINK_UI);
    assert_eq!(log, expected);
}

#[test]
fn missing_tools_make_an_empty_archive() {
    for missing in ["/bin/uic6", "/bin/rcc6"] {
        let mut world = World::with(Some(vec![file("main.ui")]));
        world.runnable.retain(|f| *f != missing);
        let (log, result) = drive(Ui::embed_with(bare()), world);
        assert_eq!(result, Ok(()));
        assert!(log.iter().all(|l| !l.starts_with("run")));
        let n = log.len();
        assert_eq!(log[n - 3..], LINK_UI);
        assert!(log[n - 4].starts_with("compile /pkg/target/qtrs-build/ui/generated/empty.cpp"));
    }
}

#[test]
fn missing_rcc_makes_an_empty_archive_of_resources() {
    let mut world = World::with(Some(vec![file("a.qrc")]));
    world.runnable.clear();
    let (log, result) = drive(Rcc::embed(), world);
    assert_eq!(result, Ok(()));
    assert_eq!(log[log.len() - 3..], LINK_QRC);
    assert!(log.iter().all(|l| !l.starts_with("run")));
}

#[test]
fn resources_need_no_uic() {
    let mut world = World::with(Some(vec![file("a.qrc")]));
    world.runnable = vec!["/bin/rcc6"];
    let (log, result) = drive(Rcc::embed_with(bare()), world);
    assert_eq!(result, Ok(()));
    assert!(log.iter().any(|l| l.starts_with("run /bin/rcc6")));
}

#[test]
fn noop_looks_for_no_tool_and_runs_none() {
    let world = World::with(Some(vec![file("main.ui")]));
    let (log, result) = drive(Ui::embed_with(bare().force_noop()), world);
    assert_eq!(result, Ok(()));
    assert!(log.iter().all(|l| !l.starts_with("can run") && !l.starts_with("run")));
    assert_eq!(log[log.len() - 3..], LINK_UI);
}

#[test]
fn rejected_form_fails_the_build() {
    let mut world = World::with(Some(vec![file("bad.ui"), file("good.ui")]));
    world.refused = Some("run /bin/uic6");
    let (log, result) = drive(Ui::embed_with(bare()), world);
    assert_eq!(result, Err("qtrs-build: `/bin/uic6` failed for /pkg/ui/bad.ui".to_string()));
    assert!(log.last().unwrap().ends_with("for /pkg/ui/bad.ui"));
}

#[test]
fn rejected_list_fails_the_build() {
    let mut world = World::with(Some(vec![file("a.qrc")]));
    world.refused = Some("run /bin/rcc6");
    let (_, result) = drive(Rcc::embed_with(bare()), world);
    assert_eq!(result, Err("qtrs-build: `/bin/rcc6` failed for /pkg/resources/a.qrc".to_string()));
}

#[test]
fn failing_step_ends_with_its_reason() {
    for failing in ["mkdir", "write", "run /bin/rcc6"] {
        let mut world = World::with(Some(vec![file("a.ui")]));
        world.failing = Some(failing);
        let (log, result) = drive(Ui::embed_with(bare()), world);
        assert_eq!(result, Err("no space left".to_string()));
        assert!(log.last().unwrap().starts_with(failing));
    }
}

#[test]
fn package_is_the_current_directory_by_default() {
    let mut world = World::with(Some(vec![file("my-form.ui")]));
    world.manifest = None;
    let (log, result) = drive(Ui::embed_with(bare()), world);
    assert_eq!(result, Ok(()));
    assert_eq!(log[..3], ["env CARGO_MANIFEST_DIR", "current", "tree /work/ui"]);
    assert!(log.iter().any(|l| l.contains("<file alias=\"qrc/my-form.ui\">/work/ui/my-form.ui</file>")));
    assert!(log.contains(&"mkdir /work/target/qtrs-build/ui/generated".to_string()));
}

#[test]
fn relative_package_is_seen_from_the_current_directory() {
    let mut world = World::with(Some(vec![file("a.qrc")]));
    world.manifest = Some("sub".to_string());
    let (log, result) = drive(Rcc::embed_with(bare()), world);
    assert_eq!(result, Ok(()));
    assert_eq!(log[2], "tree /work/sub/resources");
    assert!(log.iter().any(|l| l.ends_with("a.qrc in /work/sub/resources for /work/sub/resources/a.qrc")));
}

#[test]
fn missing_current_directory_fails_the_build() {
    let mut world = World::with(None);
    world.manifest = None;
    world.current = Err("no such directory");
    let (log, result) = drive(Ui::embed(), world);
    assert_eq!(result, Err("no such directory".to_string()));
    assert_eq!(log, ["env CARGO_MANIFEST_DIR", "current"]);
}

#[test]
fn current_directory_is_taken_by_an_absolute_path_only() {
    let session = Ui::embed().resume(Reply::Env(None)).resume(Reply::CurrentDir("here".to_string()));
    assert!(matches!(session.request(), Request::CurrentDir));
}

#[test]
fn forms_that_would_share_a_name_stay_apart() {
    let tree = vec![file("a_b.ui"), dir("a", vec![file("b.ui")])];
    let (log, result) = drive(Ui::embed_with(bare()), World::with(Some(tree)));
    assert_eq!(result, Ok(()));
    let list = log.iter().find(|l| l.starts_with("write")).unwrap();
    assert!(list.contains("<file alias=\"qrc/a/b.ui\">/pkg/ui/a/b.ui</file>"));
    assert!(list.contains("<file alias=\"qrc/a_b.ui\">/pkg/ui/a_b.ui</file>"));
    assert!(log.iter().any(|l| l.contains("/generated/ui_a_b-0.h /pkg/ui/a/b.ui")));
    assert!(log.iter().any(|l| l.contains("/generated/ui_a_b-1.h /pkg/ui/a_b.ui")));
}

fn strings(list: &[&str]) -> Vec<String> {
    list.iter().map(|s| s.to_string()).collect()
}

#[test]
fn form_outside_the_form_directory_is_an_error_behind_the_checks_before_it() {
    let files = strings(&["/p/ui/a.ui", "/q/a.ui", "/p/ui/b.ui"]);
    let (steps, error) = compile_ui_core("/p", "/p/ui", &files, "/bin/uic", "/bin/rcc", "/work");
    assert_eq!(error, Some("prefix not found".to_string()));
    assert_eq!(std::path::Path::new("/q/a.ui").strip_prefix("/p/ui").unwrap_err().to_string(), error.unwrap());
    assert_eq!(
        steps.iter().map(show).collect::<Vec<String>>(),
        strings(&[
            "mkdir /p/target/qtrs-build/ui/generated",
            "run /bin/uic -o /p/target/qtrs-build/ui/generated/ui_a.h /p/ui/a.ui for /p/ui/a.ui",
            "print cargo:rerun-if-changed=/p/ui/a.ui",
        ])
    );
}

#[test]
fn forms_inside_the_form_directory_are_no_error() {
    let files = strings(&["/p/ui/a.ui"]);
    let (steps, error) = compile_ui_core("/p", "/p/ui", &files, "/bin/uic", "/bin/rcc", "/work");
    assert_eq!(error, None);
    assert!(matches!(steps.last(), Some(Step::Print { .. })));
}

fn written_list(files: &[&str], ui_dir: &str) -> String {
    let (steps, error) = compile_ui_core(".", ui_dir, &strings(files), "/bin/uic", "/bin/rcc", "/work");
    assert_eq!(error, None);
    let shown: Vec<String> = steps.iter().map(show).collect();
    shown.into_iter().find(|s| s.starts_with("write")).unwrap()
}

#[test]
fn relative_form_is_listed_by_its_absolute_path() {
    let list = written_list(&["./ui/main.ui"], "./ui");
    assert!(list.contains("<file alias=\"qrc/main.ui\">/work/./ui/main.ui</file>"));
    let list = written_list(&["ui/d/a.ui"], "ui");
    assert!(list.contains("<file alias=\"qrc/d_a.ui\">/work/ui/d/a.ui</file>"));
}

#[test]
fn absolute_form_is_listed_as_it_is() {
    let list = written_list(&["/p/ui/main.ui"], "/p/ui");
    assert!(list.contains("<file alias=\"qrc/main.ui\">/p/ui/main.ui</file>"));
}

#[test]
fn doubled_separator_stays_in_the_name() {
    let list = written_list(&["/p/ui/a//b.ui"], "/p/ui");
    assert!(list.contains("<file alias=\"qrc/a__b.ui\">/p/ui/a//b.ui</file>"));
}

#[test]
fn resources_leave_the_forms_and_their_archive_alone() {
    let tree = || Some(vec![file("a.ui"), dir("d", vec![file("a.qrc")])]);
    for tools in [bare(), bare().force_noop()] {
        let (log, result) = drive(Rcc::embed_with(tools), World::with(tree()));
        assert_eq!(result, Ok(()));
        for line in log.iter().filter(|l| l.starts_with("mkdir") || l.starts_with("write")) {
            assert!(line.split(' ').nth(1).unwrap().starts_with("/pkg/target/qtrs-build/qrc/"));
        }
        assert!(log.iter().all(|l| !l.contains("qtrs-build/ui")));
    }
}

#[test]
fn list_outside_the_resource_directory_is_given_by_its_whole_path() {
    let files = strings(&["/p/resources/d/a.qrc", "/q/b.qrc"]);
    let steps = compile_rcc_core("/p", "/p/resources", &files, "/bin/rcc");
    let runs: Vec<String> = steps.iter().map(show).filter(|s| s.starts_with("run")).collect();
    assert!(runs[0].ends_with(" d/a.qrc in /p/resources for /p/resources/d/a.qrc"));
    assert!(runs[1].ends_with(" /q/b.qrc in /p/resources for /q/b.qrc"));
}

#[test]
fn empty_archives_hold_symbols_of_their_own() {
    let mut symbols = Vec::new();
    for session in [Ui::embed(), Rcc::embed()] {
        let (log, result) = drive(session, World::with(None));
        assert_eq!(result, Ok(()));
        let text = log.iter().find(|l| l.starts_with("write")).unwrap();
        symbols.push(text.lines().last().unwrap().to_string());
    }
    assert_eq!(symbols, ["int qtrs_empty_marker_ui;", "int qtrs_empty_marker_qrc;"]);
}

#[test]
fn compat_headers_of_a_version_are_included() {
    let mut world = World::with(None);
    world.qmakes = vec![("qmake6", Some((true, "/inc\n")))];
    world.names = vec![("/inc/QtCore", vec!["6.5", "QString"])];
    world.existing = vec!["/inc", "/inc/QtCore", "/inc/QtCore/6.5/compat"];
    let (log, result) = drive(Ui::embed(), world);
    assert_eq!(result, Ok(()));
    assert!(log.iter().any(|l| l.contains("empty.cpp with /inc /inc/QtCore /inc/QtCore/6.5/compat to")));
}

#[test]
fn errors_link_nothing() {
    for failing in ["mkdir", "write", "run"] {
        for session in [Ui::embed_with(bare()), Rcc::embed_with(bare()), Ui::embed_with(bare().force_noop())] {
            let mut world = World::with(Some(vec![file("a.ui"), file("a.qrc")]));
            world.failing = Some(failing);
            let (log, result) = drive(session, world);
            if result.is_err() {
                assert!(log.iter().all(|l| !l.contains("rustc-link")));
            }
        }
    }
}

#[test]
fn everything_is_written_below_the_output_directory_of_the_job() {
    let tree = || Some(vec![file("a.ui"), dir("d", vec![file("b.ui")]), file("a.qrc")]);
    for (session, own) in [
        (Ui::embed_with(bare()), "/pkg/target/qtrs-build/ui/"),
        (Ui::embed_with(bare().force_noop()), "/pkg/target/qtrs-build/ui/"),
        (Rcc::embed_with(bare()), "/pkg/target/qtrs-build/qrc/"),
    ] {
        let (log, result) = drive(session, World::with(tree()));
        assert_eq!(result, Ok(()));
        for line in log {
            let words: Vec<&str> = line.split(' ').collect();
            let place = match words[0] {
                "mkdir" | "write" => words[1],
                "run" => words[words.iter().position(|w| *w == "-o").unwrap() + 1],
                "compile" => words[words.iter().position(|w| *w == "to").unwrap() + 1],
                _ => continue,
            };
            assert!(place.starts_with(own), "{line}");
        }
    }
}

#[test]
fn missing_path_variable_leaves_the_configured_directories() {
    let mut world = World::with(Some(vec![file("a.qrc")]));
    world.path = None;
    world.runnable = vec!["/usr/lib/qt5/bin/rcc"];
    let (log, result) = drive(Rcc::embed(), world);
    assert_eq!(result, Ok(()));
    assert!(log.iter().any(|l| l.starts_with("run /usr/lib/qt5/bin/rcc -name qtrs_qrc_0")));
}

fn queries(log: &[String]) -> Vec<&str> {
    log.iter().filter(|l| l.starts_with("query")).map(|l| l.as_str()).collect()
}

#[test]
fn next_qmake_is_asked_where_one_is_of_no_use() {
    let mut world = World::with(None);
    world.qmakes = vec![
        ("qmake6", Some((false, "/a"))),
        ("qmake", Some((true, " \n"))),
        ("qmake-qt5", Some((true, "/gone"))),
        ("qmake-qt6", Some((true, "/inc"))),
    ];
    world.existing = vec!["/inc"];
    let (log, result) = drive(Ui::embed(), world);
    assert_eq!(result, Ok(()));
    assert_eq!(queries(&log).len(), 4);
    assert!(log.iter().any(|l| l.contains("empty.cpp with /inc to")));
}

#[test]
fn qmake_that_cannot_be_started_ends_the_search() {
    let mut world = World::with(None);
    world.qmakes = vec![("qmake6", None), ("qmake", Some((true, "/inc")))];
    world.existing = vec!["/inc"];
    let (log, result) = drive(Ui::embed(), world);
    assert_eq!(result, Ok(()));
    assert_eq!(queries(&log), vec!["query qmake6 -query QT_INSTALL_HEADERS"]);
    assert!(log.iter().any(|l| l.starts_with("exist  QtCore QtGui QtWidgets qt6 ")));
}

#[test]
fn headers_stay_unknown_where_every_qmake_is_of_no_use() {
    let mut world = World::with(None);
    world.qmakes = vec![
        ("qmake6", Some((false, ""))),
        ("qmake", Some((false, ""))),
        ("qmake-qt5", Some((false, ""))),
        ("qmake-qt6", Some((false, ""))),
    ];
    let (log, result) = drive(Ui::embed(), world);
    assert_eq!(result, Ok(()));
    assert_eq!(queries(&log).len(), 4);
    assert!(log.iter().any(|l| l.contains("empty.cpp with  to")));
}

#[test]
fn reply_of_another_kind_changes_nothing() {
    let session = Ui::embed().resume(Reply::Done).resume(Reply::Answers(vec![true]));
    match session.request() {
        Request::Env { name } => assert_eq!(name, "CARGO_MANIFEST_DIR"),
        other => panic!("unexpected request {other:?}"),
    }
}

#[test]
fn refusal_of_what_is_no_program_changes_nothing() {
    let session = Ui::embed()
        .resume(Reply::Env(Some("/pkg".to_string())))
        .resume(Reply::Tree(None))
        .resume(Reply::Refused);
    match session.request() {
        Request::Perform { step } => assert_eq!(show(step), EMPTY_UI[0]),
        other => panic!("unexpected request {other:?}"),
    }
}

#[test]
fn finished_session_stays_finished() {
    let session = Ui::embed()
        .resume(Reply::Env(Some("/pkg".to_string())))
        .resume(Reply::Tree(None))
        .resume(Reply::Failed("denied".to_string()))
        .resume(Reply::Done);
    match session.request() {
        Request::Finished { result } => assert_eq!(*result, Err("denied".to_string())),
        other => panic!("unexpected request {other:?}"),
    }
}
