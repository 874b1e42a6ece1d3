use qtrs_build::demo::demo_report;

#[test]
fn both_found_is_success() {
    let report = demo_report(true, true);
    assert_eq!(report.failure, None);
    assert_eq!(
        report.lines,
        vec![
            "embedded ui  :/qrc/main.ui -> loaded OK (pushButton found)",
            "embedded qrc :/app-icon.png registered (qInitResources present in binary)",
            "SUCCESS: all embedded resources loaded",
        ]
    );
}

#[test]
fn missing_window_is_told_first() {
    for found in [true, false] {
        let report = demo_report(false, found);
        assert_eq!(
            report.failure,
            Some("FAIL: could not load embedded :/qrc/main.ui".to_string())
        );
        assert!(report.lines.is_empty());
    }
}

#[test]
fn missing_button_is_told() {
    let report = demo_report(true, false);
    assert_eq!(report.failure, Some("FAIL: pushButton not found in embedded ui".to_string()));
    assert!(report.lines.is_empty());
}
