//! What the demo program says of the resources that were embedded in it.
use crate::text::{opt_text, texts};
use vstd::prelude::*;

verus! {

/// What the demo program prints. It ends with success exactly where there is no
/// failure.
#[derive(Debug)]
pub struct DemoReport {
    /// The lines for the standard output, in order.
    pub lines: Vec<String>,
    /// The line for the standard error, where a resource is missing.
    pub failure: Option<String>,
}

/// The lines for the standard output.
pub open spec fn demo_lines(window_loaded: bool, button_found: bool) -> Seq<Seq<char>> {
    if window_loaded && button_found {
        seq![
            "embedded ui  :/qrc/main.ui -> loaded OK (pushButton found)"@,
            "embedded qrc :/app-icon.png registered (qInitResources present in binary)"@,
            "SUCCESS: all embedded resources loaded"@,
        ]
    } else {
        Seq::empty()
    }
}

/// The line for the standard error: what is missing first.
pub open spec fn demo_failure(window_loaded: bool, button_found: bool) -> Option<Seq<char>> {
    if !window_loaded {
        Some("FAIL: could not load embedded :/qrc/main.ui"@)
    } else if !button_found {
        Some("FAIL: pushButton not found in embedded ui"@)
    } else {
        None
    }
}

/// What the demo program prints, given whether the embedded form could be
/// loaded and whether its button was found in it.
pub fn demo_report(window_loaded: bool, button_found: bool) -> (r: DemoReport)
    ensures
        texts(r.lines@) == demo_lines(window_loaded, button_found),
        opt_text(r.failure) == demo_failure(window_loaded, button_found),
{
    let mut lines: Vec<String> = Vec::new();
    let mut failure: Option<String> = None;
    if !window_loaded {
        failure = Some("FAIL: could not load embedded :/qrc/main.ui".to_owned());
    } else if !button_found {
        failure = Some("FAIL: pushButton not found in embedded ui".to_owned());
    } else {
        lines.push("embedded ui  :/qrc/main.ui -> loaded OK (pushButton found)".to_owned());
        lines.push(
            "embedded qrc :/app-icon.png registered (qInitResources present in binary)".to_owned(),
        );
        lines.push("SUCCESS: all embedded resources loaded".to_owned());
    }
    assert(texts(lines@) == demo_lines(window_loaded, button_found));
    DemoReport { lines, failure }
}

/// The demo says either what is missing or what was found, and never both: a missing
/// window is told first, then a missing button, and success only where neither is
/// missing.
pub proof fn law_demo(window_loaded: bool, button_found: bool)
    ensures
        !window_loaded ==> demo_failure(window_loaded, button_found) == Some(
            "FAIL: could not load embedded :/qrc/main.ui"@,
        ),
        window_loaded && !button_found ==> demo_failure(window_loaded, button_found) == Some(
            "FAIL: pushButton not found in embedded ui"@,
        ),
        demo_failure(window_loaded, button_found) is None <==> window_loaded && button_found,
        demo_failure(window_loaded, button_found) is Some ==> demo_lines(
            window_loaded,
            button_found,
        ).len() == 0,
        demo_failure(window_loaded, button_found) is None ==> demo_lines(
            window_loaded,
            button_found,
        ) == seq![
            "embedded ui  :/qrc/main.ui -> loaded OK (pushButton found)"@,
            "embedded qrc :/app-icon.png registered (qInitResources present in binary)"@,
            "SUCCESS: all embedded resources loaded"@,
        ],
{
}

} // verus!
