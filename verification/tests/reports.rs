use rupt::junit::junit_xml;
use rupt::reporting::{
    failures_report, result_live_text, short_summary_text, summary_line, ReportConfig, TbStyle,
};
use rupt::results::{Outcome, SessionResult, TestResult};

fn result(id: &str, outcome: Outcome) -> TestResult {
    TestResult {
        node_id: id.to_string(),
        outcome,
        stdout: String::new(),
        stderr: String::new(),
        longrepr: String::new(),
        message: String::new(),
    }
}

fn config(verbosity: i32, show_capture: bool, tb_style: TbStyle) -> ReportConfig {
    ReportConfig { verbosity, show_capture, tb_style }
}

const TRACE: &str = "Traceback (most recent call last):\n  File \"a.py\", line 1, in <module>\n    f()\n  File \"b.py\", line 2, in f\n    assert x == 1\nAssertionError: boom";

fn failing_session() -> SessionResult {
    let mut f = result("t.py::test_f", Outcome::Failed);
    f.longrepr = TRACE.to_string();
    f.message = "boom".to_string();
    f.stdout = "printed".to_string();
    let mut e = result("t.py::test_e", Outcome::Error);
    e.longrepr = "setup failed".to_string();
    e.stderr = "warn".to_string();
    SessionResult {
        results: vec![result("t.py::test_ok", Outcome::Passed), f, e, result("t.py::test_s", Outcome::Skipped)],
    }
}

const BANNER: &str = "\n================================= FAILURES =================================\n";

fn heading(id: &str) -> String {
    format!("_________________________________ {id} _________________________________\n")
}

#[test]
fn report_config_default() {
    let c = ReportConfig::default();
    assert_eq!(c.verbosity, 0);
    assert!(!c.show_capture);
    assert_eq!(c.tb_style, TbStyle::Short);
}

#[test]
fn live_output_by_verbosity() {
    let r = result("t.py::test_a", Outcome::Xfailed);
    assert_eq!(result_live_text(&r, &config(0, false, TbStyle::Short)), "x");
    assert_eq!(result_live_text(&r, &config(1, false, TbStyle::Short)), "t.py::test_a XFAIL\n");
    assert_eq!(result_live_text(&r, &config(2, false, TbStyle::Short)), "t.py::test_a XFAIL\n");
    assert_eq!(result_live_text(&r, &config(-1, false, TbStyle::Short)), "");
    let chars: String = [
        Outcome::Passed,
        Outcome::Failed,
        Outcome::Skipped,
        Outcome::Error,
        Outcome::Xfailed,
        Outcome::Xpassed,
    ]
    .iter()
    .map(|o| result_live_text(&result("x", *o), &ReportConfig::default()))
    .collect();
    assert_eq!(chars, ".FsExX");
}

#[test]
fn short_tracebacks_start_at_the_last_frame() {
    let text = failures_report(&failing_session(), &config(0, false, TbStyle::Short));
    let expected = format!(
        "{BANNER}{}  File \"b.py\", line 2, in f\n    assert x == 1\nAssertionError: boom\n{}setup failed\n",
        heading("t.py::test_f"),
        heading("t.py::test_e")
    );
    assert_eq!(text, expected);
}

#[test]
fn long_and_line_tracebacks() {
    let long = failures_report(&failing_session(), &config(0, false, TbStyle::Long));
    assert_eq!(
        long,
        format!("{BANNER}{}{TRACE}\n{}setup failed\n", heading("t.py::test_f"), heading("t.py::test_e"))
    );
    let line = failures_report(&failing_session(), &config(0, false, TbStyle::Line));
    assert_eq!(
        line,
        format!("{BANNER}{}AssertionError: boom\n{}setup failed\n", heading("t.py::test_f"), heading("t.py::test_e"))
    );
}

#[test]
fn no_tracebacks_or_no_failures_print_nothing() {
    assert_eq!(failures_report(&failing_session(), &config(0, true, TbStyle::No)), "");
    let ok = SessionResult { results: vec![result("a", Outcome::Passed), result("b", Outcome::Skipped)] };
    assert_eq!(failures_report(&ok, &config(2, true, TbStyle::Long)), "");
}

#[test]
fn captured_output_with_capture_shown() {
    let text = failures_report(&failing_session(), &config(0, true, TbStyle::Line));
    let expected = format!(
        "{BANNER}{}AssertionError: boom\n--- Captured stdout ---\nprinted\n{}setup failed\n--- Captured stderr ---\nwarn\n",
        heading("t.py::test_f"),
        heading("t.py::test_e")
    );
    assert_eq!(text, expected);
    assert_eq!(failures_report(&failing_session(), &config(2, false, TbStyle::Line)), expected);
}

#[test]
fn short_traceback_without_frames_shows_everything() {
    let mut f = result("t.py::f", Outcome::Failed);
    f.longrepr = "line one\nline two\n".to_string();
    let s = SessionResult { results: vec![f] };
    assert_eq!(
        failures_report(&s, &config(0, false, TbStyle::Short)),
        format!("{BANNER}{}line one\nline two\n", heading("t.py::f"))
    );
}

#[test]
fn summary_lines() {
    let s = failing_session();
    assert_eq!(
        summary_line(&s, &config(0, false, TbStyle::Short), "0.25"),
        "\n========================== 1 passed, 1 failed, 1 error, 1 skipped in 0.25s ==========================\n"
    );
    assert_eq!(
        summary_line(&s, &config(1, false, TbStyle::Short), "1.00"),
        "========================== 1 passed, 1 failed, 1 error, 1 skipped in 1.00s ==========================\n"
    );
    let x = SessionResult { results: vec![result("a", Outcome::Xfailed), result("b", Outcome::Xpassed)] };
    assert_eq!(
        summary_line(&x, &config(-1, false, TbStyle::Short), "0.00"),
        "========================== 1 xfailed in 0.00s ==========================\n"
    );
}

#[test]
fn short_summary_lists_failed_tests() {
    let mut s = failing_session();
    s.results.push(result("t.py::test_g", Outcome::Failed));
    assert_eq!(
        short_summary_text(&s),
        "========================== short test summary info ==========================\nFAILED t.py::test_f - boom\nFAILED t.py::test_g - AssertionError\n"
    );
    let errors_only = SessionResult { results: vec![result("e", Outcome::Error)] };
    assert_eq!(short_summary_text(&errors_only), "");
}

#[test]
fn junit_document() {
    let mut f = result("tests/test_a.py::TestK::test_m[1]", Outcome::Failed);
    f.message = "a < b & \"c\"".to_string();
    f.longrepr = "it's > here".to_string();
    f.stdout = "out".to_string();
    let mut s = result("test_b.py::test_s", Outcome::Skipped);
    s.message = "later".to_string();
    let x = result("solo", Outcome::Xfailed);
    let mut e = result("p\\q.py::a::b::c", Outcome::Error);
    e.stderr = "err".to_string();
    let ok = result("a..pypy.py::test_ok", Outcome::Passed);
    let session = SessionResult { results: vec![f, s, x, e, ok] };
    let times: Vec<String> = ["0.001", "0.002", "0.003", "0.004", "0.005"].iter().map(|t| t.to_string()).collect();
    let xml = junit_xml(&session, "1.500", &times);
    let expected = [
        "<?xml version=\"1.0\" encoding=\"utf-8\"?>\n",
        "<testsuites><testsuite name=\"rupt\" tests=\"5\" failures=\"1\" errors=\"1\" skipped=\"1\" time=\"1.500\">\n",
        "<testcase classname=\"tests.test_a.TestK\" name=\"test_m\" time=\"0.001\">",
        "<failure message=\"a &lt; b &amp; &quot;c&quot;\">it&apos;s &gt; here</failure>\n",
        "<system-out>out</system-out>\n",
        "</testcase>\n",
        "<testcase classname=\"test_b\" name=\"test_s\" time=\"0.002\"><skipped message=\"later\"/>\n</testcase>\n",
        "<testcase classname=\"\" name=\"solo\" time=\"0.003\"><skipped message=\"\"/>\n</testcase>\n",
        "<testcase classname=\"p.q.a\" name=\"b::c\" time=\"0.004\"><error message=\"\"></error>\n",
        "<system-err>err</system-err>\n",
        "</testcase>\n",
        "<testcase classname=\"a.py\" name=\"test_ok\" time=\"0.005\"></testcase>\n",
        "</testsuite></testsuites>\n",
    ]
    .concat();
    assert_eq!(xml, expected);
}

#[test]
fn failure_headings_drop_directories() {
    let mut f = result("tests/unit/test_file.py::TestK::test_func[a/b]", Outcome::Failed);
    f.longrepr = "boom".to_string();
    let s = SessionResult { results: vec![f] };
    assert_eq!(
        failures_report(&s, &config(0, false, TbStyle::Long)),
        format!("{BANNER}{}boom\n", heading("test_file.py::TestK::test_func[a/b]"))
    );
    let mut g = result("nodir", Outcome::Error);
    g.longrepr = "x".to_string();
    let s = SessionResult { results: vec![g] };
    assert_eq!(failures_report(&s, &config(0, false, TbStyle::Long)), format!("{BANNER}{}x\n", heading("nodir")));
}
