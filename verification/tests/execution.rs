use rupt::coverage::CoverageData;
use rupt::executor::{
    fill_unreported, handle_message, partition_by_file, should_stop, worker_incomplete, ReportedIds,
};
use rupt::results::{Outcome, SessionResult, TestResult, WorkerMessage};

fn result(id: &str, outcome: Outcome) -> TestResult {
    TestResult {
        node_id: id.to_string(),
        outcome,
        stdout: String::new(),
        stderr: String::new(),
        longrepr: String::new(),
        message: String::new(),
    }
}

fn strings(v: &[&str]) -> Vec<String> {
    v.iter().map(|s| s.to_string()).collect()
}

#[test]
fn fail_fast_stops_after_a_failure_or_error() {
    let rs = vec![result("a", Outcome::Passed), result("b", Outcome::Failed)];
    assert!(should_stop(&rs, true, None));
    let rs = vec![result("a", Outcome::Error)];
    assert!(should_stop(&rs, true, None));
    let rs = vec![result("a", Outcome::Failed), result("b", Outcome::Passed)];
    assert!(!should_stop(&rs, true, None));
    assert!(!should_stop(&[], true, None));
    let rs = vec![result("a", Outcome::Failed)];
    assert!(!should_stop(&rs, false, None));
}

#[test]
fn max_failures_counts_failures_and_errors() {
    let rs = vec![
        result("a", Outcome::Failed),
        result("b", Outcome::Skipped),
        result("c", Outcome::Error),
        result("d", Outcome::Xfailed),
    ];
    assert!(should_stop(&rs, false, Some(2)));
    assert!(!should_stop(&rs, false, Some(3)));
    assert!(should_stop(&[], false, Some(0)));
}

#[test]
fn a_result_message_is_recorded() {
    let mut results = Vec::new();
    let mut reported = ReportedIds::new();
    let mut coverage = CoverageData::default();
    let stop = handle_message(
        &mut results,
        &mut reported,
        &mut coverage,
        WorkerMessage::Result(result("t.py::a", Outcome::Passed)),
        true,
        None,
    );
    assert!(!stop);
    assert_eq!(results.len(), 1);
    assert!(reported.contains("t.py::a"));
    let stop = handle_message(
        &mut results,
        &mut reported,
        &mut coverage,
        WorkerMessage::Result(result("t.py::b", Outcome::Failed)),
        true,
        None,
    );
    assert!(stop);
    assert_eq!(results[1].node_id, "t.py::b");
    assert_eq!(reported.len(), 2);
    assert_eq!(coverage.total_files(), 0);
}

#[test]
fn coverage_and_finished_messages() {
    let mut results = Vec::new();
    let mut reported = ReportedIds::new();
    let mut coverage = CoverageData::default();
    let msg = WorkerMessage::Coverage {
        kind: "coverage".to_string(),
        data: vec![("src/m.py".to_string(), vec![3, 1])],
    };
    assert!(!handle_message(&mut results, &mut reported, &mut coverage, msg, false, None));
    assert_eq!(coverage.files, vec![("src/m.py".to_string(), vec![1, 3])]);
    let done = WorkerMessage::Finished { kind: "finished".to_string() };
    assert!(handle_message(&mut results, &mut reported, &mut coverage, done, false, None));
    assert!(results.is_empty());
    assert_eq!(reported.len(), 0);
}

#[test]
fn unreported_tests_become_errors() {
    let mut results = vec![result("t.py::b", Outcome::Passed)];
    let mut reported = ReportedIds::new();
    reported.insert(&"t.py::b".to_string());
    let ids = strings(&["t.py::a", "t.py::b", "t.py::c"]);
    let added = fill_unreported(&mut results, &ids, &reported);
    assert_eq!(added, 2);
    let got: Vec<String> = results.iter().map(|r| r.node_id.clone()).collect();
    assert_eq!(got, strings(&["t.py::b", "t.py::a", "t.py::c"]));
    assert_eq!(results[1].outcome, Outcome::Error);
    assert_eq!(results[1].longrepr, "worker process died before running this test");
    assert_eq!(results[1].message, "worker crash");
    assert!(results[2].stdout.is_empty());
}

#[test]
fn every_given_test_is_answered() {
    let mut results = Vec::new();
    let mut reported = ReportedIds::new();
    reported.insert(&"x".to_string());
    let ids = strings(&["x", "y", "z"]);
    fill_unreported(&mut results, &ids, &reported);
    for id in &ids {
        let answered = reported.contains(id) || results.iter().any(|r| &r.node_id == id);
        assert!(answered);
    }
    assert!(results.iter().all(|r| !reported.contains(&r.node_id)));
}

#[test]
fn reported_ids_count_distinct_tests() {
    let mut reported = ReportedIds::new();
    reported.insert(&"a".to_string());
    reported.insert(&"a".to_string());
    reported.insert(&"b".to_string());
    assert_eq!(reported.len(), 2);
    assert!(!reported.contains("c"));
    assert!(worker_incomplete(false, &reported, 3));
    assert!(!worker_incomplete(false, &reported, 2));
    assert!(worker_incomplete(true, &reported, 2));
}

#[test]
fn partition_keeps_files_together_round_robin() {
    let ids = strings(&["a.py::t1", "a.py::t2", "b.py::t1", "c.py::t1", "c.py::t2", "d.py::x"]);
    let buckets = partition_by_file(&ids, 2);
    assert_eq!(
        buckets,
        vec![
            strings(&["a.py::t1", "a.py::t2", "c.py::t1", "c.py::t2"]),
            strings(&["b.py::t1", "d.py::x"]),
        ]
    );
}

#[test]
fn partition_with_one_worker_or_none() {
    let ids = strings(&["a.py::t1", "b.py::t1"]);
    assert_eq!(partition_by_file(&ids, 1), vec![ids.clone()]);
    assert_eq!(partition_by_file(&ids, 0), vec![ids.clone()]);
    assert_eq!(partition_by_file(&[], 1), vec![Vec::<String>::new()]);
}

#[test]
fn partition_drops_idle_workers() {
    let ids = strings(&["a.py::t1", "b.py::t1"]);
    let buckets = partition_by_file(&ids, 5);
    assert_eq!(buckets, vec![strings(&["a.py::t1"]), strings(&["b.py::t1"])]);
    assert!(partition_by_file(&[], 3).is_empty());
}

#[test]
fn partition_groups_only_consecutive_tests() {
    let ids = strings(&["a.py::1", "b.py::1", "a.py::2"]);
    let buckets = partition_by_file(&ids, 2);
    assert_eq!(buckets, vec![strings(&["a.py::1", "a.py::2"]), strings(&["b.py::1"])]);
}

#[test]
fn partition_loses_no_test() {
    let ids = strings(&["m.py::a", "m.py::b", "n.py::a", "o.py::a", "o.py::b", "p.py::a", "q.py::z"]);
    let buckets = partition_by_file(&ids, 3);
    assert!(buckets.len() <= 3);
    assert!(buckets.iter().all(|b| !b.is_empty()));
    let mut all: Vec<String> = buckets.into_iter().flatten().collect();
    all.sort();
    let mut expected = ids.clone();
    expected.sort();
    assert_eq!(all, expected);
}

#[test]
fn session_counts_and_exit_code() {
    let session = SessionResult {
        results: vec![
            result("a", Outcome::Passed),
            result("b", Outcome::Passed),
            result("c", Outcome::Skipped),
            result("d", Outcome::Xfailed),
            result("e", Outcome::Xpassed),
        ],
    };
    assert_eq!(session.passed(), 2);
    assert_eq!(session.failed(), 0);
    assert_eq!(session.skipped(), 1);
    assert_eq!(session.errors(), 0);
    assert_eq!(session.xfailed(), 1);
    assert_eq!(session.exit_code(), 0);
    let failing = SessionResult { results: vec![result("a", Outcome::Passed), result("b", Outcome::Error)] };
    assert_eq!(failing.errors(), 1);
    assert_eq!(failing.exit_code(), 1);
    let failed = SessionResult { results: vec![result("a", Outcome::Failed)] };
    assert_eq!(failed.exit_code(), 1);
    assert_eq!(SessionResult { results: vec![] }.exit_code(), 0);
}

#[test]
fn outcome_labels() {
    let labels: Vec<String> = [
        Outcome::Passed,
        Outcome::Failed,
        Outcome::Skipped,
        Outcome::Error,
        Outcome::Xfailed,
        Outcome::Xpassed,
    ]
    .iter()
    .map(|o| o.label())
    .collect();
    assert_eq!(labels, strings(&["PASSED", "FAILED", "SKIPPED", "ERROR", "XFAIL", "XPASS"]));
}
