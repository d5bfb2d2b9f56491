use rupt::coverage::CoverageData;
use std::collections::{BTreeMap, BTreeSet};

fn entries(v: &[(&str, &[usize])]) -> Vec<(String, Vec<usize>)> {
    v.iter().map(|(f, l)| (f.to_string(), l.to_vec())).collect()
}

fn sample() -> CoverageData {
    let mut c = CoverageData::default();
    c.merge(&entries(&[("b.py", &[3, 1, 3]), ("a.py", &[2])]));
    c.merge(&entries(&[("a.py", &[5, 2])]));
    c
}

#[test]
fn merge_unions_lines_by_file_in_order() {
    let c = sample();
    assert_eq!(c.files, entries(&[("a.py", &[2, 5]), ("b.py", &[1, 3])]));
    assert_eq!(c.total_lines(), 4);
    assert_eq!(c.total_files(), 2);
}

#[test]
fn empty_coverage() {
    let c = CoverageData::default();
    assert_eq!(c.total_lines(), 0);
    assert_eq!(c.total_files(), 0);
    assert_eq!(c.lcov_report(), "");
    assert_eq!(c.coverage_report(), "No coverage data collected.\n");
    assert_eq!(c.json_report().unwrap(), "{}");
}

#[test]
fn merge_order_does_not_matter() {
    let a = entries(&[("x.py", &[1, 2]), ("y.py", &[9])]);
    let b = entries(&[("x.py", &[2, 3]), ("w.py", &[4])]);
    let mut ab = CoverageData::default();
    ab.merge(&a);
    ab.merge(&b);
    let mut ba = CoverageData::default();
    ba.merge(&b);
    ba.merge(&a);
    assert_eq!(ab.files, ba.files);
    let mut twice = CoverageData::default();
    twice.merge(&a);
    twice.merge(&a);
    let mut once = CoverageData::default();
    once.merge(&a);
    assert_eq!(twice.files, once.files);
    assert_eq!(ab.files, entries(&[("w.py", &[4]), ("x.py", &[1, 2, 3]), ("y.py", &[9])]));
}

#[test]
fn file_names_sort_as_strings() {
    let mut c = CoverageData::default();
    c.merge(&entries(&[("é.py", &[1]), ("z.py", &[1]), ("Z.py", &[1]), ("a/b.py", &[1]), ("a.py", &[1])]));
    let names: Vec<&str> = c.files.iter().map(|(f, _)| f.as_str()).collect();
    assert_eq!(names, vec!["Z.py", "a.py", "a/b.py", "z.py", "é.py"]);
}

#[test]
fn lcov_records() {
    let c = sample();
    assert_eq!(
        c.lcov_report(),
        "SF:a.py\nDA:2,1\nDA:5,1\nLF:2\nLH:2\nend_of_record\nSF:b.py\nDA:1,1\nDA:3,1\nLF:2\nLH:2\nend_of_record\n"
    );
}

#[test]
fn terminal_table() {
    let c = sample();
    let mut expected = String::new();
    expected.push('\n');
    expected.push_str("---------- coverage: rupt ----------\n");
    expected.push_str(&format!("{:<60} {:>6}\n", "Name", "Lines"));
    expected.push_str(&"-".repeat(68));
    expected.push('\n');
    expected.push_str(&format!("{:<60} {:>6}\n", "a.py", 2));
    expected.push_str(&format!("{:<60} {:>6}\n", "b.py", 2));
    expected.push_str(&"-".repeat(68));
    expected.push('\n');
    expected.push_str(&format!("{:<60} {:>6}\n", "TOTAL", 4));
    assert_eq!(c.coverage_report(), expected);
}

#[test]
fn terminal_table_with_long_names() {
    let long = "d".repeat(70);
    let mut c = CoverageData::default();
    c.merge(&vec![(long.clone(), vec![1, 2, 3, 4, 5, 6, 7])]);
    let report = c.coverage_report();
    assert!(report.contains(&format!("{:<60} {:>6}\n", long, 7)));
}

#[test]
fn json_matches_the_serializer() {
    let c = sample();
    let mut map: BTreeMap<String, BTreeSet<usize>> = BTreeMap::new();
    map.insert("a.py".to_string(), [2, 5].into_iter().collect());
    map.insert("b.py".to_string(), [1, 3].into_iter().collect());
    let expected = serde_json::to_string_pretty(&map).unwrap();
    assert_eq!(c.json_report().unwrap(), expected);
    assert!(expected.contains("\"a.py\""));
}

#[test]
fn merging_never_lowers_the_total() {
    let mut c = sample();
    let before = c.total_lines();
    c.merge(&entries(&[("a.py", &[2, 7]), ("c.py", &[1, 1])]));
    assert_eq!(c.total_lines(), before + 2);
    assert!(c.json_report().is_ok());
}
