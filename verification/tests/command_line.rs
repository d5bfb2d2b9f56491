use rupt::cli::{
    collect_only_report, parse_count, python_source_changed, tb_style_named, verbosity_of,
    worker_count,
};
use rupt::parser::TestItem;
use rupt::parametrize::shortened_debug_text;
use rupt::paths::{path_components, path_less, sort_paths, within};
use rupt::reporting::TbStyle;

fn item(node_id: &str, class_name: Option<&str>, function_name: &str) -> TestItem {
    TestItem {
        node_id: node_id.to_string(),
        markers: vec![],
        parametrize: vec![],
        is_method: class_name.is_some(),
        class_name: class_name.map(|c| c.to_string()),
        function_name: function_name.to_string(),
    }
}

fn sample() -> Vec<TestItem> {
    vec![
        item("t.py::test_a", None, "test_a"),
        item("t.py::TestK::test_b", Some("TestK"), "test_b"),
        item("t.py::TestK::test_c", Some("TestK"), "test_c"),
        item("t.py::test_d", None, "test_d"),
        item("t.py::TestK::test_e", Some("TestK"), "test_e"),
        item("u.py::TestL::test_f", Some("TestL"), "test_f"),
    ]
}

#[test]
fn traceback_styles_by_name() {
    assert_eq!(tb_style_named("long"), TbStyle::Long);
    assert_eq!(tb_style_named("line"), TbStyle::Line);
    assert_eq!(tb_style_named("no"), TbStyle::No);
    assert_eq!(tb_style_named("short"), TbStyle::Short);
    assert_eq!(tb_style_named("LONG"), TbStyle::Short);
}

#[test]
fn verbosity_levels() {
    assert_eq!(verbosity_of(true, 2), -1);
    assert_eq!(verbosity_of(false, 0), 0);
    assert_eq!(verbosity_of(false, 2), 2);
}

#[test]
fn counts_parse_like_usize() {
    assert_eq!(parse_count("4"), Some(4));
    assert_eq!(parse_count("+7"), Some(7));
    assert_eq!(parse_count("007"), Some(7));
    assert_eq!(parse_count(""), None);
    assert_eq!(parse_count("+"), None);
    assert_eq!(parse_count("-1"), None);
    assert_eq!(parse_count(" 3"), None);
    assert_eq!(parse_count("3x"), None);
    assert_eq!(parse_count("99999999999999999999999999"), None);
    assert_eq!(parse_count(&usize::MAX.to_string()), Some(usize::MAX));
    for s in ["12", "+0", "abc", "1e3", "18446744073709551616"] {
        assert_eq!(parse_count(s), s.parse::<usize>().ok());
    }
}

#[test]
fn worker_counts() {
    assert_eq!(worker_count(Some("auto"), 8), 8);
    assert_eq!(worker_count(Some("0"), 6), 6);
    assert_eq!(worker_count(Some("3"), 8), 3);
    assert_eq!(worker_count(Some("many"), 8), 1);
    assert_eq!(worker_count(None, 8), 1);
}

#[test]
fn quiet_collect_only_listing() {
    let items = sample();
    assert_eq!(
        collect_only_report(&items[..2].to_vec(), true),
        "t.py::test_a\nt.py::TestK::test_b\n\n2 tests collected.\n"
    );
    assert_eq!(collect_only_report(&vec![], true), "\n0 tests collected.\n");
}

#[test]
fn tree_collect_only_listing() {
    let expected = [
        "<Module>\n",
        "  <Function test_a>\n",
        "  <Class TestK>\n",
        "    <Function test_b>\n",
        "    <Function test_c>\n",
        "  <Function test_d>\n",
        "  <Class TestK>\n",
        "    <Function test_e>\n",
        "  <Class TestL>\n",
        "    <Function test_f>\n",
        "\n",
        "6 tests collected.\n",
    ]
    .concat();
    assert_eq!(collect_only_report(&sample(), false), expected);
}

#[test]
fn changed_python_files() {
    let v = |p: &[&str]| -> Vec<String> { p.iter().map(|s| s.to_string()).collect() };
    assert!(python_source_changed(&v(&["/p/readme.md", "/p/pkg/mod.py"])));
    assert!(!python_source_changed(&v(&["/p/readme.md", "/p/.py", "/p/x.pyc", "/p/py"])));
    assert!(!python_source_changed(&v(&[])));
    assert!(python_source_changed(&v(&["a.b.py"])));
    assert!(python_source_changed(&v(&["/p/dir.py/"])));
    assert!(!python_source_changed(&v(&["/p/x.py/.."])));
    assert!(!python_source_changed(&v(&["/p/file."])));
}

#[test]
fn path_components_like_std() {
    assert_eq!(path_components("/a//b/./c/"), (true, vec!["a".to_string(), "b".to_string(), "c".to_string()]));
    assert_eq!(path_components("./a/../b"), (false, vec![".".to_string(), "a".to_string(), "..".to_string(), "b".to_string()]));
    assert_eq!(path_components(""), (false, vec![]));
    assert!(within(&path_components("/p/sub/x"), &path_components("/p/sub")));
    assert!(!within(&path_components("/p/subway"), &path_components("/p/sub")));
    assert!(within(&path_components("/p"), &path_components("")));
}

#[test]
fn paths_sort_component_by_component() {
    let v = |p: &[&str]| -> Vec<String> { p.iter().map(|s| s.to_string()).collect() };
    let sorted = sort_paths(v(&["/p/b.py", "/p/a-b/x.py", "/p/a/z.py", "/p/a.py", "rel/x.py", "/p/a/b.py"]));
    assert_eq!(sorted, v(&["/p/a/b.py", "/p/a/z.py", "/p/a-b/x.py", "/p/a.py", "/p/b.py", "rel/x.py"]));
    let mut std_sorted: Vec<std::path::PathBuf> = sorted.iter().map(std::path::PathBuf::from).collect();
    std_sorted.sort();
    let back: Vec<String> = std_sorted.iter().map(|p| p.to_string_lossy().into_owned()).collect();
    assert_eq!(back, sorted);
    assert!(path_less("/a", "/a/b"));
    assert!(!path_less("/a/b", "/a"));
    assert!(!path_less("/a//b", "/a/b"));
    assert!(path_less("./x", "x"));
    assert!(path_less("../x", "x"));
}

#[test]
fn debug_text_is_shortened_to_47_bytes() {
    assert_eq!(shortened_debug_text("short"), "short");
    let fifty = "x".repeat(50);
    assert_eq!(shortened_debug_text(&fifty), fifty);
    let long = "y".repeat(60);
    assert_eq!(shortened_debug_text(&long), format!("{}...", "y".repeat(47)));
    let wide = format!("{}é{}", "a".repeat(45), "b".repeat(10));
    assert_eq!(shortened_debug_text(&wide), format!("{}é...", "a".repeat(45)));
}
