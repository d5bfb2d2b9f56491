use rupt::config::{resolve_config, IniOptions, PytestConfig};

fn v(items: &[&str]) -> Vec<String> {
    items.iter().map(|s| s.to_string()).collect()
}

fn no_options() -> IniOptions {
    IniOptions {
        testpaths: None,
        python_files: None,
        python_classes: None,
        python_functions: None,
        norecursedirs: None,
        markers: None,
        collect_ignore: None,
    }
}

#[test]
fn defaults() {
    let c = PytestConfig::default();
    assert!(c.testpaths.is_empty());
    assert_eq!(c.python_files, v(&["test_*.py", "*_test.py"]));
    assert_eq!(c.python_classes, v(&["Test*"]));
    assert_eq!(c.python_functions, v(&["test_*"]));
    assert_eq!(c.norecursedirs.len(), 15);
    assert_eq!(c.norecursedirs[0], ".*");
    assert_eq!(c.norecursedirs[14], ".hg");
    assert!(c.markers.is_empty());
    assert!(c.collect_ignore.is_empty());
    assert_eq!(c.rootdir, "");
}

#[test]
fn no_configuration_files_gives_defaults_at_the_root() {
    let c = resolve_config("/proj", None, None, None);
    assert_eq!(c.rootdir, "/proj");
    assert_eq!(c.python_files, v(&["test_*.py", "*_test.py"]));
}

#[test]
fn pytest_ini_section() {
    let ini = "[pytest]\ntestpaths = tests  integration\npython_files = check_*.py\n# python_classes = Nope\n; python_functions = nope\n\nnorecursedirs = build\n";
    let c = resolve_config("/p", None, Some(ini), None);
    assert_eq!(c.testpaths, v(&["tests", "integration"]));
    assert_eq!(c.python_files, v(&["check_*.py"]));
    assert_eq!(c.python_classes, v(&["Test*"]));
    assert_eq!(c.python_functions, v(&["test_*"]));
    assert_eq!(c.norecursedirs, v(&["build"]));
}

#[test]
fn later_keys_win_and_values_keep_equal_signs() {
    let ini = "[pytest]\ntestpaths = a\ntestpaths = b\npython_files = x=y.py\n";
    let c = resolve_config("/p", None, Some(ini), None);
    assert_eq!(c.testpaths, v(&["b"]));
    assert_eq!(c.python_files, v(&["x=y.py"]));
}

#[test]
fn ini_keys_outside_the_section_are_ignored() {
    let ini = "testpaths = top\n[other]\ntestpaths = other\n[pytest]\npython_classes = Check*\n";
    let c = resolve_config("/p", None, Some(ini), None);
    assert!(c.testpaths.is_empty());
    assert_eq!(c.python_classes, v(&["Check*"]));
}

#[test]
fn pytest_ini_without_section_falls_through_to_setup_cfg() {
    let ini = "[tool]\nx = 1\n";
    let cfg = "[metadata]\nname = demo\n[tool:pytest]\npython_functions = check_* test_*\n";
    let c = resolve_config("/p", None, Some(ini), Some(cfg));
    assert_eq!(c.python_functions, v(&["check_*", "test_*"]));
}

#[test]
fn empty_pytest_section_still_wins() {
    let c = resolve_config("/p", None, Some("[pytest]\n"), Some("[tool:pytest]\ntestpaths = x\n"));
    assert!(c.testpaths.is_empty());
}

#[test]
fn empty_section_followed_by_another_is_not_a_configuration() {
    let ini = "[pytest]\n[other]\nkey = v\n";
    let c = resolve_config("/p", None, Some(ini), Some("[tool:pytest]\ntestpaths = x\n"));
    assert_eq!(c.testpaths, v(&["x"]));
}

#[test]
fn setup_cfg_needs_its_section() {
    let c = resolve_config("/p", None, None, Some("[pytest]\ntestpaths = x\n"));
    assert!(c.testpaths.is_empty());
}

#[test]
fn pyproject_table_wins_over_ini_files() {
    let mut o = no_options();
    o.testpaths = Some(v(&["tests"]));
    o.norecursedirs = Some("a  b\tc".to_string());
    o.markers = Some(v(&["slow: long running"]));
    o.collect_ignore = Some(v(&["setup.py"]));
    let c = resolve_config("/p", Some(o), Some("[pytest]\ntestpaths = other\n"), None);
    assert_eq!(c.testpaths, v(&["tests"]));
    assert_eq!(c.norecursedirs, v(&["a", "b", "c"]));
    assert_eq!(c.markers, v(&["slow: long running"]));
    assert_eq!(c.collect_ignore, v(&["setup.py"]));
    assert_eq!(c.python_files, v(&["test_*.py", "*_test.py"]));
}

#[test]
fn pyproject_table_without_settings_keeps_defaults() {
    let c = resolve_config("/p", Some(no_options()), Some("[pytest]\ntestpaths = other\n"), None);
    assert!(c.testpaths.is_empty());
    assert_eq!(c.norecursedirs.len(), 15);
}

#[test]
fn windows_line_endings_are_read() {
    let ini = "[pytest]\r\ntestpaths = a b\r\n";
    let c = resolve_config("/p", None, Some(ini), None);
    assert_eq!(c.testpaths, v(&["a", "b"]));
}
