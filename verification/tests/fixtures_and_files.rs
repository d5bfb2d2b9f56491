use rupt::ast::{PyCall, PyExpr, PyFunctionDef, PyKeyword, PyModule, PyStmt, PyClassDef};
use rupt::conftest::{is_conftest_skipped, ConftestMap};
use rupt::discovery::{build_globset, is_test_file, should_skip_dir};
use rupt::fixtures::{extract_fixture_dependencies, fixtures_in_module, FixtureDef, FixtureScope};

fn name(v: &str) -> PyExpr {
    PyExpr::Name(v.to_string())
}

fn pytest_fixture() -> PyExpr {
    PyExpr::Attribute(Box::new(name("pytest")), "fixture".to_string())
}

fn called(func: PyExpr, keywords: Vec<PyKeyword>) -> PyExpr {
    PyExpr::Call(Box::new(PyCall { func, args: vec![], keywords }))
}

fn kw(arg: &str, value: PyExpr) -> PyKeyword {
    PyKeyword { arg: Some(arg.to_string()), value }
}

fn def(n: &str, decorators: Vec<PyExpr>, parameters: &[&str]) -> PyFunctionDef {
    PyFunctionDef {
        name: n.to_string(),
        decorators,
        parameters: parameters.iter().map(|p| p.to_string()).collect(),
    }
}

fn fixture(n: &str, file: &str) -> FixtureDef {
    FixtureDef { name: n.to_string(), scope: FixtureScope::Function, params: false, autouse: false, file: file.to_string() }
}

fn patterns(v: &[&str]) -> Vec<String> {
    v.iter().map(|s| s.to_string()).collect()
}

#[test]
fn fixtures_of_a_conftest_module() {
    let module = PyModule {
        body: vec![
            PyStmt::FunctionDef(def("plain", vec![pytest_fixture()], &[])),
            PyStmt::FunctionDef(def(
                "db",
                vec![called(
                    pytest_fixture(),
                    vec![
                        kw("scope", PyExpr::StringLiteral("session".to_string())),
                        kw("autouse", PyExpr::BooleanLiteral(true)),
                    ],
                )],
                &[],
            )),
            PyStmt::FunctionDef(def(
                "bare",
                vec![called(name("fixture"), vec![kw("scope", PyExpr::StringLiteral("weekly".to_string()))])],
                &[],
            )),
            PyStmt::FunctionDef(def(
                "overridden",
                vec![called(
                    pytest_fixture(),
                    vec![
                        kw("scope", PyExpr::StringLiteral("module".to_string())),
                        kw("scope", name("SCOPE")),
                        kw("autouse", name("FLAG")),
                    ],
                )],
                &[],
            )),
            PyStmt::FunctionDef(def("helper", vec![name("staticmethod")], &[])),
            PyStmt::ClassDef(PyClassDef {
                name: "Nested".to_string(),
                decorators: vec![],
                body: vec![PyStmt::FunctionDef(def("inner", vec![pytest_fixture()], &[]))],
            }),
            PyStmt::Other,
        ],
    };
    let f = fixtures_in_module(&module, "/p/conftest.py");
    let names: Vec<&str> = f.iter().map(|x| x.name.as_str()).collect();
    assert_eq!(names, vec!["plain", "db", "bare", "overridden"]);
    assert_eq!(f[0].scope, FixtureScope::Function);
    assert!(!f[0].autouse);
    assert_eq!(f[1].scope, FixtureScope::Session);
    assert!(f[1].autouse);
    assert_eq!(f[2].scope, FixtureScope::Function);
    assert_eq!(f[3].scope, FixtureScope::Module);
    assert!(!f[3].autouse);
    assert!(f.iter().all(|x| !x.params && x.file == "/p/conftest.py"));
}

#[test]
fn fixture_scopes() {
    for (text, scope) in [
        ("class", FixtureScope::Class),
        ("module", FixtureScope::Module),
        ("package", FixtureScope::Package),
        ("session", FixtureScope::Session),
        ("function", FixtureScope::Function),
    ] {
        let module = PyModule {
            body: vec![PyStmt::FunctionDef(def(
                "f",
                vec![called(pytest_fixture(), vec![kw("scope", PyExpr::StringLiteral(text.to_string()))])],
                &[],
            ))],
        };
        assert_eq!(fixtures_in_module(&module, "c.py")[0].scope, scope);
    }
}

#[test]
fn first_fixture_decorator_decides() {
    let module = PyModule {
        body: vec![PyStmt::FunctionDef(def(
            "f",
            vec![
                name("other"),
                called(pytest_fixture(), vec![kw("scope", PyExpr::StringLiteral("class".to_string()))]),
                called(pytest_fixture(), vec![kw("scope", PyExpr::StringLiteral("session".to_string()))]),
            ],
            &[],
        ))],
    };
    assert_eq!(fixtures_in_module(&module, "c.py")[0].scope, FixtureScope::Class);
}

#[test]
fn dependencies_skip_self_and_cls() {
    let f = def("test_x", vec![], &["self", "db", "cls", "tmp_path"]);
    assert_eq!(extract_fixture_dependencies(&f), vec!["db".to_string(), "tmp_path".to_string()]);
}

#[test]
fn conftest_levels_apply_to_files_below_them() {
    let map = ConftestMap {
        levels: vec![
            ("/p".to_string(), vec![fixture("root_fx", "/p/conftest.py")]),
            ("/p/sub".to_string(), vec![fixture("sub_fx", "/p/sub/conftest.py"), fixture("sub_fx2", "/p/sub/conftest.py")]),
            ("/p/subway".to_string(), vec![fixture("other_fx", "/p/subway/conftest.py")]),
        ],
    };
    let names = |file: &str| -> Vec<String> { map.fixtures_for(file).iter().map(|f| f.name.clone()).collect() };
    assert_eq!(names("/p/sub/test_a.py"), vec!["root_fx", "sub_fx", "sub_fx2"]);
    assert_eq!(names("/p/sub/deeper/test_b.py"), vec!["root_fx", "sub_fx", "sub_fx2"]);
    assert_eq!(names("/p/test_c.py"), vec!["root_fx"]);
    assert_eq!(names("/p/subway/test_d.py"), vec!["root_fx", "other_fx"]);
    assert!(names("/q/test_e.py").is_empty());
    assert!(names("p/test_f.py").is_empty());
}

#[test]
fn conftest_directories_that_are_skipped() {
    assert!(!is_conftest_skipped("conftest.py"));
    assert!(!is_conftest_skipped("tests/unit/conftest.py"));
    assert!(is_conftest_skipped(".hidden/conftest.py"));
    assert!(is_conftest_skipped("a/__pycache__/conftest.py"));
    assert!(is_conftest_skipped("node_modules/x/conftest.py"));
    assert!(is_conftest_skipped("venv/conftest.py"));
    assert!(!is_conftest_skipped("myvenv/conftest.py"));
}

#[test]
fn directories_left_out_of_the_search() {
    let norecurse = build_globset(&patterns(&[".*", "build", "*.egg"]));
    assert!(should_skip_dir(".git", &norecurse));
    assert!(should_skip_dir("node_modules", &norecurse));
    assert!(should_skip_dir(".cache", &norecurse));
    assert!(should_skip_dir("build", &norecurse));
    assert!(should_skip_dir("pkg.egg", &norecurse));
    assert!(!should_skip_dir("tests", &norecurse));
    let none = build_globset(&[]);
    assert!(should_skip_dir("__pycache__", &none));
    assert!(!should_skip_dir("build", &none));
}

#[test]
fn test_files_by_name_and_ignore_patterns() {
    let files = build_globset(&patterns(&["test_*.py", "*_test.py"]));
    let ignore = build_globset(&patterns(&["legacy/*"]));
    assert!(is_test_file("test_api.py", "tests/test_api.py", &files, &ignore));
    assert!(is_test_file("api_test.py", "api_test.py", &files, &ignore));
    assert!(!is_test_file("helpers.py", "tests/helpers.py", &files, &ignore));
    assert!(!is_test_file("test_data.json", "tests/test_data.json", &files, &ignore));
    assert!(!is_test_file("test_old.py", "legacy/test_old.py", &files, &ignore));
}

#[test]
fn invalid_patterns_are_skipped() {
    let files = build_globset(&patterns(&["a[", "test_*.py"]));
    let empty = build_globset(&[]);
    assert!(is_test_file("test_x.py", "test_x.py", &files, &empty));
    assert!(!is_test_file("a[.py", "a[.py", &files, &empty));
}

#[test]
fn fixture_params_keyword_is_recorded() {
    let module = PyModule {
        body: vec![
            PyStmt::FunctionDef(def(
                "num",
                vec![called(
                    pytest_fixture(),
                    vec![kw("params", PyExpr::List(vec![PyExpr::Int("1".to_string()), PyExpr::Int("2".to_string())]))],
                )],
                &["request"],
            )),
            PyStmt::FunctionDef(def("plain", vec![called(pytest_fixture(), vec![])], &[])),
        ],
    };
    let f = fixtures_in_module(&module, "conftest.py");
    assert!(f[0].params);
    assert_eq!(f[0].name, "num");
    assert_eq!(f[0].scope, FixtureScope::Function);
    assert!(!f[0].autouse);
    assert!(!f[1].params);
}

#[test]
fn globs_that_compile_are_all_kept() {
    let files = build_globset(&patterns(&["*.py", "[", "x?.txt"]));
    let none = build_globset(&[]);
    assert!(is_test_file("a.py", "a.py", &files, &none));
    assert!(!is_test_file("xy.txt", "xy.txt", &files, &none));
    assert!(should_skip_dir("xy.txt", &files));
}
