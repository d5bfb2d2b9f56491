use rupt::ast::{PyCall, PyClassDef, PyExpr, PyFunctionDef, PyModule, PyStmt};
use rupt::config::PytestConfig;
use rupt::conftest::ConftestMap;
use rupt::finish_collection;
use rupt::expand_items;
use rupt::markers::Marker;
use rupt::parametrize::ParametrizeArgs;
use rupt::parser::{extract_parametrize, parse_test_module, TestItem, TestNames};
use rupt::selection::filter_items;

fn name(v: &str) -> PyExpr {
    PyExpr::Name(v.to_string())
}

fn attr(base: PyExpr, a: &str) -> PyExpr {
    PyExpr::Attribute(Box::new(base), a.to_string())
}

fn mark(path: &[&str]) -> PyExpr {
    let mut e = name(path[0]);
    for p in &path[1..] {
        e = attr(e, p);
    }
    e
}

fn called(func: PyExpr, args: Vec<PyExpr>) -> PyExpr {
    PyExpr::Call(Box::new(PyCall { func, args, keywords: vec![] }))
}

fn parametrize(names: &str, values: Vec<PyExpr>) -> PyExpr {
    called(
        mark(&["pytest", "mark", "parametrize"]),
        vec![PyExpr::StringLiteral(names.to_string()), PyExpr::List(values)],
    )
}

fn num(v: &str) -> PyExpr {
    PyExpr::Int(v.to_string())
}

fn func(n: &str, decorators: Vec<PyExpr>) -> PyStmt {
    PyStmt::FunctionDef(PyFunctionDef { name: n.to_string(), decorators, parameters: vec![] })
}

fn class(n: &str, decorators: Vec<PyExpr>, body: Vec<PyStmt>) -> PyStmt {
    PyStmt::ClassDef(PyClassDef { name: n.to_string(), decorators, body })
}

fn item(node_id: &str, markers: &[&str]) -> TestItem {
    TestItem {
        node_id: node_id.to_string(),
        markers: markers.iter().map(|m| Marker { name: m.to_string(), args: vec![] }).collect(),
        parametrize: vec![],
        is_method: false,
        class_name: None,
        function_name: node_id.rsplit("::").next().unwrap().to_string(),
    }
}

fn default_names() -> TestNames {
    TestNames::from_config(&PytestConfig::default())
}

fn ids(items: &[TestItem]) -> Vec<String> {
    items.iter().map(|i| i.node_id.clone()).collect()
}

fn sample_items() -> Vec<TestItem> {
    vec![
        item("tests/test_auth.py::test_login", &["slow"]),
        item("tests/test_auth.py::test_oauth_login", &[]),
        item("tests/test_api.py::test_get", &["network", "slow"]),
        item("tests/test_api.py::test_post", &["network"]),
    ]
}

#[test]
fn module_functions_and_classes() {
    let module = PyModule {
        body: vec![
            func("test_one", vec![]),
            func("helper", vec![]),
            func("test", vec![]),
            PyStmt::Other,
            class(
                "TestThing",
                vec![],
                vec![func("test_a", vec![]), func("setup_method", vec![]), PyStmt::Other, func("test_b", vec![])],
            ),
            class("TestMixin", vec![], vec![func("test_hidden", vec![])]),
            class("Helper", vec![], vec![func("test_hidden", vec![])]),
        ],
    };
    let items = parse_test_module(&module, "pkg\\test_mod.py", &default_names());
    assert_eq!(
        ids(&items),
        vec![
            "pkg/test_mod.py::test_one",
            "pkg/test_mod.py::TestThing::test_a",
            "pkg/test_mod.py::TestThing::test_b",
        ]
    );
    assert!(!items[0].is_method);
    assert_eq!(items[0].class_name, None);
    assert!(items[1].is_method);
    assert_eq!(items[1].class_name, Some("TestThing".to_string()));
    assert_eq!(items[2].function_name, "test_b");
}

#[test]
fn markers_from_class_then_method() {
    let module = PyModule {
        body: vec![class(
            "TestMarked",
            vec![mark(&["pytest", "mark", "slow"])],
            vec![func(
                "test_x",
                vec![
                    called(mark(&["pytest", "mark", "skipif"]), vec![name("COND")]),
                    mark(&["mark", "custom", "deep"]),
                    mark(&["pytest", "fixture"]),
                    name("decorator"),
                ],
            )],
        )],
    };
    let items = parse_test_module(&module, "test_m.py", &default_names());
    let names: Vec<String> = items[0].markers.iter().map(|m| m.name.clone()).collect();
    assert_eq!(names, vec!["slow", "skipif", "custom.deep"]);
    assert!(items[0].markers.iter().all(|m| m.args.is_empty()));
}

#[test]
fn parametrize_decorators_are_read_in_order() {
    let decorators = vec![
        parametrize("a", vec![num("1"), num("2")]),
        called(mark(&["pytest", "mark", "skip"]), vec![]),
        parametrize("b", vec![num("3")]),
        called(mark(&["mark", "parametrize"]), vec![PyExpr::StringLiteral("c".to_string()), PyExpr::List(vec![])]),
    ];
    let p = extract_parametrize(&decorators);
    assert_eq!(p.len(), 2);
    assert_eq!(p[0].arg_names, vec!["a"]);
    assert_eq!(p[0].case_ids, vec!["1", "2"]);
    assert_eq!(p[1].case_ids, vec!["3"]);
}

#[test]
fn expanding_parametrized_items() {
    let module = PyModule {
        body: vec![
            func("test_plain", vec![]),
            func(
                "test_grid",
                vec![parametrize("x", vec![num("1"), num("2")]), parametrize("y", vec![num("7")])],
            ),
        ],
    };
    let items = expand_items(parse_test_module(&module, "test_g.py", &default_names()));
    assert_eq!(
        ids(&items),
        vec!["test_g.py::test_plain", "test_g.py::test_grid[1-7]", "test_g.py::test_grid[2-7]"]
    );
    assert_eq!(items[1].parametrize.len(), 2);
    assert_eq!(items[2].function_name, "test_grid");
}

#[test]
fn keyword_filter_is_case_insensitive_substring() {
    let config = PytestConfig::default();
    let r = filter_items(sample_items(), Some("LOGIN"), None, &config);
    assert_eq!(ids(&r), vec!["tests/test_auth.py::test_login", "tests/test_auth.py::test_oauth_login"]);
}

#[test]
fn keyword_filter_matches_marker_names() {
    let config = PytestConfig::default();
    let r = filter_items(sample_items(), Some("Slo"), None, &config);
    assert_eq!(ids(&r), vec!["tests/test_auth.py::test_login", "tests/test_api.py::test_get"]);
}

#[test]
fn keyword_filter_boolean_operators() {
    let config = PytestConfig::default();
    let r = filter_items(sample_items(), Some("auth and not oauth"), None, &config);
    assert_eq!(ids(&r), vec!["tests/test_auth.py::test_login"]);
    let r = filter_items(sample_items(), Some(" (post or oauth) and not slow "), None, &config);
    assert_eq!(ids(&r), vec!["tests/test_auth.py::test_oauth_login", "tests/test_api.py::test_post"]);
    let r = filter_items(sample_items(), Some("not not get"), None, &config);
    assert_eq!(ids(&r), vec!["tests/test_api.py::test_get"]);
}

#[test]
fn marker_filter_matches_names_exactly() {
    let config = PytestConfig::default();
    let r = filter_items(sample_items(), None, Some("slow"), &config);
    assert_eq!(ids(&r), vec!["tests/test_auth.py::test_login", "tests/test_api.py::test_get"]);
    let r = filter_items(sample_items(), None, Some("Slow"), &config);
    assert!(r.is_empty());
    let r = filter_items(sample_items(), None, Some("network and not slow"), &config);
    assert_eq!(ids(&r), vec!["tests/test_api.py::test_post"]);
}

#[test]
fn keyword_then_marker_filter() {
    let config = PytestConfig::default();
    let r = filter_items(sample_items(), Some("api"), Some("slow or network"), &config);
    assert_eq!(ids(&r), vec!["tests/test_api.py::test_get", "tests/test_api.py::test_post"]);
}

#[test]
fn filters_commute_on_an_example() {
    let config = PytestConfig::default();
    let k_first = filter_items(filter_items(sample_items(), Some("login"), None, &config), None, Some("slow"), &config);
    let m_first = filter_items(filter_items(sample_items(), None, Some("slow"), &config), Some("login"), None, &config);
    assert_eq!(ids(&k_first), ids(&m_first));
    assert_eq!(ids(&k_first), vec!["tests/test_auth.py::test_login"]);
}

#[test]
fn odd_expressions_are_leaves() {
    let config = PytestConfig::default();
    // A lone parenthesis is a keyword of its own, which no id contains.
    let r = filter_items(sample_items(), Some("("), None, &config);
    assert!(r.is_empty());
    // An empty expression matches everything.
    let r = filter_items(sample_items(), Some("   "), None, &config);
    assert_eq!(r.len(), 4);
    // "()" is an empty expression inside parentheses.
    let r = filter_items(sample_items(), Some("()"), None, &config);
    assert_eq!(r.len(), 4);
}

#[test]
fn finish_collection_expands_then_filters() {
    let module = PyModule {
        body: vec![
            func("test_plain", vec![]),
            func("test_grid", vec![parametrize("x", vec![num("1"), num("2")])]),
        ],
    };
    let raw = parse_test_module(&module, "test_g.py", &default_names());
    let config = PytestConfig::default();
    let r = finish_collection(raw, ConftestMap { levels: vec![] }, Some("grid[2"), None, &config);
    assert_eq!(ids(&r.items), vec!["test_g.py::test_grid[2]"]);
    assert!(r.conftest_map.levels.is_empty());
}

#[test]
fn items_keep_their_parametrize_arguments() {
    let raw = vec![TestItem {
        node_id: "t.py::test_p".to_string(),
        markers: vec![Marker { name: "slow".to_string(), args: vec![] }],
        parametrize: vec![ParametrizeArgs { arg_names: vec!["v".to_string()], case_ids: vec!["a".to_string(), "b".to_string()] }],
        is_method: false,
        class_name: None,
        function_name: "test_p".to_string(),
    }];
    let items = expand_items(raw);
    assert_eq!(ids(&items), vec!["t.py::test_p[a]", "t.py::test_p[b]"]);
    assert_eq!(items[1].markers[0].name, "slow");
    assert_eq!(items[1].parametrize[0].case_ids, vec!["a", "b"]);
}

#[test]
fn configured_name_patterns_choose_tests() {
    let mut config = PytestConfig::default();
    config.python_functions = vec!["check_*".to_string()];
    config.python_classes = vec!["Suite".to_string()];
    let names = TestNames::from_config(&config);
    let module = PyModule {
        body: vec![
            func("check_x", vec![]),
            func("test_y", vec![]),
            class("SuiteOne", vec![], vec![func("check_a", vec![]), func("test_b", vec![])]),
            class("TestTwo", vec![], vec![func("check_c", vec![])]),
            class("SuiteMixin", vec![], vec![func("check_d", vec![])]),
        ],
    };
    let items = parse_test_module(&module, "test_a.py", &names);
    assert_eq!(ids(&items), vec!["test_a.py::check_x", "test_a.py::SuiteOne::check_a"]);
}

#[test]
fn name_patterns_are_prefixes_or_globs() {
    let mut config = PytestConfig::default();
    config.python_functions = vec!["test".to_string(), "*_check".to_string()];
    let names = TestNames::from_config(&config);
    let module = PyModule {
        body: vec![
            func("test", vec![]),
            func("testing", vec![]),
            func("db_check", vec![]),
            func("helper", vec![]),
        ],
    };
    let items = parse_test_module(&module, "m.py", &names);
    assert_eq!(ids(&items), vec!["m.py::test", "m.py::testing", "m.py::db_check"]);
}
