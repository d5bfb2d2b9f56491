use rupt::config::PytestConfig;
use rupt::parser::TestNames;
use rupt::source::{fixtures_of_source, parse_source, parse_test_source};

fn names() -> TestNames {
    TestNames::from_config(&PytestConfig::default())
}

fn ids(source: &str) -> Vec<String> {
    parse_test_source(source, "pkg/t.py", &names())
        .expect("debug texts can be cut")
        .iter()
        .map(|i| i.node_id.clone())
        .collect()
}

#[test]
fn functions_and_classes_from_source() {
    let src = "import pytest\n\ndef test_a():\n    pass\n\ndef helper():\n    pass\n\nclass TestK:\n    def test_b(self):\n        pass\n    def setup_method(self):\n        pass\n";
    assert_eq!(ids(src), vec!["pkg/t.py::test_a", "pkg/t.py::TestK::test_b"]);
}

#[test]
fn nested_test_classes_are_collected() {
    let src = "class TestOuter:\n    class TestInner:\n        def test_x(self): pass\n    class Helper:\n        def test_hidden(self): pass\n    def test_y(self): pass\n";
    let items = parse_test_source(src, "t.py", &names()).unwrap();
    let got: Vec<&str> = items.iter().map(|i| i.node_id.as_str()).collect();
    assert_eq!(got, vec!["t.py::TestOuter::TestInner::test_x", "t.py::TestOuter::test_y"]);
    assert_eq!(items[0].function_name, "test_x");
    assert_eq!(items[0].class_name, Some("TestInner".to_string()));
}

#[test]
fn nested_class_markers_come_from_every_level() {
    let src = "import pytest\n@pytest.mark.slow\nclass TestOuter:\n    @pytest.mark.db\n    class TestInner:\n        @pytest.mark.quick\n        def test_x(self): pass\n";
    let items = parse_test_source(src, "t.py", &names()).unwrap();
    let markers: Vec<&str> = items[0].markers.iter().map(|m| m.name.as_str()).collect();
    assert_eq!(markers, vec!["slow", "db", "quick"]);
}

#[test]
fn parametrize_from_source() {
    let src = "import pytest\n@pytest.mark.parametrize('x, y', [(1, 2.0), (-3, 'a'), (None, b'hi')])\ndef test_p(x, y): pass\n";
    let items = parse_test_source(src, "t.py", &names()).unwrap();
    assert_eq!(items[0].parametrize[0].case_ids, vec!["1-2.0", "-3-a", "None-hi"]);
}

#[test]
fn long_debug_texts_are_shortened() {
    let src = "import pytest\n@pytest.mark.parametrize('x', [a[0] + b[1]])\ndef test_s(x): pass\n";
    let items = parse_test_source(src, "t.py", &names()).unwrap();
    let id = &items[0].parametrize[0].case_ids[0];
    assert_eq!(id.len(), 50);
    assert!(id.ends_with("..."));
    assert!(id.starts_with("BinOp("));
}

#[test]
fn syntax_errors_are_recovered_from() {
    let src = "def test_ok():\n    pass\n\ndef broken(:\n";
    assert_eq!(ids(src), vec!["pkg/t.py::test_ok"]);
    assert!(parse_source(src).is_some());
}

#[test]
fn fixtures_from_source() {
    let src = "import pytest\n\n@pytest.fixture(scope='session', autouse=True)\ndef db():\n    pass\n\n@pytest.fixture(params=[1, 2])\ndef num(request):\n    return request.param\n\ndef helper():\n    pass\n";
    let f = fixtures_of_source(src, "conftest.py");
    let names: Vec<&str> = f.iter().map(|x| x.name.as_str()).collect();
    assert_eq!(names, vec!["db", "num"]);
    assert!(f[0].autouse);
    assert!(!f[0].params);
    assert!(f[1].params);
    assert_eq!(f[1].file, "conftest.py");
}
