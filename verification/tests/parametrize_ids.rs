use rupt::ast::{
    FStringPiece, PyCall, PyDictItem, PyExpr, PyKeyword, UnaryOperator,
};
use rupt::parametrize::{expand_parametrize, parse_parametrize_call, ParametrizeArgs};

fn s(v: &str) -> PyExpr {
    PyExpr::StringLiteral(v.to_string())
}

fn num(v: &str) -> PyExpr {
    PyExpr::Int(v.to_string())
}

fn name(v: &str) -> PyExpr {
    PyExpr::Name(v.to_string())
}

fn attr(base: PyExpr, a: &str) -> PyExpr {
    PyExpr::Attribute(Box::new(base), a.to_string())
}

fn call(func: PyExpr, args: Vec<PyExpr>, keywords: Vec<PyKeyword>) -> PyExpr {
    PyExpr::Call(Box::new(PyCall { func, args, keywords }))
}

fn kw(arg: &str, value: PyExpr) -> PyKeyword {
    PyKeyword { arg: Some(arg.to_string()), value }
}

fn parametrize(args: Vec<PyExpr>, keywords: Vec<PyKeyword>) -> PyCall {
    PyCall { func: attr(attr(name("pytest"), "mark"), "parametrize"), args, keywords }
}

fn params(names: &[&str], ids: &[&str]) -> ParametrizeArgs {
    ParametrizeArgs {
        arg_names: names.iter().map(|n| n.to_string()).collect(),
        case_ids: ids.iter().map(|n| n.to_string()).collect(),
    }
}

/// The case ids a single-value parametrize over `values` gives.
fn ids_for(values: Vec<PyExpr>) -> Vec<String> {
    let c = parametrize(vec![s("x"), PyExpr::List(values)], vec![]);
    parse_parametrize_call(&c).expect("names are readable").case_ids
}

#[test]
fn expand_without_parametrize_keeps_the_id() {
    assert_eq!(expand_parametrize("t.py::test_a", &[]), vec!["t.py::test_a".to_string()]);
}

#[test]
fn expand_single_decorator() {
    let r = expand_parametrize("t.py::test_a", &[params(&["x"], &["1", "2"])]);
    assert_eq!(r, vec!["t.py::test_a[1]".to_string(), "t.py::test_a[2]".to_string()]);
}

#[test]
fn expand_stacked_decorators_bottom_varies_fastest() {
    let r = expand_parametrize(
        "t.py::test_a",
        &[params(&["x"], &["a", "b"]), params(&["y"], &["1", "2"])],
    );
    assert_eq!(
        r,
        vec![
            "t.py::test_a[a-1]".to_string(),
            "t.py::test_a[a-2]".to_string(),
            "t.py::test_a[b-1]".to_string(),
            "t.py::test_a[b-2]".to_string(),
        ]
    );
}

#[test]
fn expand_count_is_the_product_of_case_counts() {
    let r = expand_parametrize(
        "m.py::test_p",
        &[params(&["x"], &["a", "b", "c"]), params(&["y"], &["1", "2"])],
    );
    assert_eq!(r.len(), 6);
}

#[test]
fn expand_skips_decorators_without_cases() {
    let r = expand_parametrize("t.py::test_a", &[params(&["x"], &[]), params(&["y"], &["z"])]);
    assert_eq!(r, vec!["t.py::test_a[z]".to_string()]);
}

#[test]
fn expand_with_only_empty_decorators_gives_empty_brackets() {
    let r = expand_parametrize("t.py::test_a", &[params(&["x"], &[])]);
    assert_eq!(r, vec!["t.py::test_a[]".to_string()]);
}

#[test]
fn expand_disambiguates_repeated_ids() {
    let r = expand_parametrize("t.py::test_a", &[params(&["x"], &["a", "a", "b"])]);
    assert_eq!(
        r,
        vec!["t.py::test_a[a]0".to_string(), "t.py::test_a[a]1".to_string(), "t.py::test_a[b]".to_string()]
    );
}

#[test]
fn parse_names_string_and_tuple_cases() {
    let c = parametrize(
        vec![
            s("x, y"),
            PyExpr::List(vec![
                PyExpr::Tuple(vec![num("1"), num("2")]),
                PyExpr::Tuple(vec![num("3"), num("4")]),
            ]),
        ],
        vec![],
    );
    let p = parse_parametrize_call(&c).unwrap();
    assert_eq!(p.arg_names, vec!["x".to_string(), "y".to_string()]);
    assert_eq!(p.case_ids, vec!["1-2".to_string(), "3-4".to_string()]);
}

#[test]
fn parse_needs_two_arguments() {
    let c = parametrize(vec![s("x")], vec![]);
    assert!(parse_parametrize_call(&c).is_none());
}

#[test]
fn parse_rejects_empty_names() {
    let c = parametrize(vec![s(" , "), PyExpr::List(vec![num("1")])], vec![]);
    assert!(parse_parametrize_call(&c).is_none());
}

#[test]
fn parse_rejects_names_of_other_kinds() {
    let c = parametrize(vec![name("NAMES"), PyExpr::List(vec![num("1")])], vec![]);
    assert!(parse_parametrize_call(&c).is_none());
}

#[test]
fn parse_names_list_keeps_only_strings() {
    let c = parametrize(
        vec![PyExpr::List(vec![s("a"), name("b"), s("c")]), PyExpr::List(vec![])],
        vec![],
    );
    let p = parse_parametrize_call(&c).unwrap();
    assert_eq!(p.arg_names, vec!["a".to_string(), "c".to_string()]);
    assert!(p.case_ids.is_empty());
}

#[test]
fn parse_values_of_other_kinds_give_no_cases() {
    let c = parametrize(vec![s("x"), name("CASES")], vec![]);
    let p = parse_parametrize_call(&c).unwrap();
    assert!(p.case_ids.is_empty());
}

#[test]
fn explicit_ids_win() {
    let c = parametrize(
        vec![s("x"), PyExpr::List(vec![num("1"), num("2")])],
        vec![kw("ids", PyExpr::List(vec![s("first"), s("second")]))],
    );
    assert_eq!(
        parse_parametrize_call(&c).unwrap().case_ids,
        vec!["first".to_string(), "second".to_string()]
    );
}

#[test]
fn unreadable_ids_fall_back_to_values() {
    let c = parametrize(
        vec![s("x"), PyExpr::Tuple(vec![num("7"), num("8")])],
        vec![kw("ids", name("make_ids")), kw("ids", PyExpr::List(vec![num("1")]))],
    );
    assert_eq!(parse_parametrize_call(&c).unwrap().case_ids, vec!["7".to_string(), "8".to_string()]);
}

#[test]
fn pytest_param_with_id() {
    let case = call(
        attr(name("pytest"), "param"),
        vec![num("1")],
        vec![kw("marks", name("slow")), kw("id", s("one"))],
    );
    assert_eq!(ids_for(vec![case]), vec!["one".to_string()]);
}

#[test]
fn pytest_param_without_id_joins_values() {
    let case = call(attr(name("pytest"), "param"), vec![num("1"), s("a")], vec![]);
    assert_eq!(ids_for(vec![case]), vec!["1-a".to_string()]);
}

#[test]
fn other_call_cases_show_the_function_name() {
    let with_args = call(attr(name("mod"), "make"), vec![num("2"), s("k")], vec![]);
    let without = call(name("build"), vec![], vec![]);
    assert_eq!(ids_for(vec![with_args, without]), vec!["make(2, k)".to_string(), "build()".to_string()]);
}

#[test]
fn call_inside_a_tuple_shows_the_dotted_name() {
    let inner = call(attr(name("mod"), "make"), vec![], vec![]);
    let odd = call(PyExpr::Other("sub".to_string()), vec![num("1")], vec![]);
    let case = PyExpr::Tuple(vec![inner, odd]);
    assert_eq!(ids_for(vec![case]), vec!["mod.make()-call(1)".to_string()]);
}

#[test]
fn number_reprs() {
    let ids = ids_for(vec![
        PyExpr::Float("1".to_string()),
        PyExpr::Float("2.5".to_string()),
        PyExpr::Complex("0".to_string(), "2".to_string()),
        PyExpr::UnaryOp(UnaryOperator::USub, Box::new(num("3"))),
        PyExpr::UnaryOp(UnaryOperator::UAdd, Box::new(num("4"))),
        PyExpr::UnaryOp(UnaryOperator::Not, Box::new(num("5"))),
    ]);
    assert_eq!(ids, vec!["1.0", "2.5", "0+2j", "-3", "+4", "5"]);
}

#[test]
fn constant_reprs() {
    let ids = ids_for(vec![
        PyExpr::BooleanLiteral(true),
        PyExpr::BooleanLiteral(false),
        PyExpr::NoneLiteral,
        name("CONST"),
        attr(name("os"), "sep"),
        PyExpr::Lambda,
        PyExpr::Other("Subscript".to_string()),
    ]);
    assert_eq!(ids, vec!["True", "False", "None", "CONST", "os.sep", "<lambda>", "Subscript"]);
}

#[test]
fn bytes_reprs() {
    let ids = ids_for(vec![
        PyExpr::BytesLiteral(b"hi".to_vec()),
        PyExpr::BytesLiteral(vec![0xff, 1]),
        PyExpr::BytesLiteral("é".as_bytes().to_vec()),
    ]);
    assert_eq!(ids, vec!["hi", "[255, 1]", "é"]);
}

#[test]
fn container_reprs() {
    let dict = PyExpr::Dict(vec![
        PyDictItem { key: Some(s("k")), value: num("1") },
        PyDictItem { key: None, value: name("extra") },
    ]);
    let set = PyExpr::SetDisplay(vec![num("1"), num("2")]);
    let nested = PyExpr::Tuple(vec![PyExpr::List(vec![num("1"), num("2")]), num("3")]);
    let fstr = PyExpr::FString(vec![
        FStringPiece::Literal("ab".to_string()),
        FStringPiece::Formatted,
        FStringPiece::Literal("c".to_string()),
    ]);
    let ids = ids_for(vec![dict, set, nested, fstr]);
    assert_eq!(ids, vec!["{k: 1, : extra}", "{1, 2}", "1-2-3", "ab<fstring>c"]);
}

#[test]
fn repeated_case_ids_get_numbered() {
    let ids = ids_for(vec![num("1"), num("1"), num("2")]);
    assert_eq!(ids, vec!["10", "11", "2"]);
}

#[test]
fn expanded_ids_are_distinct_even_with_repeated_cases() {
    let r = expand_parametrize(
        "t.py::test_a",
        &[params(&["x"], &["a", "a0", "a"]), params(&["y"], &["1", "1"])],
    );
    assert_eq!(r.len(), 6);
    for i in 0..r.len() {
        for j in (i + 1)..r.len() {
            assert_ne!(r[i], r[j]);
        }
    }
    assert_eq!(r[0], "t.py::test_a[a-1]0");
    assert_eq!(r[2], "t.py::test_a[a0-1]0");
    assert_eq!(r[5], "t.py::test_a[a-1]3");
}
