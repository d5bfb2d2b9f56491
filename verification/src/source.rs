//! Python source text, read with `ruff_python_parser`, and the tests and
//! fixtures it defines.
use vstd::prelude::*;
use ruff_python_ast as ruff;
use ruff_python_parser::{parse_unchecked, Mode, ParseOptions};
use crate::ast::{
    PyCall, PyClassDef, PyDictItem, PyExpr, PyFunctionDef, PyKeyword, PyModule,
    PyStmt, UnaryOperator,
};
use crate::fixtures::{FixtureDef, body_fixtures, fixture_views, fixtures_in_module};
use crate::parametrize::{cut_ok, expr_cuttable};
use crate::parser::{
    TestItem, TestNames, body_cuttable, decorators_cuttable, file_id, item_views, module_items,
    parse_test_module,
};

verus! {

#[verifier::external_type_specification]
#[verifier::external_body]
pub struct ExRuffStmt(ruff::Stmt);

#[verifier::external_type_specification]
#[verifier::external_body]
pub struct ExRuffExpr(ruff::Expr);

#[verifier::external_type_specification]
#[verifier::external_body]
pub struct ExRuffExprCall(ruff::ExprCall);

#[verifier::external_type_specification]
#[verifier::external_body]
pub struct ExRuffNumber(ruff::Number);

#[verifier::external_type_specification]
#[verifier::external_body]
pub struct ExRuffStmtFunctionDef(ruff::StmtFunctionDef);

#[verifier::external_type_specification]
#[verifier::external_body]
pub struct ExRuffStmtClassDef(ruff::StmtClassDef);

#[verifier::external_type_specification]
#[verifier::external_body]
pub struct ExRuffDictItem(ruff::DictItem);

#[verifier::external_type_specification]
#[verifier::external_body]
pub struct ExRuffKeyword(ruff::Keyword);

#[verifier::external_type_specification]
#[verifier::external_body]
pub struct ExRuffUnaryOp(ruff::UnaryOp);

#[verifier::external_type_specification]
#[verifier::external_body]
pub struct ExRuffFStringPart(ruff::FStringPart);

/// What `ruff_python_parser::parse_unchecked` makes of `source` read as a
/// module, in the library's model of the syntax; `None` when the parser
/// gives something other than a module.
pub uninterp spec fn parsed_module(source: Seq<char>) -> Option<PyModule>;

/// Calls `ruff_python_parser::parse_unchecked` in module mode (recovering
/// from syntax errors as that parser does) and converts the module.
#[verifier::external_body]
pub fn parse_source(source: &str) -> (r: Option<PyModule>)
    ensures
        r == parsed_module(source@),
{
    match parse_unchecked(source, ParseOptions::from(Mode::Module)).into_syntax() {
        ruff::Mod::Module(m) => Some(PyModule { body: m.body.iter().map(stmt_of).collect() }),
        _ => None,
    }
}

/// Converts a statement: function and class definitions field by field,
/// any other statement to `Other`.
#[verifier::external_body]
fn stmt_of(s: &ruff::Stmt) -> PyStmt {
    match s {
        ruff::Stmt::FunctionDef(f) => PyStmt::FunctionDef(function_of(f)),
        ruff::Stmt::ClassDef(c) => PyStmt::ClassDef(class_of(c)),
        _ => PyStmt::Other,
    }
}

/// Converts a function definition: its name, decorators and the names of
/// its positional-or-keyword parameters.
#[verifier::external_body]
fn function_of(f: &ruff::StmtFunctionDef) -> PyFunctionDef {
    PyFunctionDef {
        name: f.name.to_string(),
        decorators: f.decorator_list.iter().map(|d| expr_of(&d.expression)).collect(),
        parameters: f.parameters.args.iter().map(|p| p.parameter.name.to_string()).collect(),
    }
}

/// Converts a class definition: its name, decorators and body.
#[verifier::external_body]
fn class_of(c: &ruff::StmtClassDef) -> PyClassDef {
    PyClassDef {
        name: c.name.to_string(),
        decorators: c.decorator_list.iter().map(|d| expr_of(&d.expression)).collect(),
        body: c.body.iter().map(stmt_of).collect(),
    }
}

/// Converts an expression, one variant to one variant; the kinds it does
/// not list go to `literal_of`.
#[verifier::external_body]
fn expr_of(e: &ruff::Expr) -> PyExpr {
    match e {
        ruff::Expr::Name(n) => PyExpr::Name(n.id.to_string()),
        ruff::Expr::Attribute(a) => PyExpr::Attribute(Box::new(expr_of(&a.value)), a.attr.to_string()),
        ruff::Expr::Call(c) => PyExpr::Call(Box::new(call_of(c))),
        ruff::Expr::UnaryOp(u) => PyExpr::UnaryOp(unary_of(u.op), Box::new(expr_of(&u.operand))),
        _ => literal_of(e),
    }
}

/// Converts literals; the kinds it does not list go to `collection_of`.
#[verifier::external_body]
fn literal_of(e: &ruff::Expr) -> PyExpr {
    match e {
        ruff::Expr::StringLiteral(s) => PyExpr::StringLiteral(s.value.to_str().to_string()),
        ruff::Expr::BytesLiteral(b) => PyExpr::BytesLiteral(b.value.bytes().collect()),
        ruff::Expr::NumberLiteral(n) => number_of(&n.value),
        ruff::Expr::BooleanLiteral(b) => PyExpr::BooleanLiteral(b.value),
        ruff::Expr::NoneLiteral(_) => PyExpr::NoneLiteral,
        ruff::Expr::FString(f) => PyExpr::FString(f.value.iter().map(fstring_part_of).collect()),
        _ => collection_of(e),
    }
}

/// Converts displays and lambdas; an expression of a kind the model does
/// not hold becomes `Other` with its full debug text.
#[verifier::external_body]
fn collection_of(e: &ruff::Expr) -> PyExpr {
    match e {
        ruff::Expr::Tuple(t) => PyExpr::Tuple(t.elts.iter().map(expr_of).collect()),
        ruff::Expr::List(l) => PyExpr::List(l.elts.iter().map(expr_of).collect()),
        ruff::Expr::Set(s) => PyExpr::SetDisplay(s.elts.iter().map(expr_of).collect()),
        ruff::Expr::Dict(d) => PyExpr::Dict(d.items.iter().map(dict_item_of).collect()),
        ruff::Expr::Lambda(_) => PyExpr::Lambda,
        _ => PyExpr::Other(format!("{e:?}")),
    }
}

/// Converts a dictionary entry; a `**mapping` entry has no key.
#[verifier::external_body]
fn dict_item_of(i: &ruff::DictItem) -> PyDictItem {
    PyDictItem { key: i.key.as_ref().map(expr_of), value: expr_of(&i.value) }
}

/// Converts a keyword argument; `**kwargs` has no name.
#[verifier::external_body]
fn keyword_of(k: &ruff::Keyword) -> PyKeyword {
    PyKeyword { arg: k.arg.as_ref().map(|a| a.to_string()), value: expr_of(&k.value) }
}

/// Converts a unary operator.
#[verifier::external_body]
fn unary_of(op: ruff::UnaryOp) -> UnaryOperator {
    match op {
        ruff::UnaryOp::USub => UnaryOperator::USub,
        ruff::UnaryOp::UAdd => UnaryOperator::UAdd,
        ruff::UnaryOp::Not => UnaryOperator::Not,
        ruff::UnaryOp::Invert => UnaryOperator::Invert,
    }
}

/// Converts a call: its callee, positional arguments and keywords.
#[verifier::external_body]
fn call_of(c: &ruff::ExprCall) -> PyCall {
    PyCall {
        func: expr_of(&c.func),
        args: c.arguments.args.iter().map(expr_of).collect(),
        keywords: c.arguments.keywords.iter().map(keyword_of).collect(),
    }
}

/// Converts a number literal to the text its value displays as.
#[verifier::external_body]
fn number_of(n: &ruff::Number) -> PyExpr {
    match n {
        ruff::Number::Int(i) => PyExpr::Int(format!("{i}")),
        ruff::Number::Float(f) => PyExpr::Float(format!("{f}")),
        ruff::Number::Complex { real: re, imag: im } => PyExpr::Complex(format!("{re}"), format!("{im}")),
    }
}

/// Converts one part of an f-string.
#[verifier::external_body]
fn fstring_part_of(p: &ruff::FStringPart) -> crate::ast::FStringPiece {
    match p {
        ruff::FStringPart::Literal(s) => crate::ast::FStringPiece::Literal(s.to_string()),
        ruff::FStringPart::FString(_) => crate::ast::FStringPiece::Formatted,
    }
}

// ---------------------------------------------------------------------------
// Tests and fixtures of a source text
// ---------------------------------------------------------------------------

fn text_cuttable(t: &String) -> (r: bool)
    ensures
        r == cut_ok(t@),
{
    let n = t.as_str().as_bytes().len();
    n <= 50 || t.as_str().is_char_boundary(47)
}

#[verifier::loop_isolation(false)]
fn expr_cuttable_exec(e: &PyExpr) -> (r: bool)
    ensures
        r == expr_cuttable(*e),
    decreases e,
{
    match e {
        PyExpr::Other(t) => text_cuttable(t),
        PyExpr::Attribute(v, _) => expr_cuttable_exec(v),
        PyExpr::UnaryOp(_, o) => expr_cuttable_exec(o),
        PyExpr::Call(c) => {
            if !expr_cuttable_exec(&c.func) {
                return false;
            }
            if !all_cuttable(&c.args) {
                return false;
            }
            let mut i: usize = 0;
            while i < c.keywords.len()
                invariant
                    i <= c.keywords@.len(),
                    forall|k: int| 0 <= k < i ==> expr_cuttable(#[trigger] c.keywords@[k].value),
                decreases c.keywords@.len() - i,
            {
                if !expr_cuttable_exec(&c.keywords[i].value) {
                    return false;
                }
                i += 1;
            }
            true
        },
        PyExpr::Tuple(es) => all_cuttable(es),
        PyExpr::List(es) => all_cuttable(es),
        PyExpr::SetDisplay(es) => all_cuttable(es),
        PyExpr::Dict(items) => {
            let mut i: usize = 0;
            while i < items.len()
                invariant
                    i <= items@.len(),
                    forall|k: int|
                        0 <= k < i ==> {
                            &&& (#[trigger] items@[k]).key matches Some(kk) ==> expr_cuttable(kk)
                            &&& expr_cuttable(items@[k].value)
                        },
                decreases items@.len() - i,
            {
                if let Some(k) = &items[i].key {
                    if !expr_cuttable_exec(k) {
                        return false;
                    }
                }
                if !expr_cuttable_exec(&items[i].value) {
                    return false;
                }
                i += 1;
            }
            true
        },
        _ => true,
    }
}

fn all_cuttable(es: &Vec<PyExpr>) -> (r: bool)
    ensures
        r == forall|i: int| 0 <= i < es@.len() ==> expr_cuttable(#[trigger] es@[i]),
    decreases es,
{
    let mut i: usize = 0;
    while i < es.len()
        invariant
            i <= es@.len(),
            forall|k: int| 0 <= k < i ==> expr_cuttable(#[trigger] es@[k]),
        decreases es@.len() - i,
    {
        if !expr_cuttable_exec(&es[i]) {
            return false;
        }
        i += 1;
    }
    true
}

fn body_cuttable_exec(body: &Vec<PyStmt>) -> (r: bool)
    ensures
        r == body_cuttable(body@),
    decreases body,
{
    let mut i: usize = 0;
    while i < body.len()
        invariant
            i <= body@.len(),
            forall|k: int|
                0 <= k < i ==> match #[trigger] body@[k] {
                    PyStmt::FunctionDef(f) => decorators_cuttable(f.decorators@),
                    PyStmt::ClassDef(c) => decorators_cuttable(c.decorators@) && body_cuttable(
                        c.body@,
                    ),
                    PyStmt::Other => true,
                },
        decreases body@.len() - i,
    {
        let ok = match &body[i] {
            PyStmt::FunctionDef(f) => all_cuttable(&f.decorators),
            PyStmt::ClassDef(c) => all_cuttable(&c.decorators) && body_cuttable_exec(&c.body),
            PyStmt::Other => true,
        };
        if !ok {
            return false;
        }
        i += 1;
    }
    true
}

/// The tests a Python source text defines, chosen by `names`, with node ids
/// rooted at the file's path `relative`: none when the text is not a
/// module.  `None` when an expression that ids show by its debug text has a
/// debug text whose cut after 47 bytes would fall inside a character.
pub fn parse_test_source(source: &str, relative: &str, names: &TestNames) -> (r: Option<
    Vec<TestItem>,
>)
    ensures
        match parsed_module(source@) {
            Some(m) => if body_cuttable(m.body@) {
                r matches Some(items) && item_views(items@) == module_items(
                    m.body@,
                    file_id(relative@),
                    names@,
                )
            } else {
                r is None
            },
            None => r matches Some(items) && items@.len() == 0,
        },
{
    match parse_source(source) {
        Some(module) => {
            if body_cuttable_exec(&module.body) {
                Some(parse_test_module(&module, relative, names))
            } else {
                None
            }
        },
        None => Some(Vec::new()),
    }
}

/// The fixtures a conftest source text defines at top level; none when the
/// text is not a module.
pub fn fixtures_of_source(source: &str, file: &str) -> (r: Vec<FixtureDef>)
    ensures
        match parsed_module(source@) {
            Some(m) => fixture_views(r@) == body_fixtures(m.body@, file@),
            None => r@.len() == 0,
        },
{
    match parse_source(source) {
        Some(module) => fixtures_in_module(&module, file),
        None => Vec::new(),
    }
}

} // verus!
