//! Fixture definitions (`@pytest.fixture`) found in conftest modules.
use vstd::prelude::*;
use crate::ast::{PyExpr, PyFunctionDef, PyModule, PyStmt};
use crate::parametrize::{is_keyword_named, keyword_named};
use crate::text::{lit, str_eq, strs};

verus! {

#[derive(Debug, Clone, Copy, PartialEq, Eq, Structural)]
pub enum FixtureScope {
    Function,
    Class,
    Module,
    Package,
    Session,
}

#[derive(Debug)]
pub struct FixtureDef {
    pub name: String,
    pub scope: FixtureScope,
    pub params: bool,
    pub autouse: bool,
    pub file: String,
}

pub struct FixtureView {
    pub name: Seq<char>,
    pub scope: FixtureScope,
    pub params: bool,
    pub autouse: bool,
    pub file: Seq<char>,
}

impl View for FixtureDef {
    type V = FixtureView;

    open spec fn view(&self) -> FixtureView {
        FixtureView {
            name: self.name@,
            scope: self.scope,
            params: self.params,
            autouse: self.autouse,
            file: self.file@,
        }
    }
}

pub open spec fn fixture_views(v: Seq<FixtureDef>) -> Seq<FixtureView> {
    v.map_values(|f: FixtureDef| f@)
}

impl Clone for FixtureDef {
    fn clone(&self) -> (r: Self)
        ensures
            r@ == self@,
    {
        FixtureDef {
            name: self.name.clone(),
            scope: self.scope,
            params: self.params,
            autouse: self.autouse,
            file: self.file.clone(),
        }
    }
}

/// `@pytest.fixture`, `@fixture`, and either of them called.
pub open spec fn is_fixture_expr(e: PyExpr) -> bool
    decreases e,
{
    match e {
        PyExpr::Attribute(value, attr) => match *value {
            PyExpr::Name(n) => n@ == "pytest"@ && attr@ == "fixture"@,
            _ => false,
        },
        PyExpr::Call(c) => is_fixture_expr(c.func),
        PyExpr::Name(n) => n@ == "fixture"@,
        _ => false,
    }
}

/// The scope a `scope="..."` string names; anything unknown is `Function`.
pub open spec fn scope_named(s: Seq<char>) -> FixtureScope {
    if s == "class"@ {
        FixtureScope::Class
    } else if s == "module"@ {
        FixtureScope::Module
    } else if s == "package"@ {
        FixtureScope::Package
    } else if s == "session"@ {
        FixtureScope::Session
    } else {
        FixtureScope::Function
    }
}

/// Scope and autouse after reading keywords `kws[..n]`; a later keyword
/// overrides an earlier one, and non-literal values are ignored.
pub open spec fn fixture_args_upto(kws: Seq<crate::ast::PyKeyword>, n: int) -> (FixtureScope, bool)
    decreases n,
{
    if n <= 0 {
        (FixtureScope::Function, false)
    } else {
        let (scope, autouse) = fixture_args_upto(kws, n - 1);
        let kw = kws[n - 1];
        if is_keyword_named(kw, "scope"@) && kw.value is StringLiteral {
            (scope_named(kw.value->StringLiteral_0@), autouse)
        } else if is_keyword_named(kw, "autouse"@) && kw.value is BooleanLiteral {
            (scope, kw.value->BooleanLiteral_0)
        } else {
            (scope, autouse)
        }
    }
}

/// Scope and autouse a fixture decorator declares.
pub open spec fn fixture_args(e: PyExpr) -> (FixtureScope, bool) {
    match e {
        PyExpr::Call(c) => fixture_args_upto(c.keywords@, c.keywords@.len() as int),
        _ => (FixtureScope::Function, false),
    }
}

/// Whether a fixture decorator is called with a `params=` keyword.
pub open spec fn declares_params(e: PyExpr) -> bool {
    match e {
        PyExpr::Call(c) => exists|k: int|
            0 <= k < c.keywords@.len() && is_keyword_named(#[trigger] c.keywords@[k], "params"@),
        _ => false,
    }
}

/// The first fixture decorator of `decs[i..]`.
pub open spec fn first_fixture_decorator(decs: Seq<PyExpr>, i: int) -> Option<PyExpr>
    decreases decs.len() - i,
{
    if i < 0 || i >= decs.len() {
        None
    } else if is_fixture_expr(decs[i]) {
        Some(decs[i])
    } else {
        first_fixture_decorator(decs, i + 1)
    }
}

/// The fixture a function definition declares, if any.
pub open spec fn fixture_of(f: PyFunctionDef, file: Seq<char>) -> Option<FixtureView> {
    match first_fixture_decorator(f.decorators@, 0) {
        Some(d) => Some(
            FixtureView {
                name: f.name@,
                scope: fixture_args(d).0,
                params: declares_params(d),
                autouse: fixture_args(d).1,
                file,
            },
        ),
        None => None,
    }
}

/// The fixtures a module body declares at top level, in order.
pub open spec fn body_fixtures(body: Seq<PyStmt>, file: Seq<char>) -> Seq<FixtureView>
    decreases body.len(),
{
    if body.len() == 0 {
        Seq::empty()
    } else {
        let rest = body_fixtures(body.drop_last(), file);
        match body.last() {
            PyStmt::FunctionDef(f) => match fixture_of(f, file) {
                Some(fx) => rest.push(fx),
                None => rest,
            },
            _ => rest,
        }
    }
}

fn is_fixture_decorator(expr: &PyExpr) -> (r: bool)
    ensures
        r == is_fixture_expr(*expr),
    decreases expr,
{
    match expr {
        PyExpr::Attribute(value, attr) => {
            if let PyExpr::Name(name) = &**value {
                str_eq(name.as_str(), "pytest") && str_eq(attr.as_str(), "fixture")
            } else {
                false
            }
        },
        PyExpr::Call(call) => is_fixture_decorator(&call.func),
        PyExpr::Name(name) => str_eq(name.as_str(), "fixture"),
        _ => false,
    }
}

fn scope_from(s: &String) -> (r: FixtureScope)
    ensures
        r == scope_named(s@),
{
    if str_eq(s.as_str(), "class") {
        FixtureScope::Class
    } else if str_eq(s.as_str(), "module") {
        FixtureScope::Module
    } else if str_eq(s.as_str(), "package") {
        FixtureScope::Package
    } else if str_eq(s.as_str(), "session") {
        FixtureScope::Session
    } else {
        FixtureScope::Function
    }
}

fn extract_fixture_args(expr: &PyExpr) -> (r: (FixtureScope, bool))
    ensures
        r == fixture_args(*expr),
{
    let mut scope = FixtureScope::Function;
    let mut autouse = false;
    if let PyExpr::Call(call) = expr {
        let kws = &call.keywords;
        let mut i: usize = 0;
        while i < kws.len()
            invariant
                i <= kws@.len(),
                kws@ == call.keywords@,
                (scope, autouse) == fixture_args_upto(kws@, i as int),
            decreases kws@.len() - i,
        {
            let kw = &kws[i];
            let ghost before = fixture_args_upto(kws@, i as int);
            proof {
                reveal_strlit("scope");
                reveal_strlit("autouse");
                assert("scope"@.len() == 5);
                assert("autouse"@.len() == 7);
            }
            assert(fixture_args_upto(kws@, i + 1) == {
                let k = kws@[i as int];
                if is_keyword_named(k, "scope"@) && k.value is StringLiteral {
                    (scope_named(k.value->StringLiteral_0@), before.1)
                } else if is_keyword_named(k, "autouse"@) && k.value is BooleanLiteral {
                    (before.0, k.value->BooleanLiteral_0)
                } else {
                    before
                }
            });
            if let Some(arg) = &kw.arg {
                if str_eq(arg.as_str(), "scope") {
                    if let PyExpr::StringLiteral(s) = &kw.value {
                        scope = scope_from(s);
                    }
                } else if str_eq(arg.as_str(), "autouse") {
                    if let PyExpr::BooleanLiteral(b) = &kw.value {
                        autouse = *b;
                    }
                }
            }
            i += 1;
        }
    }
    (scope, autouse)
}

#[verifier::loop_isolation(false)]
fn has_params_keyword(expr: &PyExpr) -> (r: bool)
    ensures
        r == declares_params(*expr),
{
    if let PyExpr::Call(call) = expr {
        let kws = &call.keywords;
        let mut i: usize = 0;
        while i < kws.len()
            invariant
                i <= kws@.len(),
                kws@ == call.keywords@,
                forall|k: int| 0 <= k < i ==> !is_keyword_named(#[trigger] kws@[k], "params"@),
            decreases kws@.len() - i,
        {
            if keyword_named(&kws[i], "params") {
                assert(is_keyword_named(call.keywords@[i as int], "params"@));
                return true;
            }
            i += 1;
        }
        false
    } else {
        false
    }
}

fn parse_fixture_def(func: &PyFunctionDef, file: &str) -> (r: Option<FixtureDef>)
    ensures
        match r {
            Some(f) => fixture_of(*func, file@) == Some(f@),
            None => fixture_of(*func, file@) is None,
        },
{
    let decs = &func.decorators;
    let mut i: usize = 0;
    while i < decs.len()
        invariant
            i <= decs@.len(),
            decs@ == func.decorators@,
            first_fixture_decorator(decs@, 0) == first_fixture_decorator(decs@, i as int),
        decreases decs@.len() - i,
    {
        if is_fixture_decorator(&decs[i]) {
            let (scope, autouse) = extract_fixture_args(&decs[i]);
            let params = has_params_keyword(&decs[i]);
            return Some(
                FixtureDef {
                    name: func.name.clone(),
                    scope,
                    params,
                    autouse,
                    file: lit(file),
                },
            );
        }
        i += 1;
    }
    None
}

/// Appends the fixtures that the top-level functions of `body` declare.
fn extract_fixtures_from_body(body: &Vec<PyStmt>, file: &str, fixtures: &mut Vec<FixtureDef>)
    ensures
        fixture_views(final(fixtures)@) == fixture_views(old(fixtures)@) + body_fixtures(
            body@,
            file@,
        ),
{
    let ghost start = fixture_views(fixtures@);
    let mut i: usize = 0;
    while i < body.len()
        invariant
            i <= body@.len(),
            fixture_views(fixtures@) == start + body_fixtures(body@.take(i as int), file@),
        decreases body@.len() - i,
    {
        let ghost prev = fixture_views(fixtures@);
        if let PyStmt::FunctionDef(func) = &body[i] {
            if let Some(fixture) = parse_fixture_def(func, file) {
                fixtures.push(fixture);
                assert(fixture_views(fixtures@) =~= prev.push(fixture@));
            }
        }
        i += 1;
        assert(body@.take(i as int).drop_last() =~= body@.take(i - 1));
    }
    assert(body@.take(body@.len() as int) =~= body@);
}

/// The fixtures a parsed conftest module declares, each recorded with the
/// module's path `file`.
pub fn fixtures_in_module(module: &PyModule, file: &str) -> (r: Vec<FixtureDef>)
    ensures
        fixture_views(r@) == body_fixtures(module.body@, file@),
{
    let mut fixtures: Vec<FixtureDef> = Vec::new();
    extract_fixtures_from_body(&module.body, file, &mut fixtures);
    assert(fixture_views(fixtures@) =~= body_fixtures(module.body@, file@));
    fixtures
}

/// The parameters a fixture or test function requests: all
/// positional-or-keyword parameters except `self` and `cls`.
pub fn extract_fixture_dependencies(func: &PyFunctionDef) -> (r: Vec<String>)
    ensures
        strs(r@) == strs(func.parameters@).filter(
            |n: Seq<char>| n != "self"@ && n != "cls"@,
        ),
{
    let ps = &func.parameters;
    let ghost keep = |n: Seq<char>| n != "self"@ && n != "cls"@;
    let mut r: Vec<String> = Vec::new();
    let mut i: usize = 0;
    while i < ps.len()
        invariant
            i <= ps@.len(),
            ps@ == func.parameters@,
            keep == (|n: Seq<char>| n != "self"@ && n != "cls"@),
            strs(r@) == strs(ps@.take(i as int)).filter(keep),
        decreases ps@.len() - i,
    {
        let ghost prev = strs(r@);
        let name = &ps[i];
        proof {
            assert(strs(ps@.take(i + 1)) =~= strs(ps@.take(i as int)).push(name@));
            strs(ps@.take(i as int)).lemma_filter_push(name@, keep);
        }
        if !str_eq(name.as_str(), "self") && !str_eq(name.as_str(), "cls") {
            r.push(name.clone());
            assert(strs(r@) =~= prev.push(name@));
        }
        i += 1;
    }
    assert(ps@.take(ps@.len() as int) =~= ps@);
    r
}

} // verus!
