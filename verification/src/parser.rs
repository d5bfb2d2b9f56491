//! Test items found in a parsed test module.
use vstd::prelude::*;
use crate::markers::{Marker, MarkerView, marker_views, copy_markers};
use crate::ast::{PyClassDef, PyExpr, PyFunctionDef, PyModule, PyStmt};
use crate::parametrize::{
    ParametrizeArgs, ParamView, attr_chain, param_views, copy_params, parametrize_of,
    parse_parametrize_call, resolve_attr_chain, expr_cuttable,
};
use crate::text::{
    chars_of, contains, contains_exec, join, join_strings_from, lit, push_str, starts_with,
    starts_with_exec, str_eq, strs,
};
use crate::config::PytestConfig;
use crate::discovery::{build_globset, globs_compile, matches_any, set_is_match, set_patterns, valid_fn};
use globset::GlobSet;

verus! {

#[derive(Debug)]
pub struct TestItem {
    pub node_id: String,
    pub markers: Vec<Marker>,
    pub parametrize: Vec<ParametrizeArgs>,
    pub is_method: bool,
    pub class_name: Option<String>,
    pub function_name: String,
}

pub struct TestItemView {
    pub node_id: Seq<char>,
    pub markers: Seq<MarkerView>,
    pub parametrize: Seq<ParamView>,
    pub is_method: bool,
    pub class_name: Option<Seq<char>>,
    pub function_name: Seq<char>,
}

pub open spec fn opt_str_view(o: Option<String>) -> Option<Seq<char>> {
    match o {
        Some(s) => Some(s@),
        None => None,
    }
}

impl View for TestItem {
    type V = TestItemView;

    open spec fn view(&self) -> TestItemView {
        TestItemView {
            node_id: self.node_id@,
            markers: marker_views(self.markers@),
            parametrize: param_views(self.parametrize@),
            is_method: self.is_method,
            class_name: opt_str_view(self.class_name),
            function_name: self.function_name@,
        }
    }
}

/// The views of a sequence of test items.
pub open spec fn item_views(v: Seq<TestItem>) -> Seq<TestItemView> {
    v.map_values(|t: TestItem| t@)
}

pub fn copy_opt_string(o: &Option<String>) -> (r: Option<String>)
    ensures
        opt_str_view(r) == opt_str_view(*o),
{
    match o {
        Some(s) => Some(s.clone()),
        None => None,
    }
}

impl Clone for TestItem {
    fn clone(&self) -> (r: Self)
        ensures
            r@ == self@,
    {
        TestItem {
            node_id: self.node_id.clone(),
            markers: copy_markers(&self.markers),
            parametrize: copy_params(&self.parametrize),
            is_method: self.is_method,
            class_name: copy_opt_string(&self.class_name),
            function_name: self.function_name.clone(),
        }
    }
}


// ---------------------------------------------------------------------------
// Which definitions are tests
// ---------------------------------------------------------------------------

/// One list of name patterns: the patterns as written, and the glob set
/// built from them.
pub struct NameRules {
    pub prefixes: Seq<Seq<char>>,
    pub globs: Seq<Seq<char>>,
}

/// Whether `name` is chosen by `rules`, as pytest chooses names: it starts
/// with one of the patterns, or one of them matches it as a glob.
pub open spec fn name_chosen(rules: NameRules, name: Seq<char>) -> bool {
    ||| exists|i: int| 0 <= i < rules.prefixes.len() && starts_with(name, #[trigger] rules.prefixes[i])
    ||| matches_any(rules.globs, name)
}

/// The patterns that choose test functions (`python_functions`) and test
/// classes (`python_classes`).
pub struct TestNames {
    pub functions: Vec<String>,
    pub function_globs: GlobSet,
    pub classes: Vec<String>,
    pub class_globs: GlobSet,
}

pub struct TestNamesView {
    pub functions: NameRules,
    pub classes: NameRules,
}

impl View for TestNames {
    type V = TestNamesView;

    open spec fn view(&self) -> TestNamesView {
        TestNamesView {
            functions: NameRules { prefixes: strs(self.functions@), globs: set_patterns(self.function_globs) },
            classes: NameRules { prefixes: strs(self.classes@), globs: set_patterns(self.class_globs) },
        }
    }
}

/// The glob set `build_globset` makes of `patterns`.
pub open spec fn built_globs(patterns: Seq<Seq<char>>) -> Seq<Seq<char>> {
    if globs_compile(patterns.filter(valid_fn())) {
        patterns.filter(valid_fn())
    } else {
        Seq::empty()
    }
}

impl TestNames {
    /// The test-name patterns of a configuration.
    pub fn from_config(config: &PytestConfig) -> (r: Self)
        ensures
            r@.functions.prefixes == strs(config.python_functions@),
            r@.functions.globs == built_globs(strs(config.python_functions@)),
            r@.classes.prefixes == strs(config.python_classes@),
            r@.classes.globs == built_globs(strs(config.python_classes@)),
    {
        let functions = crate::text::copy_strings(&config.python_functions);
        let classes = crate::text::copy_strings(&config.python_classes);
        let function_globs = build_globset(config.python_functions.as_slice());
        let class_globs = build_globset(config.python_classes.as_slice());
        TestNames { functions, function_globs, classes, class_globs }
    }
}

pub open spec fn is_test_function_name(name: Seq<char>, names: TestNamesView) -> bool {
    name_chosen(names.functions, name)
}

/// Classes whose names contain `Mixin` are never collected.
pub open spec fn is_test_class_name(name: Seq<char>, names: TestNamesView) -> bool {
    name_chosen(names.classes, name) && !contains(name, "Mixin"@)
}

fn chosen(name: &str, prefixes: &Vec<String>, globs: &GlobSet) -> (r: bool)
    ensures
        r == name_chosen(
            NameRules { prefixes: strs(prefixes@), globs: set_patterns(*globs) },
            name@,
        ),
{
    let v = chars_of(name);
    let mut i: usize = 0;
    while i < prefixes.len()
        invariant
            i <= prefixes@.len(),
            v@ == name@,
            forall|k: int| 0 <= k < i ==> !starts_with(name@, #[trigger] strs(prefixes@)[k]),
        decreases prefixes@.len() - i,
    {
        let p = chars_of(prefixes[i].as_str());
        assert(strs(prefixes@)[i as int] == prefixes@[i as int]@);
        if starts_with_exec(&v, &p) {
            let ghost rules = NameRules { prefixes: strs(prefixes@), globs: set_patterns(*globs) };
            assert(starts_with(name@, rules.prefixes[i as int]));
            return true;
        }
        i += 1;
    }
    set_is_match(globs, name)
}

fn is_test_function(name: &str, names: &TestNames) -> (r: bool)
    ensures
        r == is_test_function_name(name@, names@),
{
    chosen(name, &names.functions, &names.function_globs)
}

fn is_test_class(name: &str, names: &TestNames) -> (r: bool)
    ensures
        r == is_test_class_name(name@, names@),
{
    let v = chars_of(name);
    let m = chars_of("Mixin");
    chosen(name, &names.classes, &names.class_globs) && !contains_exec(&v, &m)
}

// ---------------------------------------------------------------------------
// Markers and parametrize decorators
// ---------------------------------------------------------------------------

/// The marker name a dotted decorator name spells: `pytest.mark.a.b` and
/// `mark.a.b` both give `a.b`.
pub open spec fn marker_name(chain: Seq<Seq<char>>) -> Option<Seq<char>> {
    if chain.len() >= 3 && chain[0] == "pytest"@ && chain[1] == "mark"@ {
        Some(join(chain.skip(2), "."@))
    } else if chain.len() >= 2 && chain[0] == "mark"@ {
        Some(join(chain.skip(1), "."@))
    } else {
        None
    }
}

/// The marker a decorator applies, written bare or called.
pub open spec fn marker_of(e: PyExpr) -> Option<MarkerView> {
    let name = match e {
        PyExpr::Attribute(_, _) => marker_name(attr_chain(e)),
        PyExpr::Call(c) => marker_name(attr_chain(c.func)),
        _ => None,
    };
    match name {
        Some(n) => Some(MarkerView { name: n, args: Seq::empty() }),
        None => None,
    }
}

/// The markers a decorator list applies, in order.
pub open spec fn markers_of(decs: Seq<PyExpr>) -> Seq<MarkerView>
    decreases decs.len(),
{
    if decs.len() == 0 {
        Seq::empty()
    } else {
        let rest = markers_of(decs.drop_last());
        match marker_of(decs.last()) {
            Some(m) => rest.push(m),
            None => rest,
        }
    }
}

pub open spec fn is_parametrize_chain(chain: Seq<Seq<char>>) -> bool {
    chain.len() >= 3 && chain[0] == "pytest"@ && chain[1] == "mark"@ && chain[2]
        == "parametrize"@
}

/// The readable `@pytest.mark.parametrize(...)` calls of a decorator list.
pub open spec fn parametrizes_of(decs: Seq<PyExpr>) -> Seq<ParamView>
    decreases decs.len(),
{
    if decs.len() == 0 {
        Seq::empty()
    } else {
        let rest = parametrizes_of(decs.drop_last());
        match decs.last() {
            PyExpr::Call(c) => if is_parametrize_chain(attr_chain(c.func)) && parametrize_of(
                *c,
            ) is Some {
                rest.push(parametrize_of(*c)->0)
            } else {
                rest
            },
            _ => rest,
        }
    }
}

fn marker_from_chain(chain: &Vec<String>) -> (r: Option<Marker>)
    ensures
        match r {
            Some(m) => marker_name(strs(chain@)) == Some(m@.name) && m@.args == Seq::<
                Seq<char>,
            >::empty(),
            None => marker_name(strs(chain@)) is None,
        },
{
    let n = chain.len();
    let ghost c = strs(chain@);
    if n >= 3 && str_eq(chain[0].as_str(), "pytest") && str_eq(chain[1].as_str(), "mark") {
        let name = join_strings_from(chain, 2, ".");
        let m = Marker { name, args: Vec::new() };
        assert(strs(m.args@) =~= Seq::<Seq<char>>::empty());
        return Some(m);
    }
    if n >= 2 && str_eq(chain[0].as_str(), "mark") {
        let name = join_strings_from(chain, 1, ".");
        let m = Marker { name, args: Vec::new() };
        assert(strs(m.args@) =~= Seq::<Seq<char>>::empty());
        return Some(m);
    }
    None
}

fn parse_marker_decorator(expr: &PyExpr) -> (r: Option<Marker>)
    ensures
        match r {
            Some(m) => marker_of(*expr) == Some(m@),
            None => marker_of(*expr) is None,
        },
{
    match expr {
        PyExpr::Attribute(_, _) => {
            let chain = resolve_attr_chain(expr);
            marker_from_chain(&chain)
        },
        PyExpr::Call(call) => {
            let chain = resolve_attr_chain(&call.func);
            marker_from_chain(&chain)
        },
        _ => None,
    }
}

fn extract_markers(decorators: &Vec<PyExpr>) -> (r: Vec<Marker>)
    ensures
        marker_views(r@) == markers_of(decorators@),
{
    let mut markers: Vec<Marker> = Vec::new();
    let mut i: usize = 0;
    while i < decorators.len()
        invariant
            i <= decorators@.len(),
            marker_views(markers@) == markers_of(decorators@.take(i as int)),
        decreases decorators@.len() - i,
    {
        let ghost prev = markers@;
        if let Some(m) = parse_marker_decorator(&decorators[i]) {
            markers.push(m);
            assert(marker_views(markers@) =~= marker_views(prev).push(m@));
        }
        i += 1;
        assert(decorators@.take(i as int).drop_last() =~= decorators@.take(i - 1));
    }
    assert(decorators@.take(decorators@.len() as int) =~= decorators@);
    markers
}

/// Every debug text in the decorators can be shortened.
pub open spec fn decorators_cuttable(decs: Seq<PyExpr>) -> bool {
    forall|i: int| 0 <= i < decs.len() ==> expr_cuttable(#[trigger] decs[i])
}

/// Every debug text in the decorators of the definitions of `body`, nested
/// classes included, can be shortened.
pub open spec fn body_cuttable(body: Seq<PyStmt>) -> bool
    decreases body,
{
    forall|i: int|
        0 <= i < body.len() ==> match #[trigger] body[i] {
            PyStmt::FunctionDef(f) => decorators_cuttable(f.decorators@),
            PyStmt::ClassDef(c) => decorators_cuttable(c.decorators@) && body_cuttable(c.body@),
            PyStmt::Other => true,
        }
}

/// The readable `@pytest.mark.parametrize(...)` calls of a decorator list,
/// in order.
pub fn extract_parametrize(decorators: &Vec<PyExpr>) -> (r: Vec<ParametrizeArgs>)
    requires
        decorators_cuttable(decorators@),
    ensures
        param_views(r@) == parametrizes_of(decorators@),
{
    let mut params: Vec<ParametrizeArgs> = Vec::new();
    let mut i: usize = 0;
    while i < decorators.len()
        invariant
            i <= decorators@.len(),
            param_views(params@) == parametrizes_of(decorators@.take(i as int)),
            decorators_cuttable(decorators@),
        decreases decorators@.len() - i,
    {
        let ghost prev = params@;
        if let PyExpr::Call(call) = &decorators[i] {
            let chain = resolve_attr_chain(&call.func);
            let n = chain.len();
            if n >= 3 && str_eq(chain[0].as_str(), "pytest") && str_eq(chain[1].as_str(), "mark")
                && str_eq(chain[2].as_str(), "parametrize") {
                assert(expr_cuttable(decorators@[i as int]));
                if let Some(p) = parse_parametrize_call(call) {
                    params.push(p);
                    assert(param_views(params@) =~= param_views(prev).push(p@));
                }
            }
        }
        i += 1;
        assert(decorators@.take(i as int).drop_last() =~= decorators@.take(i - 1));
    }
    assert(decorators@.take(decorators@.len() as int) =~= decorators@);
    params
}


// ---------------------------------------------------------------------------
// The test items of a module
// ---------------------------------------------------------------------------

/// A file path as it appears in node ids: backslashes become slashes.
pub open spec fn file_id(relative: Seq<char>) -> Seq<char> {
    relative.map_values(|c: char| if c == '\\' { '/' } else { c })
}

/// The item of a module-level test function.
pub open spec fn function_item(f: PyFunctionDef, file: Seq<char>) -> TestItemView {
    TestItemView {
        node_id: file + "::"@ + f.name@,
        markers: markers_of(f.decorators@),
        parametrize: parametrizes_of(f.decorators@),
        is_method: false,
        class_name: None,
        function_name: f.name@,
    }
}

/// `::Outer::Inner` for the enclosing classes, outermost first.
pub open spec fn class_path(classes: Seq<PyClassDef>) -> Seq<char>
    decreases classes.len(),
{
    if classes.len() == 0 {
        Seq::empty()
    } else {
        class_path(classes.drop_last()) + "::"@ + classes.last().name@
    }
}

/// The markers of the enclosing classes, outermost first.
pub open spec fn class_markers(classes: Seq<PyClassDef>) -> Seq<MarkerView>
    decreases classes.len(),
{
    if classes.len() == 0 {
        Seq::empty()
    } else {
        class_markers(classes.drop_last()) + markers_of(classes.last().decorators@)
    }
}

/// The parametrize decorators of the enclosing classes, outermost first.
pub open spec fn class_params(classes: Seq<PyClassDef>) -> Seq<ParamView>
    decreases classes.len(),
{
    if classes.len() == 0 {
        Seq::empty()
    } else {
        class_params(classes.drop_last()) + parametrizes_of(classes.last().decorators@)
    }
}

/// The item of a test method of the innermost of `classes`: the classes'
/// markers and parametrize decorators, outermost first, come before the
/// method's own.
pub open spec fn method_item(classes: Seq<PyClassDef>, m: PyFunctionDef, file: Seq<char>) -> TestItemView {
    TestItemView {
        node_id: file + class_path(classes) + "::"@ + m.name@,
        markers: class_markers(classes) + markers_of(m.decorators@),
        parametrize: class_params(classes) + parametrizes_of(m.decorators@),
        is_method: true,
        class_name: Some(classes.last().name@),
        function_name: m.name@,
    }
}

/// The test methods among the statements `body` of the innermost of
/// `classes`, and those of the test classes nested in it.
pub open spec fn class_items(
    classes: Seq<PyClassDef>,
    body: Seq<PyStmt>,
    file: Seq<char>,
    names: TestNamesView,
) -> Seq<TestItemView>
    decreases body,
{
    if body.len() == 0 {
        Seq::empty()
    } else {
        proof {
            assert(decreases_to!(body => body[body.len() - 1]));
        }
        class_items(classes, body.drop_last(), file, names) + match body[body.len() - 1] {
            PyStmt::FunctionDef(m) => if is_test_function_name(m.name@, names) {
                seq![method_item(classes, m, file)]
            } else {
                Seq::empty()
            },
            PyStmt::ClassDef(c) => if is_test_class_name(c.name@, names) {
                class_items(classes.push(c), c.body@, file, names)
            } else {
                Seq::empty()
            },
            PyStmt::Other => Seq::empty(),
        }
    }
}

/// The tests one module-level statement defines.
pub open spec fn stmt_items(stmt: PyStmt, file: Seq<char>, names: TestNamesView) -> Seq<
    TestItemView,
> {
    match stmt {
        PyStmt::FunctionDef(f) => if is_test_function_name(f.name@, names) {
            seq![function_item(f, file)]
        } else {
            Seq::empty()
        },
        PyStmt::ClassDef(c) => if is_test_class_name(c.name@, names) {
            class_items(seq![c], c.body@, file, names)
        } else {
            Seq::empty()
        },
        PyStmt::Other => Seq::empty(),
    }
}

/// The tests a module body defines, in source order.
pub open spec fn module_items(body: Seq<PyStmt>, file: Seq<char>, names: TestNamesView) -> Seq<
    TestItemView,
>
    decreases body.len(),
{
    if body.len() == 0 {
        Seq::empty()
    } else {
        module_items(body.drop_last(), file, names) + stmt_items(body.last(), file, names)
    }
}

fn file_id_exec(relative: &str) -> (r: String)
    ensures
        r@ == file_id(relative@),
{
    let v = chars_of(relative);
    let mut s = String::new();
    let mut i: usize = 0;
    while i < v.len()
        invariant
            i <= v@.len(),
            s@ == file_id(v@.take(i as int)),
        decreases v@.len() - i,
    {
        let c = v[i];
        s.push(if c == '\\' { '/' } else { c });
        i += 1;
        assert(file_id(v@.take(i as int)) =~= file_id(v@.take(i - 1)).push(
            if c == '\\' { '/' } else { c },
        ));
    }
    assert(v@.take(v@.len() as int) =~= v@);
    s
}

fn function_test_item(func: &PyFunctionDef, file: &String) -> (r: TestItem)
    requires
        decorators_cuttable(func.decorators@),
    ensures
        r@ == function_item(*func, file@),
{
    let mut node_id = file.clone();
    push_str(&mut node_id, "::");
    push_str(&mut node_id, func.name.as_str());
    TestItem {
        node_id,
        markers: extract_markers(&func.decorators),
        parametrize: extract_parametrize(&func.decorators),
        is_method: false,
        class_name: None,
        function_name: func.name.clone(),
    }
}

/// Appends the items of the test methods in the body of `class` (the
/// innermost of `classes`) and of the test classes nested in it.
/// `prefix`, `markers` and `params` are the node-id prefix, markers and
/// parametrize decorators the enclosing classes give.
fn class_test_items(
    class: &PyClassDef,
    prefix: &String,
    markers: &Vec<Marker>,
    params: &Vec<ParametrizeArgs>,
    names: &TestNames,
    items: &mut Vec<TestItem>,
    Ghost(classes): Ghost<Seq<PyClassDef>>,
    Ghost(file): Ghost<Seq<char>>,
)
    requires
        classes.len() > 0,
        classes.last() == *class,
        prefix@ == file + class_path(classes),
        marker_views(markers@) == class_markers(classes),
        param_views(params@) == class_params(classes),
        body_cuttable(class.body@),
    ensures
        item_views(final(items)@) == item_views(old(items)@) + class_items(
            classes,
            class.body@,
            file,
            names@,
        ),
    decreases class.body@,
{
    let body = &class.body;
    let mut j: usize = 0;
    while j < body.len()
        invariant
            j <= body@.len(),
            body@ == class.body@,
            classes.len() > 0,
            classes.last() == *class,
            prefix@ == file + class_path(classes),
            marker_views(markers@) == class_markers(classes),
            param_views(params@) == class_params(classes),
            body_cuttable(class.body@),
            item_views(items@) == item_views(old(items)@) + class_items(
                classes,
                body@.take(j as int),
                file,
                names@,
            ),
        decreases body@.len() - j,
    {
        let ghost prev = item_views(items@);
        assert(body@.take(j + 1).drop_last() =~= body@.take(j as int));
        assert(body@.take(j + 1)[j as int] == body@[j as int]);
        match &body[j] {
            PyStmt::FunctionDef(method) => {
                if is_test_function(method.name.as_str(), names) {
                    let mut node_id = prefix.clone();
                    push_str(&mut node_id, "::");
                    push_str(&mut node_id, method.name.as_str());
                    let mut ms = copy_markers(markers);
                    let mut own = extract_markers(&method.decorators);
                    let ghost m1 = ms@;
                    let ghost m2 = own@;
                    ms.append(&mut own);
                    assert(marker_views(ms@) =~= marker_views(m1) + marker_views(m2));
                    let mut ps = copy_params(params);
                    let mut own_ps = extract_parametrize(&method.decorators);
                    let ghost p1 = ps@;
                    let ghost p2 = own_ps@;
                    ps.append(&mut own_ps);
                    assert(param_views(ps@) =~= param_views(p1) + param_views(p2));
                    let item = TestItem {
                        node_id,
                        markers: ms,
                        parametrize: ps,
                        is_method: true,
                        class_name: Some(class.name.clone()),
                        function_name: method.name.clone(),
                    };
                    proof {
                        assert(item@.node_id =~= method_item(classes, *method, file).node_id);
                    }
                    items.push(item);
                    assert(item_views(items@) =~= prev + seq![method_item(classes, *method, file)]);
                } else {
                    assert(item_views(items@) =~= prev + Seq::<TestItemView>::empty());
                }
            },
            PyStmt::ClassDef(inner) => {
                if is_test_class(inner.name.as_str(), names) {
                    let ghost inner_classes = classes.push(*inner);
                    let mut inner_prefix = prefix.clone();
                    push_str(&mut inner_prefix, "::");
                    push_str(&mut inner_prefix, inner.name.as_str());
                    let mut ms = copy_markers(markers);
                    let mut own = extract_markers(&inner.decorators);
                    let ghost m1 = ms@;
                    let ghost m2 = own@;
                    ms.append(&mut own);
                    assert(marker_views(ms@) =~= marker_views(m1) + marker_views(m2));
                    let mut ps = copy_params(params);
                    let mut own_ps = extract_parametrize(&inner.decorators);
                    let ghost p1 = ps@;
                    let ghost p2 = own_ps@;
                    ps.append(&mut own_ps);
                    assert(param_views(ps@) =~= param_views(p1) + param_views(p2));
                    proof {
                        assert(inner_classes.drop_last() =~= classes);
                        assert(inner_prefix@ =~= file + class_path(inner_classes));
                        assert(decreases_to!(class.body@ => class.body@[j as int]));
                    }
                    class_test_items(
                        inner,
                        &inner_prefix,
                        &ms,
                        &ps,
                        names,
                        items,
                        Ghost(inner_classes),
                        Ghost(file),
                    );
                } else {
                    assert(item_views(items@) =~= prev + Seq::<TestItemView>::empty());
                }
            },
            PyStmt::Other => {
                assert(item_views(items@) =~= prev + Seq::<TestItemView>::empty());
            },
        }
        j += 1;
    }
    assert(body@.take(body@.len() as int) =~= body@);
}

/// The test functions and test methods a parsed module defines, chosen by
/// the name patterns `names`, with node ids rooted at the module's path
/// `relative`.
pub fn parse_test_module(module: &PyModule, relative: &str, names: &TestNames) -> (r: Vec<
    TestItem,
>)
    requires
        body_cuttable(module.body@),
    ensures
        item_views(r@) == module_items(module.body@, file_id(relative@), names@),
{
    let file = file_id_exec(relative);
    let body = &module.body;
    let mut items: Vec<TestItem> = Vec::new();
    let mut i: usize = 0;
    while i < body.len()
        invariant
            i <= body@.len(),
            item_views(items@) == module_items(body@.take(i as int), file@, names@),
            body_cuttable(body@),
        decreases body@.len() - i,
    {
        let ghost before = item_views(items@);
        match &body[i] {
            PyStmt::FunctionDef(func) => {
                if is_test_function(func.name.as_str(), names) {
                    let item = function_test_item(func, &file);
                    items.push(item);
                    assert(item_views(items@) =~= before + seq![item@]);
                } else {
                    assert(item_views(items@) =~= before + Seq::<TestItemView>::empty());
                }
            },
            PyStmt::ClassDef(class) => {
                if is_test_class(class.name.as_str(), names) {
                    let mut prefix = file.clone();
                    push_str(&mut prefix, "::");
                    push_str(&mut prefix, class.name.as_str());
                    let markers = extract_markers(&class.decorators);
                    let params = extract_parametrize(&class.decorators);
                    let ghost cs = seq![*class];
                    proof {
                        assert(cs.drop_last() =~= Seq::<PyClassDef>::empty());
                        assert(cs.last() == *class);
                        assert(class_path(cs.drop_last()) == Seq::<char>::empty());
                        assert(class_markers(cs.drop_last()) == Seq::<MarkerView>::empty());
                        assert(class_params(cs.drop_last()) == Seq::<ParamView>::empty());
                        assert(prefix@ =~= file@ + class_path(cs));
                        assert(class_markers(cs) =~= markers_of(class.decorators@));
                        assert(class_params(cs) =~= parametrizes_of(class.decorators@));
                    }
                    class_test_items(
                        class,
                        &prefix,
                        &markers,
                        &params,
                        names,
                        &mut items,
                        Ghost(cs),
                        Ghost(file@),
                    );
                } else {
                    assert(item_views(items@) =~= before + Seq::<TestItemView>::empty());
                }
            },
            PyStmt::Other => {
                assert(item_views(items@) =~= before + Seq::<TestItemView>::empty());
            },
        }
        i += 1;
        assert(body@.take(i as int).drop_last() =~= body@.take(i - 1));
    }
    assert(body@.take(body@.len() as int) =~= body@);
    items
}

proof fn lemma_stmt_items_in_module(
    body: Seq<PyStmt>,
    file: Seq<char>,
    names: TestNamesView,
    i: int,
    k: int,
)
    requires
        0 <= i < body.len(),
        0 <= k < stmt_items(body[i], file, names).len(),
    ensures
        module_items(body, file, names).contains(stmt_items(body[i], file, names)[k]),
    decreases body.len(),
{
    let init = body.drop_last();
    let x = stmt_items(body[i], file, names)[k];
    if i < body.len() - 1 {
        assert(init[i] == body[i]);
        lemma_stmt_items_in_module(init, file, names, i, k);
        let j = choose|j: int|
            0 <= j < module_items(init, file, names).len() && module_items(init, file, names)[j]
                == x;
        assert(module_items(body, file, names)[j] == x);
    } else {
        assert(module_items(body, file, names)[module_items(init, file, names).len() + k] == x);
    }
}

/// Every module-level test function is collected, under the node id
/// `file::name`, as a plain function with the markers its decorators apply.
pub proof fn law_module_function_keeps_markers(
    body: Seq<PyStmt>,
    file: Seq<char>,
    names: TestNamesView,
    i: int,
    f: PyFunctionDef,
)
    requires
        0 <= i < body.len(),
        body[i] == PyStmt::FunctionDef(f),
        is_test_function_name(f.name@, names),
    ensures
        exists|k: int|
            0 <= k < module_items(body, file, names).len() && {
                let it = #[trigger] module_items(body, file, names)[k];
                &&& it.node_id == file + "::"@ + f.name@
                &&& it.markers == markers_of(f.decorators@)
                &&& it.function_name == f.name@
                &&& !it.is_method
            },
{
    lemma_stmt_items_in_module(body, file, names, i, 0);
}

/// A decorator `@pytest.mark.<name>`, bare or called, applies a marker of
/// that name.
pub proof fn law_mark_decorator_gives_marker(decs: Seq<PyExpr>, j: int, name: Seq<char>)
    requires
        0 <= j < decs.len(),
        (decs[j] is Attribute && attr_chain(decs[j]) == seq!["pytest"@, "mark"@, name]) || (
        decs[j] is Call && attr_chain(decs[j]->Call_0.func) == seq!["pytest"@, "mark"@, name]),
    ensures
        exists|k: int| 0 <= k < markers_of(decs).len() && (#[trigger] markers_of(decs)[k]).name == name,
    decreases decs.len(),
{
    let init = decs.drop_last();
    if j < decs.len() - 1 {
        assert(init[j] == decs[j]);
        law_mark_decorator_gives_marker(init, j, name);
        let k = choose|k: int|
            0 <= k < markers_of(init).len() && (#[trigger] markers_of(init)[k]).name == name;
        assert(markers_of(decs)[k] == markers_of(init)[k]);
    } else {
        let chain = seq!["pytest"@, "mark"@, name];
        assert(chain.skip(2) =~= seq![name]);
        assert(join(chain.skip(2), "."@) == name);
        assert(marker_of(decs[j]) == Some(MarkerView { name, args: Seq::empty() }));
        assert(markers_of(decs)[markers_of(init).len() as int].name == name);
    }
}

proof fn lemma_method_in_class_items(
    classes: Seq<PyClassDef>,
    body: Seq<PyStmt>,
    file: Seq<char>,
    names: TestNamesView,
    i: int,
    m: PyFunctionDef,
)
    requires
        0 <= i < body.len(),
        body[i] == PyStmt::FunctionDef(m),
        is_test_function_name(m.name@, names),
    ensures
        class_items(classes, body, file, names).contains(method_item(classes, m, file)),
    decreases body.len(),
{
    let init = body.drop_last();
    let x = method_item(classes, m, file);
    if i < body.len() - 1 {
        assert(init[i] == body[i]);
        lemma_method_in_class_items(classes, init, file, names, i, m);
        let j = choose|j: int|
            0 <= j < class_items(classes, init, file, names).len() && class_items(
                classes,
                init,
                file,
                names,
            )[j] == x;
        assert(class_items(classes, body, file, names)[j] == x);
    } else {
        assert(class_items(classes, body, file, names)[class_items(
            classes,
            init,
            file,
            names,
        ).len() as int] == x);
    }
}

/// Every test method of a module-level test class is collected, under the
/// node id `file::Class::name`, as a method of that class with the class's
/// markers followed by its own.
pub proof fn law_class_method_keeps_markers(
    body: Seq<PyStmt>,
    file: Seq<char>,
    names: TestNamesView,
    i: int,
    c: PyClassDef,
    j: int,
    m: PyFunctionDef,
)
    requires
        0 <= i < body.len(),
        body[i] == PyStmt::ClassDef(c),
        is_test_class_name(c.name@, names),
        0 <= j < c.body@.len(),
        c.body@[j] == PyStmt::FunctionDef(m),
        is_test_function_name(m.name@, names),
    ensures
        exists|k: int|
            0 <= k < module_items(body, file, names).len() && {
                let it = #[trigger] module_items(body, file, names)[k];
                &&& it.node_id == file + "::"@ + c.name@ + "::"@ + m.name@
                &&& it.markers == markers_of(c.decorators@) + markers_of(m.decorators@)
                &&& it.function_name == m.name@
                &&& it.class_name == Some(c.name@)
                &&& it.is_method
            },
{
    let classes = seq![c];
    lemma_method_in_class_items(classes, c.body@, file, names, j, m);
    let items = stmt_items(body[i], file, names);
    assert(items == class_items(classes, c.body@, file, names));
    let k = choose|k: int| 0 <= k < items.len() && items[k] == method_item(classes, m, file);
    lemma_stmt_items_in_module(body, file, names, i, k);
    assert(classes.drop_last() =~= Seq::<PyClassDef>::empty());
    assert(classes.last() == c);
    assert(class_path(Seq::<PyClassDef>::empty()) == Seq::<char>::empty());
    assert(class_markers(Seq::<PyClassDef>::empty()) == Seq::<MarkerView>::empty());
    assert(class_path(classes) == Seq::<char>::empty() + "::"@ + c.name@);
    assert(class_markers(classes) == Seq::<MarkerView>::empty() + markers_of(c.decorators@));
    assert(Seq::<MarkerView>::empty() + markers_of(c.decorators@) =~= markers_of(c.decorators@));
    assert(file + (Seq::<char>::empty() + "::"@ + c.name@) + "::"@ + m.name@ =~= file + "::"@
        + c.name@ + "::"@ + m.name@);
}

} // verus!
