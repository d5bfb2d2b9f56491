//! `-k` keyword and `-m` marker expressions: their grammar, what they select,
//! and filtering a collected test list by them.
use vstd::prelude::*;
use crate::config::PytestConfig;
use crate::parser::{TestItem, TestItemView, item_views};
use crate::text::{
    chars_of, contains, contains_exec, lowercase, slice_chars, starts_with, starts_with_exec,
    str_eq, to_lowercase, trim, trim_chars, lemma_trim_len, string_from,
};

verus! {

broadcast use vstd::seq_lib::group_seq_properties;

// ---------------------------------------------------------------------------
// The expression grammar
// ---------------------------------------------------------------------------

/// A parsed selection expression; leaves are keywords (`-k`) or marker
/// names (`-m`).
pub enum FilterExpr {
    Leaf(Seq<char>),
    Not(Box<FilterExpr>),
    And(Box<FilterExpr>, Box<FilterExpr>),
    Or(Box<FilterExpr>, Box<FilterExpr>),
}

pub open spec fn or_op() -> Seq<char> {
    seq![' ', 'o', 'r', ' ']
}

pub open spec fn and_op() -> Seq<char> {
    seq![' ', 'a', 'n', 'd', ' ']
}

pub open spec fn not_prefix() -> Seq<char> {
    seq!['n', 'o', 't', ' ']
}

pub open spec fn paren_delta(c: char) -> int {
    if c == '(' {
        1
    } else if c == ')' {
        -1
    } else {
        0
    }
}

/// Parenthesis nesting depth after reading `s[0..=i]`.
pub open spec fn depth_through(s: Seq<char>, i: int) -> int
    decreases i + 1,
{
    if i < 0 {
        0
    } else {
        depth_through(s, i - 1) + paren_delta(s[i])
    }
}

/// `op` starts at `i`, outside any parentheses.
pub open spec fn op_at(s: Seq<char>, op: Seq<char>, i: int) -> bool {
    depth_through(s, i) == 0 && s.subrange(i, i + op.len()) == op
}

/// The first `j >= i` where `op` starts at nesting depth zero.
pub open spec fn find_op_from(s: Seq<char>, op: Seq<char>, i: int) -> Option<int>
    decreases s.len() + 1 - i,
{
    if i < 0 || i + op.len() > s.len() {
        None
    } else if op_at(s, op, i) {
        Some(i)
    } else {
        find_op_from(s, op, i + 1)
    }
}

/// The first occurrence of `op` in `s` at parenthesis depth zero.
pub open spec fn find_op(s: Seq<char>, op: Seq<char>) -> Option<int> {
    find_op_from(s, op, 0)
}

pub proof fn lemma_find_op_bounds(s: Seq<char>, op: Seq<char>, i: int)
    ensures
        find_op_from(s, op, i) matches Some(r) ==> i <= r && r + op.len() <= s.len() && op_at(
            s,
            op,
            r,
        ),
    decreases s.len() + 1 - i,
{
    if !(i < 0 || i + op.len() > s.len()) && !op_at(s, op, i) {
        lemma_find_op_bounds(s, op, i + 1);
    }
}

/// `or`-level parse: split at the first top-level ` or `.
pub open spec fn parse_or(s: Seq<char>) -> FilterExpr
    decreases s.len(), 3int,
{
    match find_op(s, or_op()) {
        Some(i) => {
            proof {
                lemma_find_op_bounds(s, or_op(), 0);
            }
            FilterExpr::Or(Box::new(parse_or(s.take(i))), Box::new(parse_or(s.skip(i + 4))))
        },
        None => parse_and(s),
    }
}

/// `and`-level parse: split at the first top-level ` and `.
pub open spec fn parse_and(s: Seq<char>) -> FilterExpr
    decreases s.len(), 2int,
{
    match find_op(s, and_op()) {
        Some(i) => {
            proof {
                lemma_find_op_bounds(s, and_op(), 0);
            }
            FilterExpr::And(Box::new(parse_and(s.take(i))), Box::new(parse_and(s.skip(i + 5))))
        },
        None => parse_not(s),
    }
}

/// `not`-level parse: a trimmed expression starting with `not ` negates
/// the rest.
pub open spec fn parse_not(s: Seq<char>) -> FilterExpr
    decreases s.len(), 1int,
{
    let t = trim(s);
    proof {
        lemma_trim_len(s);
    }
    if starts_with(t, not_prefix()) {
        FilterExpr::Not(Box::new(parse_not(t.skip(4))))
    } else {
        parse_atom(t)
    }
}

/// Atom: the trimmed text, when it starts with `(` and ends with `)`, is
/// parsed again without them (one character cannot be both); any other
/// text is a leaf.
pub open spec fn parse_atom(s: Seq<char>) -> FilterExpr
    decreases s.len(), 0int,
{
    let t = trim(s);
    proof {
        lemma_trim_len(s);
    }
    if t.len() >= 2 && t[0] == '(' && t[t.len() - 1] == ')' {
        parse_or(t.subrange(1, t.len() - 1))
    } else {
        FilterExpr::Leaf(t)
    }
}

/// A whole `-k`/`-m` expression: trimmed, then parsed at `or` level.  Every
/// text parses.
pub open spec fn parse_expression(s: Seq<char>) -> FilterExpr {
    parse_or(trim(s))
}

// ---------------------------------------------------------------------------
// What an expression selects
// ---------------------------------------------------------------------------

/// A `-k` keyword matches, case-insensitively, a substring of the node id or
/// of a marker name.
pub open spec fn keyword_hit(kw: Seq<char>, item: TestItemView) -> bool {
    let k = lowercase(kw);
    ||| contains(lowercase(item.node_id), k)
    ||| exists|j: int|
        0 <= j < item.markers.len() && contains(lowercase(#[trigger] item.markers[j].name), k)
}

pub open spec fn k_matches(e: FilterExpr, item: TestItemView) -> bool
    decreases e,
{
    match e {
        FilterExpr::Leaf(kw) => keyword_hit(kw, item),
        FilterExpr::Not(a) => !k_matches(*a, item),
        FilterExpr::And(a, b) => k_matches(*a, item) && k_matches(*b, item),
        FilterExpr::Or(a, b) => k_matches(*a, item) || k_matches(*b, item),
    }
}

/// A `-m` marker name matches a marker of exactly that name.
pub open spec fn has_marker(name: Seq<char>, item: TestItemView) -> bool {
    exists|j: int| 0 <= j < item.markers.len() && #[trigger] item.markers[j].name == name
}

pub open spec fn m_matches(e: FilterExpr, item: TestItemView) -> bool
    decreases e,
{
    match e {
        FilterExpr::Leaf(name) => has_marker(name, item),
        FilterExpr::Not(a) => !m_matches(*a, item),
        FilterExpr::And(a, b) => m_matches(*a, item) && m_matches(*b, item),
        FilterExpr::Or(a, b) => m_matches(*a, item) || m_matches(*b, item),
    }
}

/// The items a `-k` expression selects.
pub open spec fn k_pred(e: FilterExpr) -> spec_fn(TestItemView) -> bool {
    |it: TestItemView| k_matches(e, it)
}

/// The items a `-m` expression selects.
pub open spec fn m_pred(e: FilterExpr) -> spec_fn(TestItemView) -> bool {
    |it: TestItemView| m_matches(e, it)
}

/// `items` narrowed by the `-k` expression, when there is one.
pub open spec fn k_selected(items: Seq<TestItemView>, k: Option<&str>) -> Seq<TestItemView> {
    match k {
        Some(e) => items.filter(k_pred(parse_expression(e@))),
        None => items,
    }
}

/// `items` narrowed by the `-m` expression, when there is one.
pub open spec fn m_selected(items: Seq<TestItemView>, m: Option<&str>) -> Seq<TestItemView> {
    match m {
        Some(e) => items.filter(m_pred(parse_expression(e@))),
        None => items,
    }
}


// ---------------------------------------------------------------------------
// Executable parsers and matchers
// ---------------------------------------------------------------------------

/// `-k` keyword filter: matches against node_id and marker names.
enum KFilter {
    Keyword(String),
    Not(Box<KFilter>),
    And(Box<KFilter>, Box<KFilter>),
    Or(Box<KFilter>, Box<KFilter>),
}

/// `-m` marker filter: matches only against marker names (exact match).
enum MFilter {
    Marker(String),
    Not(Box<MFilter>),
    And(Box<MFilter>, Box<MFilter>),
    Or(Box<MFilter>, Box<MFilter>),
}

spec fn k_view(f: KFilter) -> FilterExpr
    decreases f,
{
    match f {
        KFilter::Keyword(k) => FilterExpr::Leaf(k@),
        KFilter::Not(a) => FilterExpr::Not(Box::new(k_view(*a))),
        KFilter::And(a, b) => FilterExpr::And(Box::new(k_view(*a)), Box::new(k_view(*b))),
        KFilter::Or(a, b) => FilterExpr::Or(Box::new(k_view(*a)), Box::new(k_view(*b))),
    }
}

spec fn m_view(f: MFilter) -> FilterExpr
    decreases f,
{
    match f {
        MFilter::Marker(k) => FilterExpr::Leaf(k@),
        MFilter::Not(a) => FilterExpr::Not(Box::new(m_view(*a))),
        MFilter::And(a, b) => FilterExpr::And(Box::new(m_view(*a)), Box::new(m_view(*b))),
        MFilter::Or(a, b) => FilterExpr::Or(Box::new(m_view(*a)), Box::new(m_view(*b))),
    }
}

/// Index of the first occurrence of `op` in `expr` at parenthesis depth zero.
fn find_operator(expr: &Vec<char>, op: &Vec<char>) -> (r: Option<usize>)
    requires
        op@.len() > 0,
    ensures
        r matches Some(i) ==> find_op(expr@, op@) == Some(i as int) && i + op@.len()
            <= expr@.len(),
        r is None ==> find_op(expr@, op@) is None,
{
    if expr.len() < op.len() {
        return None;
    }
    let last = expr.len() - op.len();
    let mut depth: i128 = 0;
    let mut i: usize = 0;
    loop
        invariant
            0 < op@.len(),
            i <= last,
            last + op@.len() == expr@.len(),
            depth == depth_through(expr@, i - 1),
            -(i as int) <= depth <= i,
            find_op_from(expr@, op@, 0) == find_op_from(expr@, op@, i as int),
        decreases last - i,
    {
        let c = expr[i];
        if c == '(' {
            depth = depth + 1;
        } else if c == ')' {
            depth = depth - 1;
        }
        assert(depth == depth_through(expr@, i as int));
        let hit = depth == 0 && crate::text::occurs_at_exec(expr, op, i);
        if hit {
            return Some(i);
        }
        assert(!op_at(expr@, op@, i as int));
        if i == last {
            assert(find_op_from(expr@, op@, i + 1) is None);
            return None;
        }
        i += 1;
    }
}

fn or_chars() -> (v: Vec<char>)
    ensures
        v@ == or_op(),
{
    let v = vec![' ', 'o', 'r', ' '];
    assert(v@ =~= or_op());
    v
}

fn and_chars() -> (v: Vec<char>)
    ensures
        v@ == and_op(),
{
    let v = vec![' ', 'a', 'n', 'd', ' '];
    assert(v@ =~= and_op());
    v
}

fn not_chars() -> (v: Vec<char>)
    ensures
        v@ == not_prefix(),
{
    let v = vec!['n', 'o', 't', ' '];
    assert(v@ =~= not_prefix());
    v
}

fn parse_k_expression(expr: &str) -> (r: KFilter)
    ensures
        k_view(r) == parse_expression(expr@),
{
    let v = chars_of(expr);
    let t = trim_chars(&v);
    parse_k_or(&t)
}

fn parse_k_or(expr: &Vec<char>) -> (r: KFilter)
    ensures
        k_view(r) == parse_or(expr@),
    decreases expr@.len(), 3int,
{
    let op = or_chars();
    assert(op@.len() == 4);
    match find_operator(expr, &op) {
        Some(idx) => {
            let n = expr.len();
            let left = slice_chars(expr, 0, idx);
            let right = slice_chars(expr, idx + 4, n);
            assert(left@ == expr@.take(idx as int));
            assert(right@ == expr@.skip(idx + 4));
            let l = parse_k_or(&left);
            let r = parse_k_or(&right);
            KFilter::Or(Box::new(l), Box::new(r))
        },
        None => parse_k_and(expr),
    }
}

fn parse_k_and(expr: &Vec<char>) -> (r: KFilter)
    ensures
        k_view(r) == parse_and(expr@),
    decreases expr@.len(), 2int,
{
    let op = and_chars();
    assert(op@.len() == 5);
    match find_operator(expr, &op) {
        Some(idx) => {
            let n = expr.len();
            let left = slice_chars(expr, 0, idx);
            let right = slice_chars(expr, idx + 5, n);
            assert(left@ == expr@.take(idx as int));
            assert(right@ == expr@.skip(idx + 5));
            let l = parse_k_and(&left);
            let r = parse_k_and(&right);
            KFilter::And(Box::new(l), Box::new(r))
        },
        None => parse_k_not(expr),
    }
}

fn parse_k_not(expr: &Vec<char>) -> (r: KFilter)
    ensures
        k_view(r) == parse_not(expr@),
    decreases expr@.len(), 1int,
{
    let trimmed = trim_chars(expr);
    proof {
        lemma_trim_len(expr@);
    }
    let np = not_chars();
    if starts_with_exec(&trimmed, &np) {
        let rest = slice_chars(&trimmed, 4, trimmed.len());
        assert(rest@ == trimmed@.skip(4));
        KFilter::Not(Box::new(parse_k_not(&rest)))
    } else {
        parse_k_atom(&trimmed)
    }
}

fn parse_k_atom(expr: &Vec<char>) -> (r: KFilter)
    ensures
        k_view(r) == parse_atom(expr@),
    decreases expr@.len(), 0int,
{
    let trimmed = trim_chars(expr);
    proof {
        lemma_trim_len(expr@);
    }
    let n = trimmed.len();
    if n >= 2 && trimmed[0] == '(' && trimmed[n - 1] == ')' {
        let inner = slice_chars(&trimmed, 1, n - 1);
        parse_k_or(&inner)
    } else {
        KFilter::Keyword(string_from(&trimmed))
    }
}

fn parse_m_expression(expr: &str) -> (r: MFilter)
    ensures
        m_view(r) == parse_expression(expr@),
{
    let v = chars_of(expr);
    let t = trim_chars(&v);
    parse_m_or(&t)
}

fn parse_m_or(expr: &Vec<char>) -> (r: MFilter)
    ensures
        m_view(r) == parse_or(expr@),
    decreases expr@.len(), 3int,
{
    let op = or_chars();
    assert(op@.len() == 4);
    match find_operator(expr, &op) {
        Some(idx) => {
            let n = expr.len();
            let left = slice_chars(expr, 0, idx);
            let right = slice_chars(expr, idx + 4, n);
            assert(left@ == expr@.take(idx as int));
            assert(right@ == expr@.skip(idx + 4));
            let l = parse_m_or(&left);
            let r = parse_m_or(&right);
            MFilter::Or(Box::new(l), Box::new(r))
        },
        None => parse_m_and(expr),
    }
}

fn parse_m_and(expr: &Vec<char>) -> (r: MFilter)
    ensures
        m_view(r) == parse_and(expr@),
    decreases expr@.len(), 2int,
{
    let op = and_chars();
    assert(op@.len() == 5);
    match find_operator(expr, &op) {
        Some(idx) => {
            let n = expr.len();
            let left = slice_chars(expr, 0, idx);
            let right = slice_chars(expr, idx + 5, n);
            assert(left@ == expr@.take(idx as int));
            assert(right@ == expr@.skip(idx + 5));
            let l = parse_m_and(&left);
            let r = parse_m_and(&right);
            MFilter::And(Box::new(l), Box::new(r))
        },
        None => parse_m_not(expr),
    }
}

fn parse_m_not(expr: &Vec<char>) -> (r: MFilter)
    ensures
        m_view(r) == parse_not(expr@),
    decreases expr@.len(), 1int,
{
    let trimmed = trim_chars(expr);
    proof {
        lemma_trim_len(expr@);
    }
    let np = not_chars();
    if starts_with_exec(&trimmed, &np) {
        let rest = slice_chars(&trimmed, 4, trimmed.len());
        assert(rest@ == trimmed@.skip(4));
        MFilter::Not(Box::new(parse_m_not(&rest)))
    } else {
        parse_m_atom(&trimmed)
    }
}

fn parse_m_atom(expr: &Vec<char>) -> (r: MFilter)
    ensures
        m_view(r) == parse_atom(expr@),
    decreases expr@.len(), 0int,
{
    let trimmed = trim_chars(expr);
    proof {
        lemma_trim_len(expr@);
    }
    let n = trimmed.len();
    if n >= 2 && trimmed[0] == '(' && trimmed[n - 1] == ')' {
        let inner = slice_chars(&trimmed, 1, n - 1);
        parse_m_or(&inner)
    } else {
        MFilter::Marker(string_from(&trimmed))
    }
}

/// Whether the `-k` keyword `kw` matches `item`.
fn keyword_matches(kw: &String, item: &TestItem) -> (r: bool)
    ensures
        r == keyword_hit(kw@, item@),
{
    let kw_lower = chars_of(to_lowercase(kw.as_str()).as_str());
    let node_lower = chars_of(to_lowercase(item.node_id.as_str()).as_str());
    if contains_exec(&node_lower, &kw_lower) {
        return true;
    }
    let mut j: usize = 0;
    while j < item.markers.len()
        invariant
            j <= item.markers@.len(),
            kw_lower@ == lowercase(kw@),
            forall|i: int|
                0 <= i < j ==> !contains(
                    lowercase(#[trigger] item@.markers[i].name),
                    lowercase(kw@),
                ),
        decreases item.markers@.len() - j,
    {
        let name_lower = chars_of(to_lowercase(item.markers[j].name.as_str()).as_str());
        if contains_exec(&name_lower, &kw_lower) {
            assert(item@.markers[j as int].name == item.markers@[j as int].name@);
            return true;
        }
        assert(item@.markers[j as int].name == item.markers@[j as int].name@);
        j += 1;
    }
    false
}

/// Whether `item` carries a marker named `name`.
fn marker_named(name: &String, item: &TestItem) -> (r: bool)
    ensures
        r == has_marker(name@, item@),
{
    let mut j: usize = 0;
    while j < item.markers.len()
        invariant
            j <= item.markers@.len(),
            forall|i: int| 0 <= i < j ==> #[trigger] item@.markers[i].name != name@,
        decreases item.markers@.len() - j,
    {
        assert(item@.markers[j as int].name == item.markers@[j as int].name@);
        if str_eq(item.markers[j].name.as_str(), name.as_str()) {
            return true;
        }
        j += 1;
    }
    false
}

impl KFilter {
    fn matches(&self, item: &TestItem) -> (r: bool)
        ensures
            r == k_matches(k_view(*self), item@),
        decreases *self,
    {
        match self {
            KFilter::Keyword(kw) => keyword_matches(kw, item),
            KFilter::Not(inner) => !inner.matches(item),
            KFilter::And(a, b) => a.matches(item) && b.matches(item),
            KFilter::Or(a, b) => a.matches(item) || b.matches(item),
        }
    }
}

impl MFilter {
    fn matches_markers(&self, item: &TestItem) -> (r: bool)
        ensures
            r == m_matches(m_view(*self), item@),
        decreases *self,
    {
        match self {
            MFilter::Marker(name) => marker_named(name, item),
            MFilter::Not(inner) => !inner.matches_markers(item),
            MFilter::And(a, b) => a.matches_markers(item) && b.matches_markers(item),
            MFilter::Or(a, b) => a.matches_markers(item) || b.matches_markers(item),
        }
    }
}

fn keep_k_matches(items: Vec<TestItem>, filter: &KFilter) -> (r: Vec<TestItem>)
    ensures
        item_views(r@) == item_views(items@).filter(k_pred(k_view(*filter))),
{
    let ghost all = items@;
    let mut out: Vec<TestItem> = Vec::new();
    for item in it: items
        invariant
            all == it.seq(),
            item_views(out@) == item_views(all.take(it.index() as int)).filter(
                k_pred(k_view(*filter)),
            ),
    {
        let ghost before = all.take(it.index() as int);
        let ghost prev = out@;
        let ghost iv = item@;
        proof {
            assert(all.take(it.index() + 1) =~= before.push(item));
            assert(item_views(before.push(item)) =~= item_views(before).push(iv));
            item_views(before).lemma_filter_push(iv, k_pred(k_view(*filter)));
        }
        if filter.matches(&item) {
            out.push(item);
            assert(item_views(out@) =~= item_views(prev).push(iv));
        }
    }
    proof {
        assert(all.take(all.len() as int) =~= all);
    }
    out
}

fn keep_m_matches(items: Vec<TestItem>, filter: &MFilter) -> (r: Vec<TestItem>)
    ensures
        item_views(r@) == item_views(items@).filter(m_pred(m_view(*filter))),
{
    let ghost all = items@;
    let mut out: Vec<TestItem> = Vec::new();
    for item in it: items
        invariant
            all == it.seq(),
            item_views(out@) == item_views(all.take(it.index() as int)).filter(
                m_pred(m_view(*filter)),
            ),
    {
        let ghost before = all.take(it.index() as int);
        let ghost prev = out@;
        let ghost iv = item@;
        proof {
            assert(all.take(it.index() + 1) =~= before.push(item));
            assert(item_views(before.push(item)) =~= item_views(before).push(iv));
            item_views(before).lemma_filter_push(iv, m_pred(m_view(*filter)));
        }
        if filter.matches_markers(&item) {
            out.push(item);
            assert(item_views(out@) =~= item_views(prev).push(iv));
        }
    }
    proof {
        assert(all.take(all.len() as int) =~= all);
    }
    out
}

/// Narrows the collected items by the `-k` expression, then by the `-m`
/// expression, keeping their order.
pub fn filter_items(
    items: Vec<TestItem>,
    k_expr: Option<&str>,
    m_expr: Option<&str>,
    _config: &PytestConfig,
) -> (r: Vec<TestItem>)
    ensures
        item_views(r@) == m_selected(k_selected(item_views(items@), k_expr), m_expr),
{
    let mut result = items;
    if let Some(expr) = k_expr {
        let filter = parse_k_expression(expr);
        result = keep_k_matches(result, &filter);
    }
    if let Some(expr) = m_expr {
        let filter = parse_m_expression(expr);
        result = keep_m_matches(result, &filter);
    }
    result
}

// ---------------------------------------------------------------------------
// Laws
// ---------------------------------------------------------------------------

proof fn lemma_filter_commute(
    s: Seq<TestItemView>,
    p: spec_fn(TestItemView) -> bool,
    q: spec_fn(TestItemView) -> bool,
)
    ensures
        s.filter(p).filter(q) == s.filter(q).filter(p),
    decreases s.len(),
{
    if s.len() > 0 {
        let init = s.drop_last();
        let x = s.last();
        lemma_filter_commute(init, p, q);
        assert(init.push(x) =~= s);
        init.lemma_filter_push(x, p);
        init.lemma_filter_push(x, q);
        init.filter(p).lemma_filter_push(x, q);
        init.filter(q).lemma_filter_push(x, p);
    }
}

/// The `-k` and `-m` filters may be applied in either order.
pub proof fn law_filter_order_irrelevant(items: Seq<TestItemView>, k: Option<&str>, m: Option<&str>)
    ensures
        m_selected(k_selected(items, k), m) == k_selected(m_selected(items, m), k),
{
    if let (Some(ke), Some(me)) = (k, m) {
        lemma_filter_commute(
            items,
            k_pred(parse_expression(ke@)),
            m_pred(parse_expression(me@)),
        );
    }
}

/// An item is selected exactly when it was collected and matches both
/// expressions (an absent expression matches everything).
pub proof fn law_selection_exact(
    items: Seq<TestItemView>,
    k: Option<&str>,
    m: Option<&str>,
    item: TestItemView,
)
    ensures
        m_selected(k_selected(items, k), m).contains(item) <==> {
            &&& items.contains(item)
            &&& (k matches Some(e) ==> k_matches(parse_expression(e@), item))
            &&& (m matches Some(e) ==> m_matches(parse_expression(e@), item))
        },
{
    broadcast use vstd::seq_lib::group_filter_ensures;

    let ks = k_selected(items, k);
    let ms = m_selected(ks, m);
    if ms.contains(item) {
        let j = choose|j: int| 0 <= j < ms.len() && ms[j] == item;
        if let Some(e) = m {
            ks.lemma_filter_pred(m_pred(parse_expression(e@)), j);
            ks.lemma_filter_contains_rev(m_pred(parse_expression(e@)), item);
        }
        assert(ks.contains(item));
        let i = choose|i: int| 0 <= i < ks.len() && ks[i] == item;
        if let Some(e) = k {
            items.lemma_filter_pred(k_pred(parse_expression(e@)), i);
            items.lemma_filter_contains_rev(k_pred(parse_expression(e@)), item);
        }
    }
    if items.contains(item) && (k matches Some(e) ==> k_matches(parse_expression(e@), item))
        && (m matches Some(e) ==> m_matches(parse_expression(e@), item)) {
        let i = choose|i: int| 0 <= i < items.len() && items[i] == item;
        if let Some(e) = k {
            items.lemma_filter_contains(k_pred(parse_expression(e@)), i);
        }
        let j = choose|j: int| 0 <= j < ks.len() && ks[j] == item;
        if let Some(e) = m {
            ks.lemma_filter_contains(m_pred(parse_expression(e@)), j);
        }
    }
}

} // verus!
