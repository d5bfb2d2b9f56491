//! `@pytest.mark.parametrize` arguments and the test ids they expand to.
use vstd::prelude::*;
use crate::ast::{FStringPiece, PyCall, PyDictItem, PyExpr, PyKeyword, UnaryOperator};
use crate::text::{
    chars_of, copy_strings, decimal, decimal_string, has_char, join, join_strings, lit, push_str,
    str_eq, strs, utf8_to_string, split_char, split_char_from, trim, trim_bounds, find_char_from,
    string_from_range, lemma_next_char_bounds, push_decimal, digit_char,
};
use vstd::utf8::{decode_utf8, valid_utf8, encode_utf8, encode_scalar, is_char_boundary};

verus! {

#[derive(Debug)]
pub struct ParametrizeArgs {
    pub arg_names: Vec<String>,
    pub case_ids: Vec<String>,
}

pub struct ParamView {
    pub arg_names: Seq<Seq<char>>,
    pub case_ids: Seq<Seq<char>>,
}

impl View for ParametrizeArgs {
    type V = ParamView;

    open spec fn view(&self) -> ParamView {
        ParamView { arg_names: strs(self.arg_names@), case_ids: strs(self.case_ids@) }
    }
}

/// The views of a sequence of parametrize decorators.
pub open spec fn param_views(v: Seq<ParametrizeArgs>) -> Seq<ParamView> {
    v.map_values(|p: ParametrizeArgs| p@)
}

impl Clone for ParametrizeArgs {
    fn clone(&self) -> (r: Self)
        ensures
            r@ == self@,
    {
        ParametrizeArgs {
            arg_names: copy_strings(&self.arg_names),
            case_ids: copy_strings(&self.case_ids),
        }
    }
}

/// A copy of `v` holding equal decorators.
pub fn copy_params(v: &Vec<ParametrizeArgs>) -> (r: Vec<ParametrizeArgs>)
    ensures
        param_views(r@) == param_views(v@),
{
    let mut r: Vec<ParametrizeArgs> = Vec::new();
    let mut i: usize = 0;
    while i < v.len()
        invariant
            i <= v@.len(),
            r@.len() == i,
            forall|j: int| 0 <= j < i ==> r@[j]@ == v@[j]@,
        decreases v@.len() - i,
    {
        let c = v[i].clone();
        r.push(c);
        i += 1;
    }
    assert(param_views(r@) =~= param_views(v@));
    r
}


// ---------------------------------------------------------------------------
// How an expression is rendered inside a test id
// ---------------------------------------------------------------------------

/// The dotted name an attribute chain spells: `a.b.c` gives `[a, b, c]`;
/// the chain stops at the first node that is neither an attribute nor a name.
pub open spec fn attr_chain(e: PyExpr) -> Seq<Seq<char>>
    decreases e,
{
    match e {
        PyExpr::Attribute(v, a) => attr_chain(*v).push(a@),
        PyExpr::Name(id) => seq![id@],
        _ => Seq::empty(),
    }
}

/// A float's text always shows a decimal point.
pub open spec fn float_text(t: Seq<char>) -> Seq<char> {
    if t.contains('.') {
        t
    } else {
        t + ".0"@
    }
}

/// A bytes literal reads as its UTF-8 text, or else as the list of its byte
/// values (`[104, 105]`).
pub open spec fn bytes_text(b: Seq<u8>) -> Seq<char> {
    if valid_utf8(b) {
        decode_utf8(b)
    } else {
        "["@ + join(b.map_values(|x: u8| decimal(x as nat)), ", "@) + "]"@
    }
}

/// `name()` or `name(a, b)`.
pub open spec fn call_text(name: Seq<char>, args: Seq<Seq<char>>) -> Seq<char> {
    if args.len() == 0 {
        name + "()"@
    } else {
        name + "("@ + join(args, ", "@) + ")"@
    }
}

pub open spec fn fstring_part_text(p: FStringPiece) -> Seq<char> {
    match p {
        FStringPiece::Literal(s) => s@,
        FStringPiece::Formatted => "<fstring>"@,
    }
}

/// The text that stands for a parameter value in a test id.
pub open spec fn repr(e: PyExpr) -> Seq<char>
    decreases e,
{
    match e {
        PyExpr::Int(t) => t@,
        PyExpr::Float(t) => float_text(t@),
        PyExpr::Complex(re, im) => re@ + "+"@ + im@ + "j"@,
        PyExpr::StringLiteral(s) => s@,
        PyExpr::BytesLiteral(b) => bytes_text(b@),
        PyExpr::BooleanLiteral(b) => if b {
            "True"@
        } else {
            "False"@
        },
        PyExpr::NoneLiteral => "None"@,
        PyExpr::Name(n) => n@,
        PyExpr::UnaryOp(op, operand) => match op {
            UnaryOperator::USub => "-"@ + repr(*operand),
            UnaryOperator::UAdd => "+"@ + repr(*operand),
            _ => repr(*operand),
        },
        PyExpr::Tuple(elts) => join(reprs(elts@), "-"@),
        PyExpr::List(elts) => join(reprs(elts@), "-"@),
        PyExpr::Dict(items) => "{"@ + join(item_reprs(items@), ", "@) + "}"@,
        PyExpr::Call(c) => {
            let chain = attr_chain(c.func);
            let name = if chain.len() == 0 {
                "call"@
            } else {
                join(chain, "."@)
            };
            call_text(name, reprs(c.args@))
        },
        PyExpr::Attribute(v, a) => repr(*v) + "."@ + a@,
        PyExpr::FString(parts) => join(parts@.map_values(|p: FStringPiece| fstring_part_text(p)), ""@),
        PyExpr::Lambda => "<lambda>"@,
        PyExpr::SetDisplay(elts) => "{"@ + join(reprs(elts@), ", "@) + "}"@,
        PyExpr::Other(t) => shortened_text(t@),
    }
}

pub open spec fn reprs(s: Seq<PyExpr>) -> Seq<Seq<char>>
    decreases s,
{
    if s.len() == 0 {
        Seq::empty()
    } else {
        reprs(s.drop_last()).push(repr(s.last()))
    }
}

/// `key: value` for each dictionary entry; a `**mapping` entry has an empty key.
pub open spec fn item_reprs(s: Seq<PyDictItem>) -> Seq<Seq<char>>
    decreases s,
{
    if s.len() == 0 {
        Seq::empty()
    } else {
        let item = s.last();
        let key = match item.key {
            Some(k) => repr(k),
            None => Seq::empty(),
        };
        item_reprs(s.drop_last()).push(key + ": "@ + repr(item.value))
    }
}


/// The text that stands for an expression of a kind ids show by its debug
/// text, as UTF-8 bytes: text longer than 50 bytes is cut to its first 47
/// bytes followed by `...`.
pub open spec fn shortened_bytes(text: Seq<u8>) -> Seq<u8> {
    if text.len() > 50 {
        text.subrange(0, 47) + encode_utf8("..."@)
    } else {
        text
    }
}

proof fn lemma_encode_concat(a: Seq<char>, b: Seq<char>)
    ensures
        encode_utf8(a + b) == encode_utf8(a) + encode_utf8(b),
    decreases a.len(),
{
    if a.len() == 0 {
        assert(a + b =~= b);
        assert(encode_utf8(a) + encode_utf8(b) =~= encode_utf8(b));
    } else {
        lemma_encode_concat(a.drop_first(), b);
        assert((a + b).drop_first() =~= a.drop_first() + b);
        assert((a + b)[0] == a[0]);
        assert(encode_scalar(a[0] as u32) + (encode_utf8(a.drop_first()) + encode_utf8(b))
            =~= (encode_scalar(a[0] as u32) + encode_utf8(a.drop_first())) + encode_utf8(b));
    }
}

/// The characters of `shortened_bytes`: the whole text, or the characters
/// of its first 47 bytes and `...`.
pub open spec fn shortened_text(text: Seq<char>) -> Seq<char> {
    if encode_utf8(text).len() > 50 {
        decode_utf8(encode_utf8(text).subrange(0, 47)) + "..."@
    } else {
        text
    }
}

/// A debug text that can be shortened: when it is longer than 50 bytes,
/// byte 47 starts a character.
pub open spec fn cut_ok(text: Seq<char>) -> bool {
    encode_utf8(text).len() > 50 ==> is_char_boundary(encode_utf8(text), 47)
}

/// Every debug text inside `e` can be shortened.
pub open spec fn expr_cuttable(e: PyExpr) -> bool
    decreases e,
{
    match e {
        PyExpr::Other(t) => cut_ok(t@),
        PyExpr::Attribute(v, _) => expr_cuttable(*v),
        PyExpr::UnaryOp(_, o) => expr_cuttable(*o),
        PyExpr::Call(c) => {
            &&& expr_cuttable(c.func)
            &&& forall|i: int| 0 <= i < c.args@.len() ==> expr_cuttable(#[trigger] c.args@[i])
            &&& forall|i: int|
                0 <= i < c.keywords@.len() ==> expr_cuttable(#[trigger] c.keywords@[i].value)
        },
        PyExpr::Tuple(es) => forall|i: int| 0 <= i < es@.len() ==> expr_cuttable(#[trigger] es@[i]),
        PyExpr::List(es) => forall|i: int| 0 <= i < es@.len() ==> expr_cuttable(#[trigger] es@[i]),
        PyExpr::SetDisplay(es) => forall|i: int|
            0 <= i < es@.len() ==> expr_cuttable(#[trigger] es@[i]),
        PyExpr::Dict(items) => forall|i: int|
            0 <= i < items@.len() ==> {
                &&& (#[trigger] items@[i]).key matches Some(k) ==> expr_cuttable(k)
                &&& expr_cuttable(items@[i].value)
            },
        _ => true,
    }
}

/// Every debug text in the arguments of `c` can be shortened.
pub open spec fn call_cuttable(c: PyCall) -> bool {
    expr_cuttable(PyExpr::Call(Box::new(c)))
}

/// Shortens an expression's debug text for use in an id.  A cut that would
/// fall inside a character is not allowed.
pub fn shortened_debug_text(text: &str) -> (r: String)
    requires
        encode_utf8(text@).len() > 50 ==> is_char_boundary(encode_utf8(text@), 47),
    ensures
        encode_utf8(r@) == shortened_bytes(encode_utf8(text@)),
        r@ == shortened_text(text@),
{
    let n = text.as_bytes().len();
    if n > 50 {
        let (head, _) = text.split_at(47);
        let mut s = head.to_owned();
        push_str(&mut s, "...");
        proof {
            lemma_encode_concat(head@, "..."@);
            vstd::utf8::encode_utf8_decode_utf8(head@);
        }
        s
    } else {
        text.to_owned()
    }
}

/// The dotted name an attribute chain spells.
pub(crate) fn resolve_attr_chain(expr: &PyExpr) -> (r: Vec<String>)
    ensures
        strs(r@) == attr_chain(*expr),
    decreases expr,
{
    match expr {
        PyExpr::Attribute(value, attr) => {
            let mut chain = resolve_attr_chain(value);
            let ghost prev = chain@;
            chain.push(attr.clone());
            assert(strs(chain@) =~= strs(prev).push(attr@));
            chain
        },
        PyExpr::Name(id) => {
            let mut chain: Vec<String> = Vec::new();
            chain.push(id.clone());
            assert(strs(chain@) =~= seq![id@]);
            chain
        },
        _ => {
            let chain: Vec<String> = Vec::new();
            assert(strs(chain@) =~= Seq::<Seq<char>>::empty());
            chain
        },
    }
}

fn call_text_exec(name: String, args: &Vec<String>) -> (r: String)
    ensures
        r@ == call_text(name@, strs(args@)),
{
    let mut s = name;
    if args.len() == 0 {
        push_str(&mut s, "()");
    } else {
        push_str(&mut s, "(");
        let joined = join_strings(args, ", ");
        push_str(&mut s, joined.as_str());
        push_str(&mut s, ")");
    }
    s
}

fn bytes_text_exec(b: &Vec<u8>) -> (r: String)
    ensures
        r@ == bytes_text(b@),
{
    match utf8_to_string(b) {
        Some(s) => s,
        None => {
            let mut decs: Vec<String> = Vec::new();
            let mut i: usize = 0;
            while i < b.len()
                invariant
                    i <= b@.len(),
                    decs@.len() == i,
                    forall|k: int| 0 <= k < i ==> #[trigger] decs@[k]@ == decimal(b@[k] as nat),
                decreases b@.len() - i,
            {
                decs.push(decimal_string(b[i] as u64));
                i += 1;
            }
            assert(strs(decs@) =~= b@.map_values(|x: u8| decimal(x as nat)));
            let mut s = lit("[");
            let joined = join_strings(&decs, ", ");
            push_str(&mut s, joined.as_str());
            push_str(&mut s, "]");
            s
        },
    }
}

fn float_text_exec(t: &String) -> (r: String)
    ensures
        r@ == float_text(t@),
{
    let v = chars_of(t.as_str());
    let mut s = t.clone();
    if !has_char(&v, '.') {
        push_str(&mut s, ".0");
    }
    s
}

fn fstring_text(parts: &Vec<FStringPiece>) -> (r: String)
    ensures
        r@ == join(parts@.map_values(|p: FStringPiece| fstring_part_text(p)), ""@),
{
    let mut texts: Vec<String> = Vec::new();
    let mut i: usize = 0;
    while i < parts.len()
        invariant
            i <= parts@.len(),
            texts@.len() == i,
            forall|k: int| 0 <= k < i ==> #[trigger] texts@[k]@ == fstring_part_text(parts@[k]),
        decreases parts@.len() - i,
    {
        let t = match &parts[i] {
            FStringPiece::Literal(s) => s.clone(),
            FStringPiece::Formatted => lit("<fstring>"),
        };
        texts.push(t);
        i += 1;
    }
    assert(strs(texts@) =~= parts@.map_values(|p: FStringPiece| fstring_part_text(p)));
    join_strings(&texts, "")
}

/// The text that stands for a parameter value in a test id.
fn value_repr(expr: &PyExpr) -> (r: String)
    requires
        expr_cuttable(*expr),
    ensures
        r@ == repr(*expr),
    decreases expr,
{
    match expr {
        PyExpr::Int(t) => t.clone(),
        PyExpr::Float(t) => float_text_exec(t),
        PyExpr::Complex(re, im) => {
            let mut s = re.clone();
            push_str(&mut s, "+");
            push_str(&mut s, im.as_str());
            push_str(&mut s, "j");
            s
        },
        PyExpr::StringLiteral(s) => s.clone(),
        PyExpr::BytesLiteral(b) => bytes_text_exec(b),
        PyExpr::BooleanLiteral(b) => if *b {
            lit("True")
        } else {
            lit("False")
        },
        PyExpr::NoneLiteral => lit("None"),
        PyExpr::Name(n) => n.clone(),
        PyExpr::UnaryOp(op, operand) => {
            let inner = value_repr(operand);
            match op {
                UnaryOperator::USub => {
                    let mut s = lit("-");
                    push_str(&mut s, inner.as_str());
                    s
                },
                UnaryOperator::UAdd => {
                    let mut s = lit("+");
                    push_str(&mut s, inner.as_str());
                    s
                },
                _ => inner,
            }
        },
        PyExpr::Tuple(elts) => join_strings(&value_reprs(elts), "-"),
        PyExpr::List(elts) => join_strings(&value_reprs(elts), "-"),
        PyExpr::Dict(items) => {
            let mut s = lit("{");
            let joined = join_strings(&dict_item_reprs(items), ", ");
            push_str(&mut s, joined.as_str());
            push_str(&mut s, "}");
            s
        },
        PyExpr::Call(call) => {
            let chain = resolve_attr_chain(&call.func);
            let name = if chain.len() == 0 {
                lit("call")
            } else {
                join_strings(&chain, ".")
            };
            call_text_exec(name, &value_reprs(&call.args))
        },
        PyExpr::Attribute(value, attr) => {
            let mut s = value_repr(value);
            push_str(&mut s, ".");
            push_str(&mut s, attr.as_str());
            s
        },
        PyExpr::FString(parts) => fstring_text(parts),
        PyExpr::Lambda => lit("<lambda>"),
        PyExpr::SetDisplay(elts) => {
            let mut s = lit("{");
            let joined = join_strings(&value_reprs(elts), ", ");
            push_str(&mut s, joined.as_str());
            push_str(&mut s, "}");
            s
        },
        PyExpr::Other(t) => shortened_debug_text(t.as_str()),
    }
}

fn value_reprs(elts: &Vec<PyExpr>) -> (r: Vec<String>)
    requires
        forall|i: int| 0 <= i < elts@.len() ==> expr_cuttable(#[trigger] elts@[i]),
    ensures
        strs(r@) == reprs(elts@),
    decreases elts,
{
    let mut r: Vec<String> = Vec::new();
    let mut i: usize = 0;
    while i < elts.len()
        invariant
            i <= elts@.len(),
            strs(r@) == reprs(elts@.take(i as int)),
            forall|k: int| 0 <= k < elts@.len() ==> expr_cuttable(#[trigger] elts@[k]),
        decreases elts@.len() - i,
    {
        let s = value_repr(&elts[i]);
        let ghost prev = r@;
        r.push(s);
        i += 1;
        proof {
            assert(elts@.take(i as int).drop_last() =~= elts@.take(i - 1));
            assert(strs(r@) =~= strs(prev).push(s@));
        }
    }
    assert(elts@.take(elts@.len() as int) =~= elts@);
    r
}

fn dict_item_reprs(items: &Vec<PyDictItem>) -> (r: Vec<String>)
    requires
        forall|i: int|
            0 <= i < items@.len() ==> {
                &&& (#[trigger] items@[i]).key matches Some(k) ==> expr_cuttable(k)
                &&& expr_cuttable(items@[i].value)
            },
    ensures
        strs(r@) == item_reprs(items@),
    decreases items,
{
    let mut r: Vec<String> = Vec::new();
    let mut i: usize = 0;
    while i < items.len()
        invariant
            i <= items@.len(),
            strs(r@) == item_reprs(items@.take(i as int)),
            forall|k: int|
                0 <= k < items@.len() ==> {
                    &&& (#[trigger] items@[k]).key matches Some(kk) ==> expr_cuttable(kk)
                    &&& expr_cuttable(items@[k].value)
                },
        decreases items@.len() - i,
    {
        let item = &items[i];
        let mut s = match &item.key {
            Some(k) => value_repr(k),
            None => String::new(),
        };
        push_str(&mut s, ": ");
        let v = value_repr(&item.value);
        push_str(&mut s, v.as_str());
        let ghost prev = r@;
        r.push(s);
        i += 1;
        proof {
            assert(items@.take(i as int).drop_last() =~= items@.take(i - 1));
            assert(strs(r@) =~= strs(prev).push(s@));
        }
    }
    assert(items@.take(items@.len() as int) =~= items@);
    r
}


// ---------------------------------------------------------------------------
// Reading a `parametrize` call
// ---------------------------------------------------------------------------

/// The values of the string literals among `elts`, in order.
pub open spec fn string_lits(elts: Seq<PyExpr>) -> Seq<Seq<char>>
    decreases elts.len(),
{
    if elts.len() == 0 {
        Seq::empty()
    } else {
        let rest = string_lits(elts.drop_last());
        match elts.last() {
            PyExpr::StringLiteral(s) => rest.push(s@),
            _ => rest,
        }
    }
}

/// The string literals among `elts`, or `None` when there are none.
pub open spec fn string_list(elts: Seq<PyExpr>) -> Option<Seq<Seq<char>>> {
    let names = string_lits(elts);
    if names.len() == 0 {
        None
    } else {
        Some(names)
    }
}

pub open spec fn trim_fn() -> spec_fn(Seq<char>) -> Seq<char> {
    |p: Seq<char>| trim(p)
}

pub open spec fn nonempty_fn() -> spec_fn(Seq<char>) -> bool {
    |p: Seq<char>| p.len() > 0
}

/// The argument names of `parametrize`: a comma-separated string (each name
/// trimmed, empty ones dropped), or a list or tuple of string literals.
pub open spec fn param_names(e: PyExpr) -> Option<Seq<Seq<char>>> {
    match e {
        PyExpr::StringLiteral(s) => {
            let names = split_char(s@, ',').map_values(trim_fn()).filter(nonempty_fn());
            if names.len() == 0 {
                None
            } else {
                Some(names)
            }
        },
        PyExpr::List(elts) => string_list(elts@),
        PyExpr::Tuple(elts) => string_list(elts@),
        _ => None,
    }
}

/// The strings of an explicit `ids=` list or tuple.
pub open spec fn explicit_ids(e: PyExpr) -> Option<Seq<Seq<char>>> {
    match e {
        PyExpr::List(elts) => string_list(elts@),
        PyExpr::Tuple(elts) => string_list(elts@),
        _ => None,
    }
}

pub open spec fn is_keyword_named(kw: PyKeyword, name: Seq<char>) -> bool {
    kw.arg matches Some(a) && a@ == name
}

/// The ids of the first `ids=` keyword, from index `i` on, that holds
/// string literals.
pub open spec fn ids_keyword_from(kws: Seq<PyKeyword>, i: int) -> Option<Seq<Seq<char>>>
    decreases kws.len() - i,
{
    if i < 0 || i >= kws.len() {
        None
    } else if is_keyword_named(kws[i], "ids"@) && explicit_ids(kws[i].value) is Some {
        explicit_ids(kws[i].value)
    } else {
        ids_keyword_from(kws, i + 1)
    }
}

/// The string of the first `id=` keyword, from index `i` on, whose value is
/// a string literal.
pub open spec fn id_keyword_from(kws: Seq<PyKeyword>, i: int) -> Option<Seq<char>>
    decreases kws.len() - i,
{
    if i < 0 || i >= kws.len() {
        None
    } else if is_keyword_named(kws[i], "id"@) && kws[i].value is StringLiteral {
        Some(kws[i].value->StringLiteral_0@)
    } else {
        id_keyword_from(kws, i + 1)
    }
}

/// The id of one parameter case.
pub open spec fn case_id(e: PyExpr) -> Seq<char> {
    match e {
        PyExpr::Tuple(elts) => join(reprs(elts@), "-"@),
        PyExpr::Call(c) => {
            let chain = attr_chain(c.func);
            if chain.len() > 0 && chain.last() == "param"@ {
                match id_keyword_from(c.keywords@, 0) {
                    Some(id) => id,
                    None => join(reprs(c.args@), "-"@),
                }
            } else {
                let name = if chain.len() == 0 {
                    Seq::empty()
                } else {
                    chain.last()
                };
                call_text(name, reprs(c.args@))
            }
        },
        _ => repr(e),
    }
}

/// The case ids before deduplication: explicit `ids=`, else one per case of
/// a list or tuple of values.
pub open spec fn raw_case_ids(call: PyCall, values: PyExpr) -> Seq<Seq<char>> {
    match ids_keyword_from(call.keywords@, 0) {
        Some(ids) => ids,
        None => match values {
            PyExpr::List(elts) => elts@.map_values(|c: PyExpr| case_id(c)),
            PyExpr::Tuple(elts) => elts@.map_values(|c: PyExpr| case_id(c)),
            _ => Seq::empty(),
        },
    }
}

/// Number of occurrences of `x` in `s`.
pub open spec fn count_eq(s: Seq<Seq<char>>, x: Seq<char>) -> nat
    decreases s.len(),
{
    if s.len() == 0 {
        0
    } else {
        count_eq(s.drop_last(), x) + if s.last() == x {
            1nat
        } else {
            0nat
        }
    }
}

/// pytest's disambiguation: every id that occurs more than once gets the
/// number of its earlier occurrences appended (`a`, `a` becomes `a0`, `a1`).
pub open spec fn dedup(ids: Seq<Seq<char>>) -> Seq<Seq<char>> {
    Seq::new(
        ids.len(),
        |i: int|
            if count_eq(ids, ids[i]) > 1 {
                ids[i] + decimal(count_eq(ids.take(i), ids[i]))
            } else {
                ids[i]
            },
    )
}

/// What a `parametrize(names, values, ...)` call declares; `None` when it has
/// fewer than two positional arguments or no readable names.
pub open spec fn parametrize_of(call: PyCall) -> Option<ParamView> {
    if call.args@.len() < 2 {
        None
    } else {
        match param_names(call.args@[0]) {
            None => None,
            Some(names) => Some(
                ParamView { arg_names: names, case_ids: dedup(raw_case_ids(call, call.args@[1])) },
            ),
        }
    }
}


fn extract_string_list(elts: &Vec<PyExpr>) -> (r: Option<Vec<String>>)
    ensures
        match r {
            Some(v) => string_list(elts@) == Some(strs(v@)),
            None => string_list(elts@) is None,
        },
{
    let mut names: Vec<String> = Vec::new();
    let mut i: usize = 0;
    while i < elts.len()
        invariant
            i <= elts@.len(),
            strs(names@) == string_lits(elts@.take(i as int)),
        decreases elts@.len() - i,
    {
        let ghost prev = names@;
        if let PyExpr::StringLiteral(s) = &elts[i] {
            names.push(s.clone());
            assert(strs(names@) =~= strs(prev).push(s@));
        }
        i += 1;
        assert(elts@.take(i as int).drop_last() =~= elts@.take(i - 1));
    }
    assert(elts@.take(elts@.len() as int) =~= elts@);
    if names.len() == 0 {
        None
    } else {
        Some(names)
    }
}

fn split_names(s: &String) -> (r: Vec<String>)
    ensures
        strs(r@) == split_char(s@, ',').map_values(trim_fn()).filter(nonempty_fn()),
{
    let v = chars_of(s.as_str());
    let ghost whole = split_char(v@, ',');
    let ghost mut done: Seq<Seq<char>> = Seq::empty();
    let mut out: Vec<String> = Vec::new();
    let mut i: usize = 0;
    loop
        invariant
            i <= v@.len(),
            whole == split_char(v@, ','),
            v@ == s@,
            done + split_char_from(v@, ',', i as int) == whole,
            strs(out@) == done.map_values(trim_fn()).filter(nonempty_fn()),
        decreases v@.len() - i,
    {
        let e = find_char_from(&v, ',', i);
        proof {
            lemma_next_char_bounds(v@, ',', i as int);
        }
        let (a, b) = trim_bounds(&v, i, e);
        let ghost piece = v@.subrange(i as int, e as int);
        let ghost prev = out@;
        if a < b {
            out.push(string_from_range(&v, a, b));
            assert(strs(out@) =~= strs(prev).push(trim(piece)));
        }
        proof {
            assert(done.push(piece).map_values(trim_fn()) =~= done.map_values(trim_fn()).push(
                trim(piece),
            ));
            done.map_values(trim_fn()).lemma_filter_push(trim(piece), nonempty_fn());
            assert(strs(out@) == done.push(piece).map_values(trim_fn()).filter(nonempty_fn()));
            assert(split_char_from(v@, ',', i as int) =~= if e >= v@.len() {
                seq![piece]
            } else {
                seq![piece] + split_char_from(v@, ',', e + 1)
            });
            done = done.push(piece);
        }
        if e == v.len() {
            assert(done =~= whole);
            return out;
        }
        i = e + 1;
        assert(done + split_char_from(v@, ',', i as int) =~= whole);
    }
}

fn parse_param_names(expr: &PyExpr) -> (r: Option<Vec<String>>)
    ensures
        match r {
            Some(v) => param_names(*expr) == Some(strs(v@)),
            None => param_names(*expr) is None,
        },
{
    match expr {
        PyExpr::StringLiteral(s) => {
            let names = split_names(s);
            if names.len() == 0 {
                None
            } else {
                Some(names)
            }
        },
        PyExpr::List(elts) => extract_string_list(elts),
        PyExpr::Tuple(elts) => extract_string_list(elts),
        _ => None,
    }
}

fn extract_explicit_ids(expr: &PyExpr) -> (r: Option<Vec<String>>)
    ensures
        match r {
            Some(v) => explicit_ids(*expr) == Some(strs(v@)),
            None => explicit_ids(*expr) is None,
        },
{
    match expr {
        PyExpr::List(elts) => extract_string_list(elts),
        PyExpr::Tuple(elts) => extract_string_list(elts),
        _ => None,
    }
}

/// Whether the keyword is `name=...`.
pub(crate) fn keyword_named(kw: &PyKeyword, name: &str) -> (r: bool)
    ensures
        r == is_keyword_named(*kw, name@),
{
    match &kw.arg {
        Some(a) => str_eq(a.as_str(), name),
        None => false,
    }
}

#[verifier::loop_isolation(false)]
fn case_to_id(expr: &PyExpr) -> (r: String)
    requires
        expr_cuttable(*expr),
    ensures
        r@ == case_id(*expr),
{
    match expr {
        PyExpr::Tuple(elts) => join_strings(&value_reprs(elts), "-"),
        PyExpr::Call(call) => {
            let chain = resolve_attr_chain(&call.func);
            let n = chain.len();
            assert(n > 0 ==> strs(chain@).last() == chain@[n - 1]@);
            if n > 0 && str_eq(chain[n - 1].as_str(), "param") {
                let mut i: usize = 0;
                while i < call.keywords.len()
                    invariant
                        i <= call.keywords@.len(),
                        id_keyword_from(call.keywords@, 0) == id_keyword_from(
                            call.keywords@,
                            i as int,
                        ),
                    decreases call.keywords@.len() - i,
                {
                    let kw = &call.keywords[i];
                    if keyword_named(kw, "id") {
                        if let PyExpr::StringLiteral(s) = &kw.value {
                            assert(id_keyword_from(call.keywords@, i as int) == Some(s@));
                            return s.clone();
                        }
                    }
                    i += 1;
                }
                join_strings(&value_reprs(&call.args), "-")
            } else {
                let name = if n == 0 {
                    String::new()
                } else {
                    chain[n - 1].clone()
                };
                call_text_exec(name, &value_reprs(&call.args))
            }
        },
        _ => value_repr(expr),
    }
}

fn extract_case_ids(call: &PyCall, values_expr: &PyExpr) -> (r: Vec<String>)
    requires
        expr_cuttable(*values_expr),
    ensures
        strs(r@) == raw_case_ids(*call, *values_expr),
{
    let mut i: usize = 0;
    while i < call.keywords.len()
        invariant
            i <= call.keywords@.len(),
            ids_keyword_from(call.keywords@, 0) == ids_keyword_from(call.keywords@, i as int),
        decreases call.keywords@.len() - i,
    {
        let kw = &call.keywords[i];
        if keyword_named(kw, "ids") {
            if let Some(ids) = extract_explicit_ids(&kw.value) {
                return ids;
            }
        }
        i += 1;
    }
    match values_expr {
        PyExpr::List(elts) => case_ids_of(elts),
        PyExpr::Tuple(elts) => case_ids_of(elts),
        _ => {
            let v: Vec<String> = Vec::new();
            assert(strs(v@) =~= Seq::<Seq<char>>::empty());
            v
        },
    }
}

fn case_ids_of(cases: &Vec<PyExpr>) -> (r: Vec<String>)
    requires
        forall|i: int| 0 <= i < cases@.len() ==> expr_cuttable(#[trigger] cases@[i]),
    ensures
        strs(r@) == cases@.map_values(|c: PyExpr| case_id(c)),
{
    let mut r: Vec<String> = Vec::new();
    let mut i: usize = 0;
    while i < cases.len()
        invariant
            i <= cases@.len(),
            r@.len() == i,
            forall|k: int| 0 <= k < i ==> #[trigger] r@[k]@ == case_id(cases@[k]),
            forall|k: int| 0 <= k < cases@.len() ==> expr_cuttable(#[trigger] cases@[k]),
        decreases cases@.len() - i,
    {
        r.push(case_to_id(&cases[i]));
        i += 1;
    }
    assert(strs(r@) =~= cases@.map_values(|c: PyExpr| case_id(c)));
    r
}

/// Number of strings in `v[..upto]` equal to `x`.
fn count_equal(v: &Vec<String>, upto: usize, x: &String) -> (r: u64)
    requires
        upto <= v@.len(),
    ensures
        r == count_eq(strs(v@).take(upto as int), x@),
{
    let mut c: u64 = 0;
    let mut j: usize = 0;
    while j < upto
        invariant
            j <= upto <= v@.len(),
            c == count_eq(strs(v@).take(j as int), x@),
            c <= j,
        decreases upto - j,
    {
        let ghost before = strs(v@).take(j as int);
        if str_eq(v[j].as_str(), x.as_str()) {
            c += 1;
        }
        j += 1;
        assert(strs(v@).take(j as int).drop_last() =~= before);
    }
    c
}

/// Appends the number of earlier occurrences to every id that occurs more
/// than once, as pytest does for colliding ids.
fn deduplicate_ids(ids: &mut Vec<String>)
    ensures
        strs(final(ids)@) == dedup(strs(old(ids)@)),
{
    let ghost orig = strs(ids@);
    let mut out: Vec<String> = Vec::new();
    let mut i: usize = 0;
    while i < ids.len()
        invariant
            i <= ids@.len(),
            orig == strs(ids@),
            out@.len() == i,
            forall|k: int| 0 <= k < i ==> #[trigger] out@[k]@ == dedup(orig)[k],
        decreases ids@.len() - i,
    {
        let total = count_equal(ids, ids.len(), &ids[i]);
        assert(strs(ids@).take(ids@.len() as int) =~= orig);
        let mut id = ids[i].clone();
        if total > 1 {
            let before = count_equal(ids, i, &ids[i]);
            push_decimal(&mut id, before);
        }
        out.push(id);
        i += 1;
    }
    assert(strs(out@) =~= dedup(orig));
    *ids = out;
}

/// Reads `@pytest.mark.parametrize(names, values, ids=...)`.
pub fn parse_parametrize_call(call: &PyCall) -> (r: Option<ParametrizeArgs>)
    requires
        call_cuttable(*call),
    ensures
        match r {
            Some(p) => parametrize_of(*call) == Some(p@),
            None => parametrize_of(*call) is None,
        },
{
    if call.args.len() < 2 {
        return None;
    }
    let arg_names = match parse_param_names(&call.args[0]) {
        Some(n) => n,
        None => return None,
    };
    let mut case_ids = extract_case_ids(call, &call.args[1]);
    deduplicate_ids(&mut case_ids);
    Some(ParametrizeArgs { arg_names, case_ids })
}


// ---------------------------------------------------------------------------
// Expanding stacked parametrize decorators into test ids
// ---------------------------------------------------------------------------

/// A case id appended to the ids combined so far, separated by `-`.
pub open spec fn join_id(existing: Seq<char>, case: Seq<char>) -> Seq<char> {
    if existing.len() == 0 {
        case
    } else {
        existing + "-"@ + case
    }
}

/// Every id of `acc` (outer) combined with every case of `cases` (inner).
pub open spec fn combine(acc: Seq<Seq<char>>, cases: Seq<Seq<char>>) -> Seq<Seq<char>>
    decreases acc.len(),
{
    if acc.len() == 0 {
        Seq::empty()
    } else {
        combine(acc.drop_last(), cases) + cases.map_values(|c: Seq<char>| join_id(acc.last(), c))
    }
}

/// The bracket contents produced by the decorators `params`, top to bottom;
/// a decorator without cases contributes nothing.
pub open spec fn combined(params: Seq<ParamView>) -> Seq<Seq<char>>
    decreases params.len(),
{
    if params.len() == 0 {
        seq![Seq::empty()]
    } else {
        let prev = combined(params.drop_last());
        let cases = params.last().case_ids;
        if cases.len() == 0 {
            prev
        } else {
            combine(prev, cases)
        }
    }
}

pub open spec fn bracketed(base: Seq<char>) -> spec_fn(Seq<char>) -> Seq<char> {
    |s: Seq<char>| base + "["@ + s + "]"@
}

/// The node ids of a test with base id `base` and parametrize decorators
/// `params`.
pub open spec fn expanded_ids(base: Seq<char>, params: Seq<ParamView>) -> Seq<Seq<char>> {
    if params.len() == 0 {
        seq![base]
    } else {
        dedup(combined(params).map_values(bracketed(base)))
    }
}

fn join_id_exec(existing: &String, case: &String) -> (r: String)
    ensures
        r@ == join_id(existing@, case@),
{
    if existing.as_str().is_empty() {
        case.clone()
    } else {
        let mut s = existing.clone();
        push_str(&mut s, "-");
        push_str(&mut s, case.as_str());
        s
    }
}

fn combine_exec(acc: &Vec<String>, cases: &Vec<String>) -> (r: Vec<String>)
    ensures
        strs(r@) == combine(strs(acc@), strs(cases@)),
{
    let mut out: Vec<String> = Vec::new();
    let mut e: usize = 0;
    while e < acc.len()
        invariant
            e <= acc@.len(),
            strs(out@) == combine(strs(acc@).take(e as int), strs(cases@)),
        decreases acc@.len() - e,
    {
        let ghost before = strs(out@);
        let mut c: usize = 0;
        while c < cases.len()
            invariant
                e < acc@.len(),
                c <= cases@.len(),
                strs(out@) == before + strs(cases@).take(c as int).map_values(
                    |x: Seq<char>| join_id(acc@[e as int]@, x),
                ),
            decreases cases@.len() - c,
        {
            let ghost prev = strs(out@);
            let joined = join_id_exec(&acc[e], &cases[c]);
            let ghost f = |x: Seq<char>| join_id(acc@[e as int]@, x);
            out.push(joined);
            proof {
                assert(strs(out@) =~= prev.push(joined@));
                assert(strs(cases@).take(c + 1).map_values(f) =~= strs(cases@).take(
                    c as int,
                ).map_values(f).push(f(cases@[c as int]@)));
            }
            c += 1;
        }
        e += 1;
        proof {
            assert(strs(acc@).take(e as int).drop_last() =~= strs(acc@).take(e - 1));
            assert(strs(cases@).take(cases@.len() as int) =~= strs(cases@));
        }
    }
    assert(strs(acc@).take(acc@.len() as int) =~= strs(acc@));
    out
}

/// The node ids of a test with base id `base_id` and parametrize decorators
/// `params`: one id per combination of cases, the topmost decorator's case
/// first, colliding ids disambiguated.
pub fn expand_parametrize(base_id: &str, params: &[ParametrizeArgs]) -> (r: Vec<String>)
    ensures
        strs(r@) == expanded_ids(base_id@, param_views(params@)),
{
    let mut out: Vec<String> = Vec::new();
    if params.len() == 0 {
        out.push(lit(base_id));
        assert(strs(out@) =~= seq![base_id@]);
        return out;
    }
    let mut combined_ids: Vec<String> = Vec::new();
    combined_ids.push(String::new());
    assert(strs(combined_ids@) =~= combined(param_views(params@).take(0)));
    let mut p: usize = 0;
    while p < params.len()
        invariant
            p <= params@.len(),
            strs(combined_ids@) == combined(param_views(params@).take(p as int)),
        decreases params@.len() - p,
    {
        let param = &params[p];
        if param.case_ids.len() > 0 {
            combined_ids = combine_exec(&combined_ids, &param.case_ids);
        }
        p += 1;
        assert(param_views(params@).take(p as int).drop_last() =~= param_views(params@).take(
            p - 1,
        ));
    }
    assert(param_views(params@).take(params@.len() as int) =~= param_views(params@));
    let mut i: usize = 0;
    while i < combined_ids.len()
        invariant
            i <= combined_ids@.len(),
            out@.len() == i,
            forall|k: int|
                0 <= k < i ==> #[trigger] out@[k]@ == bracketed(base_id@)(combined_ids@[k]@),
        decreases combined_ids@.len() - i,
    {
        let mut s = lit(base_id);
        push_str(&mut s, "[");
        push_str(&mut s, combined_ids[i].as_str());
        push_str(&mut s, "]");
        out.push(s);
        i += 1;
    }
    assert(strs(out@) =~= strs(combined_ids@).map_values(bracketed(base_id@)));
    deduplicate_ids(&mut out);
    out
}


// ---------------------------------------------------------------------------
// Laws
// ---------------------------------------------------------------------------

/// The number of cases a decorator contributes to the combinations: its
/// case count, or one when it has none.
pub open spec fn case_product(params: Seq<ParamView>) -> nat
    decreases params.len(),
{
    if params.len() == 0 {
        1
    } else {
        let n = params.last().case_ids.len();
        case_product(params.drop_last()) * if n == 0 {
            1
        } else {
            n
        }
    }
}

proof fn lemma_combine_len(acc: Seq<Seq<char>>, cases: Seq<Seq<char>>)
    ensures
        combine(acc, cases).len() == acc.len() * cases.len(),
    decreases acc.len(),
{
    if acc.len() > 0 {
        lemma_combine_len(acc.drop_last(), cases);
        assert((acc.len() - 1) * cases.len() + cases.len() == acc.len() * cases.len())
            by (nonlinear_arith);
    }
}

/// Combining is row-major: the id for outer index `i` and inner case `j`
/// stands at `i * cases.len() + j`, so the lower decorator's cases vary
/// fastest and the upper decorator's case comes first in each id.
pub proof fn law_combine_order(acc: Seq<Seq<char>>, cases: Seq<Seq<char>>, i: int, j: int)
    requires
        0 <= i < acc.len(),
        0 <= j < cases.len(),
    ensures
        combine(acc, cases).len() == acc.len() * cases.len(),
        combine(acc, cases)[i * cases.len() + j] == join_id(acc[i], cases[j]),
    decreases acc.len(),
{
    lemma_combine_len(acc, cases);
    let n = acc.len();
    let m = cases.len();
    let init = acc.drop_last();
    lemma_combine_len(init, cases);
    if i == n - 1 {
        assert(i * m + j == (n - 1) * m + j);
        assert(acc.last() == acc[i]);
    } else {
        law_combine_order(init, cases, i, j);
        assert(i * m + j < (n - 1) * m) by (nonlinear_arith)
            requires
                0 <= i < n - 1,
                0 <= j < m,
        ;
        assert(init[i] == acc[i]);
    }
}

proof fn lemma_combined_len(params: Seq<ParamView>)
    ensures
        combined(params).len() == case_product(params),
    decreases params.len(),
{
    if params.len() > 0 {
        lemma_combined_len(params.drop_last());
        lemma_combine_len(combined(params.drop_last()), params.last().case_ids);
    }
}

/// Stacked parametrize decorators yield one test id per combination of
/// their cases: the product of the decorators' case counts, a decorator
/// without cases counting as one.
pub proof fn law_expansion_count(base: Seq<char>, params: Seq<ParamView>)
    ensures
        expanded_ids(base, params).len() == case_product(params),
{
    lemma_combined_len(params);
}

proof fn lemma_count_eq_distinct(ids: Seq<Seq<char>>, i: int)
    requires
        0 <= i < ids.len(),
        forall|a: int, b: int| 0 <= a < b < ids.len() ==> ids[a] != ids[b],
    ensures
        count_eq(ids, ids[i]) == 1,
    decreases ids.len(),
{
    if i < ids.len() - 1 {
        lemma_count_eq_distinct(ids.drop_last(), i);
    } else {
        lemma_count_eq_absent(ids.drop_last(), ids[i]);
    }
}

proof fn lemma_count_eq_absent(ids: Seq<Seq<char>>, x: Seq<char>)
    requires
        !ids.contains(x),
    ensures
        count_eq(ids, x) == 0,
    decreases ids.len(),
{
    if ids.len() > 0 {
        assert(!ids.drop_last().contains(x)) by {
            if ids.drop_last().contains(x) {
                let k = choose|k: int| 0 <= k < ids.drop_last().len() && ids.drop_last()[k] == x;
                assert(ids[k] == x);
            }
        }
        lemma_count_eq_absent(ids.drop_last(), x);
        assert(ids.last() != x) by {
            assert(ids[ids.len() - 1] == ids.last());
        }
    }
}

/// Ids that are already distinct are left as they are.
pub proof fn law_dedup_keeps_distinct_ids(ids: Seq<Seq<char>>)
    requires
        forall|a: int, b: int| 0 <= a < b < ids.len() ==> ids[a] != ids[b],
    ensures
        dedup(ids) == ids,
{
    assert forall|i: int| 0 <= i < ids.len() implies dedup(ids)[i] == ids[i] by {
        lemma_count_eq_distinct(ids, i);
    }
    assert(dedup(ids) =~= ids);
}

/// Deduplication keeps the number of ids.
pub proof fn law_dedup_len(ids: Seq<Seq<char>>)
    ensures
        dedup(ids).len() == ids.len(),
{
}


proof fn lemma_decimal_nonempty(n: nat)
    ensures
        decimal(n).len() >= 1,
        n >= 10 ==> decimal(n).len() >= 2,
    decreases n,
{
    if n >= 10 {
        lemma_decimal_nonempty(n / 10);
    }
}

proof fn lemma_digit_injective(a: nat, b: nat)
    requires
        a < 10,
        b < 10,
        digit_char(a) == digit_char(b),
    ensures
        a == b,
{
    assert(digit_char(a) as u32 == 48 + a);
    assert(digit_char(b) as u32 == 48 + b);
}

proof fn lemma_decimal_injective(a: nat, b: nat)
    requires
        decimal(a) == decimal(b),
    ensures
        a == b,
    decreases a,
{
    lemma_decimal_nonempty(a);
    lemma_decimal_nonempty(b);
    if a < 10 && b < 10 {
        assert(decimal(a)[0] == digit_char(a));
        assert(decimal(b)[0] == digit_char(b));
        lemma_digit_injective(a, b);
    } else if a >= 10 && b >= 10 {
        let da = decimal(a);
        let db = decimal(b);
        assert(da.last() == digit_char(a % 10));
        assert(db.last() == digit_char(b % 10));
        lemma_digit_injective(a % 10, b % 10);
        assert(da.drop_last() =~= decimal(a / 10));
        assert(db.drop_last() =~= decimal(b / 10));
        lemma_decimal_injective(a / 10, b / 10);
    }
}

proof fn lemma_count_grows(ids: Seq<Seq<char>>, i: int, j: int)
    requires
        0 <= i < j <= ids.len(),
    ensures
        count_eq(ids.take(j), ids[i]) >= count_eq(ids.take(i), ids[i]) + 1,
    decreases j,
{
    assert(ids.take(j).drop_last() =~= ids.take(j - 1));
    if j - 1 > i {
        lemma_count_grows(ids, i, j - 1);
    } else {
        assert(ids.take(j).last() == ids[i]);
    }
}

proof fn lemma_count_take_le(ids: Seq<Seq<char>>, j: int, x: Seq<char>)
    requires
        0 <= j <= ids.len(),
    ensures
        count_eq(ids.take(j), x) <= count_eq(ids, x),
    decreases ids.len() - j,
{
    if j < ids.len() {
        lemma_count_take_le(ids, j + 1, x);
        assert(ids.take(j + 1).drop_last() =~= ids.take(j));
    } else {
        assert(ids.take(j) =~= ids);
    }
}

/// Two occurrences of the same id get different ids.
pub proof fn law_dedup_separates_repeats(ids: Seq<Seq<char>>, i: int, j: int)
    requires
        0 <= i < j < ids.len(),
        ids[i] == ids[j],
    ensures
        dedup(ids)[i] != dedup(ids)[j],
{
    let x = ids[i];
    lemma_count_grows(ids, i, j);
    lemma_count_take_le(ids, j, x);
    lemma_count_grows(ids, j, ids.len() as int);
    assert(ids.take(ids.len() as int) =~= ids);
    let ci = count_eq(ids.take(i), x);
    let cj = count_eq(ids.take(j), x);
    assert(count_eq(ids, x) > 1);
    if dedup(ids)[i] == dedup(ids)[j] {
        assert((x + decimal(ci)).skip(x.len() as int) =~= decimal(ci));
        assert((x + decimal(cj)).skip(x.len() as int) =~= decimal(cj));
        lemma_decimal_injective(ci, cj);
    }
}

proof fn lemma_decimal_digits(n: nat)
    ensures
        forall|k: int| 0 <= k < decimal(n).len() ==> #[trigger] decimal(n)[k] != ']',
    decreases n,
{
    if n < 10 {
        assert(digit_char(n) as u32 == 48 + n);
    } else {
        lemma_decimal_digits(n / 10);
        assert(digit_char(n % 10) as u32 == 48 + n % 10);
        assert forall|k: int| 0 <= k < decimal(n).len() implies #[trigger] decimal(n)[k] != ']' by {
            if k < decimal(n).len() - 1 {
                assert(decimal(n)[k] == decimal(n / 10)[k]);
            }
        }
    }
}

/// Ids that each end in `]` stay pairwise distinct through deduplication,
/// since the numbers it appends hold no `]`.
proof fn lemma_dedup_bracketed_distinct(ids: Seq<Seq<char>>, a: int, b: int)
    requires
        0 <= a < b < ids.len(),
        forall|i: int| 0 <= i < ids.len() ==> #[trigger] ids[i].len() > 0 && ids[i].last() == ']',
    ensures
        dedup(ids)[a] != dedup(ids)[b],
{
    let x = ids[a];
    let y = ids[b];
    if x == y {
        law_dedup_separates_repeats(ids, a, b);
    } else {
        let da = dedup(ids)[a];
        let db = dedup(ids)[b];
        let ca = count_eq(ids.take(a), x);
        let cb = count_eq(ids.take(b), y);
        lemma_decimal_digits(ca);
        lemma_decimal_digits(cb);
        lemma_decimal_nonempty(ca);
        lemma_decimal_nonempty(cb);
        assert(x[x.len() - 1] == ']');
        assert(y[y.len() - 1] == ']');
        if da == db {
            // The last `]` of the shared text closes both bases.
            let lx = x.len() as int;
            let ly = y.len() as int;
            if count_eq(ids, x) > 1 {
                assert(da == x + decimal(ca));
                assert forall|k: int| lx <= k < da.len() implies #[trigger] da[k] != ']' by {
                    assert(da[k] == decimal(ca)[k - lx]);
                }
            } else {
                assert(da == x);
            }
            if count_eq(ids, y) > 1 {
                assert(db == y + decimal(cb));
                assert forall|k: int| ly <= k < db.len() implies #[trigger] db[k] != ']' by {
                    assert(db[k] == decimal(cb)[k - ly]);
                }
            } else {
                assert(db == y);
            }
            assert(da[lx - 1] == ']');
            assert(db[ly - 1] == ']');
            assert(lx == ly);
            assert(x =~= da.take(lx));
            assert(y =~= db.take(ly));
        }
    }
}

/// The node ids that one test expands to are pairwise distinct.
pub proof fn law_expanded_ids_distinct(base: Seq<char>, params: Seq<ParamView>)
    ensures
        forall|a: int, b: int|
            0 <= a < b < expanded_ids(base, params).len() ==> expanded_ids(base, params)[a]
                != expanded_ids(base, params)[b],
{
    if params.len() > 0 {
        let ids = combined(params).map_values(bracketed(base));
        assert forall|i: int| 0 <= i < ids.len() implies #[trigger] ids[i].len() > 0
            && ids[i].last() == ']' by {
            reveal_strlit("]");
            let t = base + "["@ + combined(params)[i];
            assert(ids[i] == t + "]"@);
            assert((t + "]"@)[t.len() as int] == "]"@[0]);
        }
        assert forall|a: int, b: int|
            0 <= a < b < expanded_ids(base, params).len() implies expanded_ids(base, params)[a]
                != expanded_ids(base, params)[b] by {
            lemma_dedup_bracketed_distinct(ids, a, b);
        }
    }
}

proof fn lemma_all_literals(elts: Seq<PyExpr>)
    requires
        forall|i: int| 0 <= i < elts.len() ==> #[trigger] elts[i] is StringLiteral,
    ensures
        string_lits(elts).len() == elts.len(),
        forall|i: int|
            0 <= i < elts.len() ==> (#[trigger] elts[i] matches PyExpr::StringLiteral(s)
                && string_lits(elts)[i] == s@),
    decreases elts.len(),
{
    if elts.len() > 0 {
        let init = elts.drop_last();
        assert forall|i: int| 0 <= i < init.len() implies #[trigger] init[i] is StringLiteral by {
            assert(init[i] == elts[i]);
        }
        lemma_all_literals(init);
        assert(elts.last() is StringLiteral);
        assert forall|i: int| 0 <= i < elts.len() implies (#[trigger] elts[i] matches PyExpr::StringLiteral(s)
            && string_lits(elts)[i] == s@) by {
            if i < elts.len() - 1 {
                assert(init[i] == elts[i]);
            }
        }
    }
}

/// A `parametrize` call whose first argument is a list or a tuple of string
/// literals declares exactly those strings, in order, as its argument names.
pub proof fn law_literal_sequence_names_arguments(call: PyCall, elts: Vec<PyExpr>)
    requires
        call.args@.len() >= 2,
        call.args@[0] == PyExpr::Tuple(elts) || call.args@[0] == PyExpr::List(elts),
        elts@.len() > 0,
        forall|i: int| 0 <= i < elts@.len() ==> #[trigger] elts@[i] is StringLiteral,
    ensures
        parametrize_of(call) matches Some(p) && p.arg_names.len() == elts@.len() && forall|i: int|
            0 <= i < elts@.len() ==> (#[trigger] elts@[i] matches PyExpr::StringLiteral(s)
                && p.arg_names[i] == s@),
{
    lemma_all_literals(elts@);
}

/// Without keywords, a `parametrize` call with readable names over a list
/// or tuple of values declares one case per value.
pub proof fn law_one_case_per_value(call: PyCall, elts: Vec<PyExpr>)
    requires
        call.args@.len() >= 2,
        param_names(call.args@[0]) is Some,
        call.keywords@.len() == 0,
        call.args@[1] == PyExpr::List(elts) || call.args@[1] == PyExpr::Tuple(elts),
    ensures
        parametrize_of(call) matches Some(p) && p.case_ids.len() == elts@.len(),
{
    assert(ids_keyword_from(call.keywords@, 0) is None);
}

/// An `ids=` list of distinct string literals names the cases: case `i`
/// gets the `i`-th string.
pub proof fn law_explicit_ids_name_cases(call: PyCall, kw: PyKeyword, ids: Vec<PyExpr>)
    requires
        call.args@.len() >= 2,
        param_names(call.args@[0]) is Some,
        call.keywords@ == seq![kw],
        kw.arg matches Some(name) && name@ == "ids"@,
        kw.value == PyExpr::List(ids) || kw.value == PyExpr::Tuple(ids),
        ids@.len() > 0,
        forall|i: int| 0 <= i < ids@.len() ==> #[trigger] ids@[i] is StringLiteral,
        forall|i: int, j: int|
            0 <= i < j < ids@.len() ==> ids@[i]->StringLiteral_0@ != ids@[j]->StringLiteral_0@,
    ensures
        parametrize_of(call) matches Some(p) && p.case_ids.len() == ids@.len() && forall|i: int|
            0 <= i < ids@.len() ==> (#[trigger] ids@[i] matches PyExpr::StringLiteral(s)
                && p.case_ids[i] == s@),
{
    lemma_all_literals(ids@);
    let names = string_lits(ids@);
    assert(explicit_ids(kw.value) == Some(names));
    assert(is_keyword_named(call.keywords@[0], "ids"@));
    assert(ids_keyword_from(call.keywords@, 0) == Some(names));
    assert forall|a: int, b: int| 0 <= a < b < names.len() implies names[a] != names[b] by {
        assert(ids@[a] is StringLiteral);
        assert(ids@[b] is StringLiteral);
    }
    law_dedup_keeps_distinct_ids(names);
}

/// A case written `pytest.param(..., id="x")` has the id `x`.
pub proof fn law_param_id_names_case(c: PyCall, kw: PyKeyword, x: String)
    requires
        attr_chain(c.func).len() > 0,
        attr_chain(c.func).last() == "param"@,
        c.keywords@ == seq![kw],
        kw.arg matches Some(name) && name@ == "id"@,
        kw.value == PyExpr::StringLiteral(x),
    ensures
        case_id(PyExpr::Call(Box::new(c))) == x@,
{
    assert(is_keyword_named(c.keywords@[0], "id"@));
    assert(id_keyword_from(c.keywords@, 0) == Some(x@));
}

/// A literal value is its own case id: a string gives its text, an integer
/// its digits, and a pair of strings the two joined by `-`.
pub proof fn law_literal_case_ids(a: String, b: String, elts: Vec<PyExpr>)
    requires
        elts@ == seq![PyExpr::StringLiteral(a), PyExpr::StringLiteral(b)],
    ensures
        case_id(PyExpr::StringLiteral(a)) == a@,
        case_id(PyExpr::Int(a)) == a@,
        case_id(PyExpr::Tuple(elts)) == a@ + "-"@ + b@,
{
    let e = elts@;
    assert(e.drop_last() =~= seq![PyExpr::StringLiteral(a)]);
    assert(e.drop_last().drop_last() =~= Seq::<PyExpr>::empty());
    assert(reprs(e.drop_last().drop_last()) == Seq::<Seq<char>>::empty());
    assert(repr(PyExpr::StringLiteral(a)) == a@);
    assert(repr(PyExpr::StringLiteral(b)) == b@);
    assert(e.drop_last().last() == PyExpr::StringLiteral(a));
    assert(e.last() == PyExpr::StringLiteral(b));
    assert(reprs(e.drop_last()) == reprs(e.drop_last().drop_last()).push(repr(e.drop_last().last())));
    assert(reprs(e) == reprs(e.drop_last()).push(repr(e.last())));
    assert(reprs(e.drop_last()) =~= seq![a@]);
    assert(reprs(e) =~= seq![a@, b@]);
    assert(reprs(e).drop_last() =~= seq![a@]);
    assert(join(seq![a@], "-"@) == a@);
    assert(join(reprs(e), "-"@) == join(seq![a@], "-"@) + "-"@ + b@);
}

} // verus!
