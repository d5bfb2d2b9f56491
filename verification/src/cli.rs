//! The decisions the command line makes from its arguments and from what
//! was collected.
use vstd::prelude::*;
use crate::parser::{TestItem, TestItemView, item_views};
use crate::paths::{components, path_components};
use crate::reporting::TbStyle;
use crate::text::{chars_of, decimal, lit, push_decimal, push_str, str_eq, strs};

verus! {

/// The traceback style `--tb` names; anything unknown is `short`.
pub open spec fn tb_style_of(s: Seq<char>) -> TbStyle {
    if s == "long"@ {
        TbStyle::Long
    } else if s == "line"@ {
        TbStyle::Line
    } else if s == "no"@ {
        TbStyle::No
    } else {
        TbStyle::Short
    }
}

pub fn tb_style_named(s: &str) -> (r: TbStyle)
    ensures
        r == tb_style_of(s@),
{
    if str_eq(s, "long") {
        TbStyle::Long
    } else if str_eq(s, "line") {
        TbStyle::Line
    } else if str_eq(s, "no") {
        TbStyle::No
    } else {
        TbStyle::Short
    }
}

/// `-q` gives -1; otherwise the number of `-v` flags.
pub fn verbosity_of(quiet: bool, verbose: u8) -> (r: i32)
    ensures
        r == (if quiet { -1i32 } else { verbose as i32 }),
{
    if quiet {
        -1
    } else {
        verbose as i32
    }
}

// ---------------------------------------------------------------------------
// Counting workers
// ---------------------------------------------------------------------------

pub open spec fn is_digit(c: char) -> bool {
    '0' <= c && c <= '9'
}

pub open spec fn digits_value(s: Seq<char>) -> nat
    decreases s.len(),
{
    if s.len() == 0 {
        0
    } else {
        digits_value(s.drop_last()) * 10 + ((s.last() as int) - ('0' as int)) as nat
    }
}

/// What `str::parse::<usize>` gives: decimal digits, optionally after a
/// `+`, whose value fits in `usize`.
/// The text after an optional leading `+`.
pub open spec fn unsigned_part(s: Seq<char>) -> Seq<char> {
    if s.len() > 0 && s[0] == '+' {
        s.skip(1)
    } else {
        s
    }
}

pub open spec fn parsed_count(s: Seq<char>) -> Option<usize> {
    let d = unsigned_part(s);
    if d.len() == 0 || !(forall|i: int| 0 <= i < d.len() ==> is_digit(#[trigger] d[i])) {
        None
    } else if digits_value(d) > usize::MAX {
        None
    } else {
        Some(digits_value(d) as usize)
    }
}

/// Parses a non-negative decimal count.
pub fn parse_count(s: &str) -> (r: Option<usize>)
    ensures
        r == parsed_count(s@),
{
    let v = chars_of(s);
    let start: usize = if v.len() > 0 && v[0] == '+' {
        1
    } else {
        0
    };
    let ghost d = unsigned_part(v@);
    assert(d =~= v@.skip(start as int));
    if start == v.len() {
        return None;
    }
    let mut value: u128 = 0;
    let mut overflow = false;
    let mut i = start;
    while i < v.len()
        invariant
            start <= i <= v@.len(),
            v@ == s@,
            d == unsigned_part(s@),
            d == v@.skip(start as int),
            forall|k: int| 0 <= k < i - start ==> is_digit(#[trigger] d[k]),
            !overflow ==> value == digits_value(d.take(i - start)) && value <= usize::MAX,
            overflow ==> digits_value(d.take(i - start)) > usize::MAX,
        decreases v@.len() - i,
    {
        let c = v[i];
        if !('0' <= c && c <= '9') {
            assert(!is_digit(d[i - start]));
            assert(!(forall|k: int| 0 <= k < d.len() ==> is_digit(#[trigger] d[k])));
            return None;
        }
        let digit = (c as u32 - '0' as u32) as u128;
        let ghost prev = digits_value(d.take(i - start));
        assert(d.take(i - start + 1).drop_last() =~= d.take(i - start));
        assert(d[i - start] == c);
        if !overflow {
            value = value * 10 + digit;
            if value > usize::MAX as u128 {
                overflow = true;
            }
        } else {
            assert(prev * 10 >= prev) by (nonlinear_arith);
        }
        i += 1;
    }
    assert(d.take(d.len() as int) =~= d);
    if overflow {
        None
    } else {
        Some(value as usize)
    }
}

/// Workers for `-n`: `auto` or `0` means one per CPU; a count is taken as
/// is; anything unparsable, or no `-n`, means one.
pub open spec fn workers_for(n: Option<Seq<char>>, cpus: usize) -> usize {
    match n {
        Some(s) => if s == "auto"@ || s == "0"@ {
            cpus
        } else {
            match parsed_count(s) {
                Some(k) => k,
                None => 1,
            }
        },
        None => 1,
    }
}

pub fn worker_count(n: Option<&str>, cpus: usize) -> (r: usize)
    ensures
        r == workers_for(
            match n {
                Some(s) => Some(s@),
                None => None,
            },
            cpus,
        ),
{
    match n {
        Some(s) => if str_eq(s, "auto") || str_eq(s, "0") {
            cpus
        } else {
            match parse_count(s) {
                Some(k) => k,
                None => 1,
            }
        },
        None => 1,
    }
}

// ---------------------------------------------------------------------------
// --collect-only
// ---------------------------------------------------------------------------

pub open spec fn count_line(n: nat) -> Seq<char> {
    decimal(n) + " tests collected.\n"@
}

/// `-q --collect-only`: the node ids, a blank line and the count.
pub open spec fn quiet_listing(items: Seq<TestItemView>) -> Seq<char>
    decreases items.len(),
{
    if items.len() == 0 {
        Seq::empty()
    } else {
        quiet_listing(items.drop_last()) + items.last().node_id + "\n"@
    }
}

/// The line(s) for item `k` of the tree listing: a `<Class>` line when it
/// starts a run of methods of that class, then its `<Function>` line.
pub open spec fn tree_lines(items: Seq<TestItemView>, k: int) -> Seq<char> {
    let item = items[k];
    match item.class_name {
        Some(c) => (if k == 0 || items[k - 1].class_name != Some(c) {
            "  <Class "@ + c + ">\n"@
        } else {
            Seq::empty()
        }) + "    <Function "@ + item.function_name + ">\n"@,
        None => "  <Function "@ + item.function_name + ">\n"@,
    }
}

pub open spec fn tree_listing(items: Seq<TestItemView>, n: int) -> Seq<char>
    decreases n,
{
    if n <= 0 {
        Seq::empty()
    } else {
        tree_listing(items, n - 1) + tree_lines(items, n - 1)
    }
}

/// What `--collect-only` prints.
pub open spec fn collect_only_text(items: Seq<TestItemView>, quiet: bool) -> Seq<char> {
    if quiet {
        quiet_listing(items) + "\n"@ + count_line(items.len())
    } else {
        "<Module>\n"@ + tree_listing(items, items.len() as int) + "\n"@ + count_line(items.len())
    }
}

fn opt_eq(a: &Option<String>, b: &Option<String>) -> (r: bool)
    ensures
        r == (crate::parser::opt_str_view(*a) == crate::parser::opt_str_view(*b)),
{
    match (a, b) {
        (Some(x), Some(y)) => str_eq(x.as_str(), y.as_str()),
        (None, None) => true,
        _ => false,
    }
}

pub fn collect_only_report(items: &Vec<TestItem>, quiet: bool) -> (r: String)
    ensures
        r@ == collect_only_text(item_views(items@), quiet),
{
    let ghost v = item_views(items@);
    let mut s = String::new();
    if quiet {
        let mut i: usize = 0;
        while i < items.len()
            invariant
                i <= items@.len(),
                v == item_views(items@),
                s@ == quiet_listing(v.take(i as int)),
            decreases items@.len() - i,
        {
            assert(v[i as int] == items@[i as int]@);
            push_str(&mut s, items[i].node_id.as_str());
            push_str(&mut s, "\n");
            i += 1;
            assert(v.take(i as int).drop_last() =~= v.take(i - 1));
        }
        assert(v.take(items@.len() as int) =~= v);
    } else {
        push_str(&mut s, "<Module>\n");
        let ghost head = s@;
        let mut i: usize = 0;
        while i < items.len()
            invariant
                i <= items@.len(),
                v == item_views(items@),
                s@ == head + tree_listing(v, i as int),
            decreases items@.len() - i,
        {
            let item = &items[i];
            assert(v[i as int] == item@);
            let ghost before = s@;
            match &item.class_name {
                Some(class) => {
                    let starts = if i == 0 {
                        true
                    } else {
                        assert(v[i - 1] == items@[i - 1]@);
                        !opt_eq(&items[i - 1].class_name, &item.class_name)
                    };
                    if starts {
                        push_str(&mut s, "  <Class ");
                        push_str(&mut s, class.as_str());
                        push_str(&mut s, ">\n");
                    }
                    push_str(&mut s, "    <Function ");
                    push_str(&mut s, item.function_name.as_str());
                    push_str(&mut s, ">\n");
                },
                None => {
                    push_str(&mut s, "  <Function ");
                    push_str(&mut s, item.function_name.as_str());
                    push_str(&mut s, ">\n");
                },
            }
            assert(s@ =~= before + tree_lines(v, i as int));
            i += 1;
        }
    }
    push_str(&mut s, "\n");
    push_decimal(&mut s, items.len() as u64);
    push_str(&mut s, " tests collected.\n");
    s
}

// ---------------------------------------------------------------------------
// --watch
// ---------------------------------------------------------------------------

/// The extension of a file name: the text after its last `.`, unless that
/// `.` is the name's first character.
pub open spec fn extension_of(name: Seq<char>) -> Option<Seq<char>> {
    let dot = last_dot(name, name.len() as int);
    if dot <= 0 {
        None
    } else {
        Some(name.skip(dot + 1))
    }
}

/// The index of the last `.` in `name[..n]`, or -1.
pub open spec fn last_dot(name: Seq<char>, n: int) -> int
    decreases n,
{
    if n <= 0 {
        -1
    } else if name[n - 1] == '.' {
        n - 1
    } else {
        last_dot(name, n - 1)
    }
}

/// A changed path is Python source when its last component is a file name
/// with extension `py`.
pub open spec fn is_python_source(path: Seq<char>) -> bool {
    let parts = components(path).1;
    &&& parts.len() > 0
    &&& parts.last() != "."@
    &&& parts.last() != ".."@
    &&& extension_of(parts.last()) == Some("py"@)
}

pub fn python_source_changed(paths: &Vec<String>) -> (r: bool)
    ensures
        r == exists|i: int| 0 <= i < paths@.len() && is_python_source(#[trigger] paths@[i]@),
{
    let mut i: usize = 0;
    while i < paths.len()
        invariant
            i <= paths@.len(),
            forall|k: int| 0 <= k < i ==> !is_python_source(#[trigger] paths@[k]@),
        decreases paths@.len() - i,
    {
        if is_python_path(paths[i].as_str()) {
            return true;
        }
        i += 1;
    }
    false
}

fn is_python_path(path: &str) -> (r: bool)
    ensures
        r == is_python_source(path@),
{
    let (_, parts) = path_components(path);
    let n = parts.len();
    if n == 0 {
        return false;
    }
    let last = &parts[n - 1];
    assert(strs(parts@).last() == last@);
    if str_eq(last.as_str(), ".") || str_eq(last.as_str(), "..") {
        return false;
    }
    let name = chars_of(last.as_str());
    let mut j = name.len();
    while j > 0 && name[j - 1] != '.'
        invariant
            j <= name@.len(),
            last_dot(name@, name@.len() as int) == last_dot(name@, j as int),
        decreases j,
    {
        j -= 1;
    }
    if j <= 1 {
        return false;
    }
    let dot = j - 1;
    let ext = crate::text::slice_chars(&name, dot + 1, name.len());
    assert(ext@ == name@.skip(dot + 1));
    let py = chars_of("py");
    crate::text::chars_eq(&ext, &py)
}

} // verus!
