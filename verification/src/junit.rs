//! JUnit XML for a finished run.
use vstd::prelude::*;
use crate::results::{Outcome, SessionResult, TestResult, TestResultView, count_outcome};
use crate::text::{
    chars_of, decimal, join, join_strings_from, lit, next_char, lemma_next_char_bounds,
    find_char_from, push_chars, push_decimal, push_str, remove_all, remove_pattern, split_on,
    split_str, slice_chars, starts_with, string_from, strs, contains, occurs_at,
};

verus! {

// ---------------------------------------------------------------------------
// Escaping
// ---------------------------------------------------------------------------

pub open spec fn escape_char(c: char) -> Seq<char> {
    if c == '&' {
        "&amp;"@
    } else if c == '<' {
        "&lt;"@
    } else if c == '>' {
        "&gt;"@
    } else if c == '"' {
        "&quot;"@
    } else if c == '\'' {
        "&apos;"@
    } else {
        seq![c]
    }
}

/// `s` with the five XML special characters replaced by entities.
pub open spec fn xml_escaped(s: Seq<char>) -> Seq<char>
    decreases s.len(),
{
    if s.len() == 0 {
        Seq::empty()
    } else {
        xml_escaped(s.drop_last()) + escape_char(s.last())
    }
}

fn xml_escape(s: &str) -> (r: String)
    ensures
        r@ == xml_escaped(s@),
{
    let v = chars_of(s);
    let mut out = String::new();
    let mut i: usize = 0;
    while i < v.len()
        invariant
            i <= v@.len(),
            out@ == xml_escaped(v@.take(i as int)),
        decreases v@.len() - i,
    {
        let c = v[i];
        if c == '&' {
            push_str(&mut out, "&amp;");
        } else if c == '<' {
            push_str(&mut out, "&lt;");
        } else if c == '>' {
            push_str(&mut out, "&gt;");
        } else if c == '"' {
            push_str(&mut out, "&quot;");
        } else if c == '\'' {
            push_str(&mut out, "&apos;");
        } else {
            out.push(c);
        }
        i += 1;
        assert(v@.take(i as int).drop_last() =~= v@.take(i - 1));
    }
    assert(v@.take(v@.len() as int) =~= v@);
    out
}

// ---------------------------------------------------------------------------
// Class name and test name of a node id
// ---------------------------------------------------------------------------

/// A file path as a dotted module name: separators become dots and every
/// `.py` is dropped.
pub open spec fn dotted(f: Seq<char>) -> Seq<char> {
    remove_all(f.map_values(|c: char| if c == '/' || c == '\\' { '.' } else { c }), ".py"@)
}

/// The JUnit `(classname, name)` of a node id: the parameter part (from the
/// first `[`) is dropped; `file::test` gives the dotted file and the test,
/// `file::Class::test` gives `dotted.Class` and the rest joined by `::`.
pub open spec fn junit_names(node_id: Seq<char>) -> (Seq<char>, Seq<char>) {
    let cut = next_char(node_id, '[', 0);
    let base = node_id.take(cut);
    let parts = split_str(base, "::"@);
    if parts.len() == 1 {
        (Seq::empty(), parts[0])
    } else if parts.len() == 2 {
        (dotted(parts[0]), parts[1])
    } else {
        (dotted(parts[0]) + "."@ + parts[1], join(parts.skip(2), "::"@))
    }
}

fn dotted_exec(f: &String) -> (r: String)
    ensures
        r@ == dotted(f@),
{
    let v = chars_of(f.as_str());
    let mut mapped: Vec<char> = Vec::new();
    let mut i: usize = 0;
    while i < v.len()
        invariant
            i <= v@.len(),
            mapped@ == v@.take(i as int).map_values(
                |c: char| if c == '/' || c == '\\' { '.' } else { c },
            ),
        decreases v@.len() - i,
    {
        let c = v[i];
        mapped.push(if c == '/' || c == '\\' { '.' } else { c });
        i += 1;
        assert(mapped@ =~= v@.take(i as int).map_values(
            |c: char| if c == '/' || c == '\\' { '.' } else { c },
        ));
    }
    assert(v@.take(v@.len() as int) =~= v@);
    let pat = chars_of(".py");
    proof {
        reveal_strlit(".py");
    }
    let removed = remove_pattern(&mapped, &pat);
    string_from(&removed)
}

fn split_node_id(node_id: &str) -> (r: (String, String))
    ensures
        (r.0@, r.1@) == junit_names(node_id@),
{
    let v = chars_of(node_id);
    let cut = find_char_from(&v, '[', 0);
    proof {
        lemma_next_char_bounds(v@, '[', 0);
    }
    let base = slice_chars(&v, 0, cut);
    assert(base@ == v@.take(cut as int));
    let sep = chars_of("::");
    proof {
        reveal_strlit("::");
    }
    let parts = split_on(&base, &sep);
    let ghost ps = strs(parts@);
    assert(ps[0] == parts@[0]@);
    if parts.len() == 1 {
        (String::new(), parts[0].clone())
    } else if parts.len() == 2 {
        assert(ps[1] == parts@[1]@);
        (dotted_exec(&parts[0]), parts[1].clone())
    } else {
        assert(ps[1] == parts@[1]@);
        let mut class = dotted_exec(&parts[0]);
        push_str(&mut class, ".");
        push_str(&mut class, parts[1].as_str());
        let name = join_strings_from(&parts, 2, "::");
        (class, name)
    }
}

// ---------------------------------------------------------------------------
// The document
// ---------------------------------------------------------------------------

pub open spec fn junit_header(rs: Seq<TestResultView>, suite_time: Seq<char>) -> Seq<char> {
    "<?xml version=\"1.0\" encoding=\"utf-8\"?>\n"@
        + "<testsuites><testsuite name=\"rupt\" tests=\""@ + decimal(rs.len()) + "\" failures=\""@
        + decimal(count_outcome(rs, Outcome::Failed)) + "\" errors=\""@ + decimal(
        count_outcome(rs, Outcome::Error),
    ) + "\" skipped=\""@ + decimal(count_outcome(rs, Outcome::Skipped)) + "\" time=\""@
        + suite_time + "\">\n"@
}

pub open spec fn outcome_element(r: TestResultView) -> Seq<char> {
    match r.outcome {
        Outcome::Failed => "<failure message=\""@ + xml_escaped(r.message) + "\">"@ + xml_escaped(
            r.longrepr,
        ) + "</failure>\n"@,
        Outcome::Error => "<error message=\""@ + xml_escaped(r.message) + "\">"@ + xml_escaped(
            r.longrepr,
        ) + "</error>\n"@,
        Outcome::Skipped | Outcome::Xfailed => "<skipped message=\""@ + xml_escaped(r.message)
            + "\"/>\n"@,
        _ => Seq::empty(),
    }
}

pub open spec fn output_elements(r: TestResultView) -> Seq<char> {
    (if r.stdout.len() > 0 {
        "<system-out>"@ + xml_escaped(r.stdout) + "</system-out>\n"@
    } else {
        Seq::empty()
    }) + (if r.stderr.len() > 0 {
        "<system-err>"@ + xml_escaped(r.stderr) + "</system-err>\n"@
    } else {
        Seq::empty()
    })
}

/// One `<testcase>` element; `time` is the test's duration as printed.
pub open spec fn testcase_element(r: TestResultView, time: Seq<char>) -> Seq<char> {
    let (classname, name) = junit_names(r.node_id);
    "<testcase classname=\""@ + xml_escaped(classname) + "\" name=\""@ + xml_escaped(name)
        + "\" time=\""@ + time + "\">"@ + outcome_element(r) + output_elements(r)
        + "</testcase>\n"@
}

pub open spec fn testcases(rs: Seq<TestResultView>, times: Seq<Seq<char>>) -> Seq<char>
    decreases rs.len(),
{
    if rs.len() == 0 {
        Seq::empty()
    } else {
        testcases(rs.drop_last(), times) + testcase_element(rs.last(), times[rs.len() - 1])
    }
}

/// The JUnit XML document of a run.
pub open spec fn junit_document(
    rs: Seq<TestResultView>,
    suite_time: Seq<char>,
    times: Seq<Seq<char>>,
) -> Seq<char> {
    junit_header(rs, suite_time) + testcases(rs, times) + "</testsuite></testsuites>\n"@
}

fn testcase_exec(r: &TestResult, time: &String) -> (s: String)
    ensures
        s@ == testcase_element(r@, time@),
{
    let (classname, name) = split_node_id(r.node_id.as_str());
    let mut s = lit("<testcase classname=\"");
    push_str(&mut s, xml_escape(classname.as_str()).as_str());
    push_str(&mut s, "\" name=\"");
    push_str(&mut s, xml_escape(name.as_str()).as_str());
    push_str(&mut s, "\" time=\"");
    push_str(&mut s, time.as_str());
    push_str(&mut s, "\">");
    let ghost start = s@;
    match r.outcome {
        Outcome::Failed => {
            push_str(&mut s, "<failure message=\"");
            push_str(&mut s, xml_escape(r.message.as_str()).as_str());
            push_str(&mut s, "\">");
            push_str(&mut s, xml_escape(r.longrepr.as_str()).as_str());
            push_str(&mut s, "</failure>\n");
        },
        Outcome::Error => {
            push_str(&mut s, "<error message=\"");
            push_str(&mut s, xml_escape(r.message.as_str()).as_str());
            push_str(&mut s, "\">");
            push_str(&mut s, xml_escape(r.longrepr.as_str()).as_str());
            push_str(&mut s, "</error>\n");
        },
        Outcome::Skipped | Outcome::Xfailed => {
            push_str(&mut s, "<skipped message=\"");
            push_str(&mut s, xml_escape(r.message.as_str()).as_str());
            push_str(&mut s, "\"/>\n");
        },
        _ => {},
    }
    assert(s@ =~= start + outcome_element(r@));
    let ghost mid = s@;
    if !r.stdout.as_str().is_empty() {
        push_str(&mut s, "<system-out>");
        push_str(&mut s, xml_escape(r.stdout.as_str()).as_str());
        push_str(&mut s, "</system-out>\n");
    }
    let ghost mid2 = s@;
    if !r.stderr.as_str().is_empty() {
        push_str(&mut s, "<system-err>");
        push_str(&mut s, xml_escape(r.stderr.as_str()).as_str());
        push_str(&mut s, "</system-err>\n");
    }
    assert(s@ =~= mid + output_elements(r@));
    push_str(&mut s, "</testcase>\n");
    s
}

/// The JUnit XML document of a run; `suite_time` is the run's length and
/// `case_times[i]` the length of test `i`, both in seconds as printed.
pub fn junit_xml(session: &SessionResult, suite_time: &str, case_times: &Vec<String>) -> (r:
    String)
    requires
        case_times@.len() == session.results@.len(),
    ensures
        r@ == junit_document(session.views(), suite_time@, strs(case_times@)),
{
    let rs = &session.results;
    let ghost v = session.views();
    let mut s = lit("<?xml version=\"1.0\" encoding=\"utf-8\"?>\n");
    push_str(&mut s, "<testsuites><testsuite name=\"rupt\" tests=\"");
    push_decimal(&mut s, rs.len() as u64);
    push_str(&mut s, "\" failures=\"");
    push_decimal(&mut s, session.failed() as u64);
    push_str(&mut s, "\" errors=\"");
    push_decimal(&mut s, session.errors() as u64);
    push_str(&mut s, "\" skipped=\"");
    push_decimal(&mut s, session.skipped() as u64);
    push_str(&mut s, "\" time=\"");
    push_str(&mut s, suite_time);
    push_str(&mut s, "\">\n");
    assert(s@ =~= junit_header(v, suite_time@));
    let ghost head = s@;
    let mut i: usize = 0;
    while i < rs.len()
        invariant
            i <= rs@.len(),
            v == session.views(),
            rs@ == session.results@,
            case_times@.len() == rs@.len(),
            s@ == head + testcases(v.take(i as int), strs(case_times@)),
        decreases rs@.len() - i,
    {
        assert(v[i as int] == rs@[i as int]@);
        assert(strs(case_times@)[i as int] == case_times@[i as int]@);
        let case = testcase_exec(&rs[i], &case_times[i]);
        push_str(&mut s, case.as_str());
        i += 1;
        assert(v.take(i as int).drop_last() =~= v.take(i - 1));
    }
    assert(v.take(rs@.len() as int) =~= v);
    push_str(&mut s, "</testsuite></testsuites>\n");
    s
}

// ---------------------------------------------------------------------------
// Laws
// ---------------------------------------------------------------------------

pub open spec fn amp_entity() -> Seq<char> {
    seq!['&', 'a', 'm', 'p', ';']
}

pub open spec fn lt_entity() -> Seq<char> {
    seq!['&', 'l', 't', ';']
}

pub open spec fn gt_entity() -> Seq<char> {
    seq!['&', 'g', 't', ';']
}

pub open spec fn quot_entity() -> Seq<char> {
    seq!['&', 'q', 'u', 'o', 't', ';']
}

pub open spec fn apos_entity() -> Seq<char> {
    seq!['&', 'a', 'p', 'o', 's', ';']
}

/// XML text with the five entities decoded, in one left-to-right pass.
pub open spec fn xml_unescaped(t: Seq<char>) -> Seq<char>
    decreases t.len(),
{
    if t.len() == 0 {
        Seq::empty()
    } else if starts_with(t, amp_entity()) {
        seq!['&'] + xml_unescaped(t.skip(5))
    } else if starts_with(t, lt_entity()) {
        seq!['<'] + xml_unescaped(t.skip(4))
    } else if starts_with(t, gt_entity()) {
        seq!['>'] + xml_unescaped(t.skip(4))
    } else if starts_with(t, quot_entity()) {
        seq!['"'] + xml_unescaped(t.skip(6))
    } else if starts_with(t, apos_entity()) {
        seq!['\''] + xml_unescaped(t.skip(6))
    } else {
        seq![t[0]] + xml_unescaped(t.skip(1))
    }
}

proof fn lemma_escape_char_entities(c: char)
    ensures
        c == '&' ==> escape_char(c) == amp_entity(),
        c == '<' ==> escape_char(c) == lt_entity(),
        c == '>' ==> escape_char(c) == gt_entity(),
        c == '"' ==> escape_char(c) == quot_entity(),
        c == '\'' ==> escape_char(c) == apos_entity(),
{
    reveal_strlit("&amp;");
    reveal_strlit("&lt;");
    reveal_strlit("&gt;");
    reveal_strlit("&quot;");
    reveal_strlit("&apos;");
    assert("&amp;"@ =~= amp_entity());
    assert("&lt;"@ =~= lt_entity());
    assert("&gt;"@ =~= gt_entity());
    assert("&quot;"@ =~= quot_entity());
    assert("&apos;"@ =~= apos_entity());
}

proof fn lemma_escaped_front(s: Seq<char>)
    requires
        s.len() > 0,
    ensures
        xml_escaped(s) == escape_char(s[0]) + xml_escaped(s.drop_first()),
    decreases s.len(),
{
    if s.len() > 1 {
        lemma_escaped_front(s.drop_last());
        assert(s.drop_last().drop_first() =~= s.drop_first().drop_last());
        assert(s.drop_first().last() == s.last());
        assert(escape_char(s[0]) + xml_escaped(s.drop_first().drop_last()) + escape_char(s.last())
            =~= escape_char(s[0]) + (xml_escaped(s.drop_first().drop_last()) + escape_char(
            s.last(),
        )));
    } else {
        assert(s.drop_last() =~= Seq::<char>::empty());
        assert(s.drop_first() =~= Seq::<char>::empty());
        assert(escape_char(s[0]) + Seq::<char>::empty() =~= escape_char(s[0]));
    }
}

proof fn lemma_unescape_char(c: char, rest: Seq<char>)
    ensures
        xml_unescaped(escape_char(c) + rest) == seq![c] + xml_unescaped(rest),
{
    lemma_escape_char_entities(c);
    let t = escape_char(c) + rest;
    if c == '&' {
        assert(t.take(5) =~= amp_entity());
        assert(t.skip(5) =~= rest);
    } else if c == '<' {
        assert(t[1] == 'l');
        assert(t.take(4) =~= lt_entity());
        assert(t.skip(4) =~= rest);
    } else if c == '>' {
        assert(t[1] == 'g');
        assert(t.take(4) =~= gt_entity());
        assert(t.skip(4) =~= rest);
    } else if c == '"' {
        assert(t[1] == 'q');
        assert(t.take(6) =~= quot_entity());
        assert(t.skip(6) =~= rest);
    } else if c == '\'' {
        assert(t[1] == 'a' && t[2] == 'p');
        assert(t.take(6) =~= apos_entity());
        assert(t.skip(6) =~= rest);
    } else {
        assert(t[0] == c);
        if t.len() >= 4 {
            assert(t.take(4)[0] == c);
        }
        if t.len() >= 5 {
            assert(t.take(5)[0] == c);
        }
        if t.len() >= 6 {
            assert(t.take(6)[0] == c);
        }
        assert(t.skip(1) =~= rest);
    }
}

/// Decoding the entities of escaped text gives the text back.
pub proof fn law_xml_escape_round_trip(s: Seq<char>)
    ensures
        xml_unescaped(xml_escaped(s)) == s,
    decreases s.len(),
{
    if s.len() == 0 {
        assert(xml_escaped(s) =~= Seq::<char>::empty());
    } else {
        lemma_escaped_front(s);
        lemma_unescape_char(s[0], xml_escaped(s.drop_first()));
        law_xml_escape_round_trip(s.drop_first());
        assert(seq![s[0]] + s.drop_first() =~= s);
    }
}

/// Escaped text holds none of `<`, `>`, `"`, `'`.
pub proof fn law_xml_escaped_has_no_markup(s: Seq<char>)
    ensures
        forall|i: int|
            0 <= i < xml_escaped(s).len() ==> {
                let c = #[trigger] xml_escaped(s)[i];
                c != '<' && c != '>' && c != '"' && c != '\''
            },
    decreases s.len(),
{
    if s.len() > 0 {
        law_xml_escaped_has_no_markup(s.drop_last());
        lemma_escape_char_entities(s.last());
        let a = xml_escaped(s.drop_last());
        let b = escape_char(s.last());
        assert forall|i: int| 0 <= i < xml_escaped(s).len() implies {
            let c = #[trigger] xml_escaped(s)[i];
            c != '<' && c != '>' && c != '"' && c != '\''
        } by {
            if i < a.len() {
                assert(xml_escaped(s)[i] == a[i]);
            } else {
                assert(xml_escaped(s)[i] == b[i - a.len()]);
            }
        }
    }
}

/// An entity begins at position `i` of `t`.
pub open spec fn entity_at(t: Seq<char>, i: int) -> bool {
    ||| i + 5 <= t.len() && t.subrange(i, i + 5) == amp_entity()
    ||| i + 4 <= t.len() && t.subrange(i, i + 4) == lt_entity()
    ||| i + 4 <= t.len() && t.subrange(i, i + 4) == gt_entity()
    ||| i + 6 <= t.len() && t.subrange(i, i + 6) == quot_entity()
    ||| i + 6 <= t.len() && t.subrange(i, i + 6) == apos_entity()
}

proof fn lemma_entity_at_extend(a: Seq<char>, b: Seq<char>, i: int)
    requires
        0 <= i < a.len(),
        entity_at(a, i),
    ensures
        entity_at(a + b, i),
{
    let t = a + b;
    assert forall|n: int| 0 <= n && i + n <= a.len() implies #[trigger] t.subrange(i, i + n)
        == a.subrange(i, i + n) by {
        assert(t.subrange(i, i + n) =~= a.subrange(i, i + n));
    }
}

/// Every `&` in escaped text begins one of the five entities.
pub proof fn law_xml_escaped_ampersands_begin_entities(s: Seq<char>)
    ensures
        forall|i: int|
            0 <= i < xml_escaped(s).len() && #[trigger] xml_escaped(s)[i] == '&' ==> entity_at(
                xml_escaped(s),
                i,
            ),
    decreases s.len(),
{
    if s.len() > 0 {
        law_xml_escaped_ampersands_begin_entities(s.drop_last());
        lemma_escape_char_entities(s.last());
        let a = xml_escaped(s.drop_last());
        let b = escape_char(s.last());
        let t = xml_escaped(s);
        assert(t == a + b);
        assert forall|i: int| 0 <= i < t.len() && #[trigger] t[i] == '&' implies entity_at(t, i) by {
            if i < a.len() {
                assert(a[i] == t[i]);
                lemma_entity_at_extend(a, b, i);
            } else {
                assert(b[i - a.len()] == '&');
                assert(i == a.len()) by {
                    if i > a.len() {
                        assert(b[i - a.len()] != '&');
                    }
                }
                assert(t.subrange(i, i + b.len()) =~= b);
            }
        }
    }
}

/// Every `<` of `s` is followed, within `s`, by two characters that are
/// not `x` and `y` in turn: no tag whose name begins with `xy` opens in `s`.
pub open spec fn no_tag_opens(s: Seq<char>, x: char, y: char) -> bool {
    forall|i: int|
        0 <= i < s.len() && #[trigger] s[i] == '<' ==> i + 2 < s.len() && !(s[i + 1] == x && s[i
            + 2] == y)
}

proof fn lemma_no_tag_concat(a: Seq<char>, b: Seq<char>, x: char, y: char)
    requires
        no_tag_opens(a, x, y),
        no_tag_opens(b, x, y),
    ensures
        no_tag_opens(a + b, x, y),
{
    assert forall|i: int| 0 <= i < (a + b).len() && #[trigger] (a + b)[i] == '<' implies i + 2 < (
    a + b).len() && !((a + b)[i + 1] == x && (a + b)[i + 2] == y) by {
        if i < a.len() {
            assert(a[i] == '<');
        } else {
            assert(b[i - a.len()] == '<');
        }
    }
}

proof fn lemma_no_lt(s: Seq<char>, x: char, y: char)
    requires
        forall|i: int| 0 <= i < s.len() ==> #[trigger] s[i] != '<',
    ensures
        no_tag_opens(s, x, y),
{
}

proof fn lemma_escaped_no_tag(s: Seq<char>, x: char, y: char)
    ensures
        no_tag_opens(xml_escaped(s), x, y),
{
    law_xml_escaped_has_no_markup(s);
    assert forall|i: int| 0 <= i < xml_escaped(s).len() implies #[trigger] xml_escaped(s)[i]
        != '<' by {
        let c = xml_escaped(s)[i];
    }
    lemma_no_lt(xml_escaped(s), x, y);
}

/// A text that holds a tag `<xy...` where none opens.
proof fn lemma_tag_absent(s: Seq<char>, p: Seq<char>)
    requires
        p.len() >= 3,
        p[0] == '<',
        no_tag_opens(s, p[1], p[2]),
    ensures
        !contains(s, p),
{
    if contains(s, p) {
        let i = choose|i: int| occurs_at(s, p, i);
        assert(s.subrange(i, i + p.len())[0] == s[i]);
        assert(s.subrange(i, i + p.len())[1] == s[i + 1]);
        assert(s.subrange(i, i + p.len())[2] == s[i + 2]);
    }
}

/// `no_tag_opens` checked one position at a time from `i`.
spec fn tag_free_from(s: Seq<char>, x: char, y: char, i: int) -> bool
    decreases s.len() - i,
{
    if i < 0 || i >= s.len() {
        true
    } else {
        &&& (s[i] == '<' ==> i + 2 < s.len() && !(s[i + 1] == x && s[i + 2] == y))
        &&& tag_free_from(s, x, y, i + 1)
    }
}

proof fn lemma_tag_free_from(s: Seq<char>, x: char, y: char, i: int)
    requires
        0 <= i,
        tag_free_from(s, x, y, i),
    ensures
        forall|j: int|
            i <= j < s.len() && #[trigger] s[j] == '<' ==> j + 2 < s.len() && !(s[j + 1] == x
                && s[j + 2] == y),
    decreases s.len() - i,
{
    if i < s.len() {
        lemma_tag_free_from(s, x, y, i + 1);
    }
}

/// Whether `x`, `y` begin the name of a `skipped`, `failure` or `error` tag.
pub open spec fn child_tag_start(x: char, y: char) -> bool {
    ||| x == 's' && y == 'k'
    ||| x == 'f' && y == 'a'
    ||| x == 'e' && y == 'r'
}

proof fn lemma_literal_pieces(x: char, y: char)
    requires
        child_tag_start(x, y),
    ensures
        no_tag_opens("<testcase classname=\""@, x, y),
        no_tag_opens("\" name=\""@, x, y),
        no_tag_opens("\" time=\""@, x, y),
        no_tag_opens("\">"@, x, y),
        no_tag_opens("<system-out>"@, x, y),
        no_tag_opens("</system-out>\n"@, x, y),
        no_tag_opens("<system-err>"@, x, y),
        no_tag_opens("</system-err>\n"@, x, y),
        no_tag_opens("</testcase>\n"@, x, y),
        no_tag_opens("</failure>\n"@, x, y),
        no_tag_opens("</error>\n"@, x, y),
        no_tag_opens("\"/>\n"@, x, y),
{
    reveal_with_fuel(tag_free_from, 24);
    reveal_strlit("<testcase classname=\"");
    assert(tag_free_from("<testcase classname=\""@, x, y, 0));
    lemma_tag_free_from("<testcase classname=\""@, x, y, 0);
    reveal_strlit("\" name=\"");
    assert(tag_free_from("\" name=\""@, x, y, 0));
    lemma_tag_free_from("\" name=\""@, x, y, 0);
    reveal_strlit("\" time=\"");
    assert(tag_free_from("\" time=\""@, x, y, 0));
    lemma_tag_free_from("\" time=\""@, x, y, 0);
    reveal_strlit("\">");
    assert(tag_free_from("\">"@, x, y, 0));
    lemma_tag_free_from("\">"@, x, y, 0);
    reveal_strlit("<system-out>");
    assert(tag_free_from("<system-out>"@, x, y, 0));
    lemma_tag_free_from("<system-out>"@, x, y, 0);
    reveal_strlit("</system-out>\n");
    assert(tag_free_from("</system-out>\n"@, x, y, 0));
    lemma_tag_free_from("</system-out>\n"@, x, y, 0);
    reveal_strlit("<system-err>");
    assert(tag_free_from("<system-err>"@, x, y, 0));
    lemma_tag_free_from("<system-err>"@, x, y, 0);
    reveal_strlit("</system-err>\n");
    assert(tag_free_from("</system-err>\n"@, x, y, 0));
    lemma_tag_free_from("</system-err>\n"@, x, y, 0);
    reveal_strlit("</testcase>\n");
    assert(tag_free_from("</testcase>\n"@, x, y, 0));
    lemma_tag_free_from("</testcase>\n"@, x, y, 0);
    reveal_strlit("</failure>\n");
    assert(tag_free_from("</failure>\n"@, x, y, 0));
    lemma_tag_free_from("</failure>\n"@, x, y, 0);
    reveal_strlit("</error>\n");
    assert(tag_free_from("</error>\n"@, x, y, 0));
    lemma_tag_free_from("</error>\n"@, x, y, 0);
    reveal_strlit("\"/>\n");
    assert(tag_free_from("\"/>\n"@, x, y, 0));
    lemma_tag_free_from("\"/>\n"@, x, y, 0);
}

proof fn lemma_child_literals(x: char, y: char)
    requires
        child_tag_start(x, y),
    ensures
        !(x == 's' && y == 'k') ==> no_tag_opens("<skipped message=\""@, x, y),
        !(x == 'f' && y == 'a') ==> no_tag_opens("<failure message=\""@, x, y),
        !(x == 'e' && y == 'r') ==> no_tag_opens("<error message=\""@, x, y),
{
    reveal_with_fuel(tag_free_from, 24);
    reveal_strlit("<skipped message=\"");
    reveal_strlit("<failure message=\"");
    reveal_strlit("<error message=\"");
    if !(x == 's' && y == 'k') {
        assert(tag_free_from("<skipped message=\""@, x, y, 0));
        lemma_tag_free_from("<skipped message=\""@, x, y, 0);
    }
    if !(x == 'f' && y == 'a') {
        assert(tag_free_from("<failure message=\""@, x, y, 0));
        lemma_tag_free_from("<failure message=\""@, x, y, 0);
    }
    if !(x == 'e' && y == 'r') {
        assert(tag_free_from("<error message=\""@, x, y, 0));
        lemma_tag_free_from("<error message=\""@, x, y, 0);
    }
}

/// The opening tag of a result's `<testcase>` element.
pub open spec fn testcase_open(r: TestResultView, time: Seq<char>) -> Seq<char> {
    let (classname, name) = junit_names(r.node_id);
    "<testcase classname=\""@ + xml_escaped(classname) + "\" name=\""@ + xml_escaped(name)
        + "\" time=\""@ + time + "\">"@
}

/// Whether `x`, `y` begin the name of the child tag an outcome calls for.
pub open spec fn outcome_tag_start(o: Outcome, x: char, y: char) -> bool {
    ||| (o is Skipped || o is Xfailed) && x == 's' && y == 'k'
    ||| o is Failed && x == 'f' && y == 'a'
    ||| o is Error && x == 'e' && y == 'r'
}

proof fn lemma_other_children_absent(r: TestResultView, time: Seq<char>, x: char, y: char)
    requires
        forall|i: int| 0 <= i < time.len() ==> #[trigger] time[i] != '<',
        child_tag_start(x, y),
        !outcome_tag_start(r.outcome, x, y),
    ensures
        no_tag_opens(testcase_element(r, time), x, y),
        testcase_element(r, time) == testcase_open(r, time) + outcome_element(r) + output_elements(r)
            + "</testcase>\n"@,
{
    let (classname, name) = junit_names(r.node_id);
    lemma_literal_pieces(x, y);
    lemma_child_literals(x, y);
    lemma_escaped_no_tag(classname, x, y);
    lemma_escaped_no_tag(name, x, y);
    lemma_escaped_no_tag(r.message, x, y);
    lemma_escaped_no_tag(r.longrepr, x, y);
    lemma_escaped_no_tag(r.stdout, x, y);
    lemma_escaped_no_tag(r.stderr, x, y);
    lemma_no_lt(time, x, y);
    lemma_no_lt(Seq::empty(), x, y);
    let a1 = "<testcase classname=\""@ + xml_escaped(classname);
    lemma_no_tag_concat("<testcase classname=\""@, xml_escaped(classname), x, y);
    lemma_no_tag_concat(a1, "\" name=\""@, x, y);
    let a2 = a1 + "\" name=\""@;
    lemma_no_tag_concat(a2, xml_escaped(name), x, y);
    let a3 = a2 + xml_escaped(name);
    lemma_no_tag_concat(a3, "\" time=\""@, x, y);
    let a4 = a3 + "\" time=\""@;
    lemma_no_tag_concat(a4, time, x, y);
    let a5 = a4 + time;
    lemma_no_tag_concat(a5, "\">"@, x, y);
    let open = testcase_open(r, time);
    assert(open == a5 + "\">"@);
    let oe = outcome_element(r);
    match r.outcome {
        Outcome::Failed => {
            let m = "<failure message=\""@ + xml_escaped(r.message);
            lemma_no_tag_concat("<failure message=\""@, xml_escaped(r.message), x, y);
            lemma_no_tag_concat(m, "\">"@, x, y);
            lemma_no_tag_concat(m + "\">"@, xml_escaped(r.longrepr), x, y);
            lemma_no_tag_concat(m + "\">"@ + xml_escaped(r.longrepr), "</failure>\n"@, x, y);
        },
        Outcome::Error => {
            let m = "<error message=\""@ + xml_escaped(r.message);
            lemma_no_tag_concat("<error message=\""@, xml_escaped(r.message), x, y);
            lemma_no_tag_concat(m, "\">"@, x, y);
            lemma_no_tag_concat(m + "\">"@, xml_escaped(r.longrepr), x, y);
            lemma_no_tag_concat(m + "\">"@ + xml_escaped(r.longrepr), "</error>\n"@, x, y);
        },
        Outcome::Skipped | Outcome::Xfailed => {
            let m = "<skipped message=\""@ + xml_escaped(r.message);
            lemma_no_tag_concat("<skipped message=\""@, xml_escaped(r.message), x, y);
            lemma_no_tag_concat(m, "\"/>\n"@, x, y);
        },
        _ => {},
    }
    assert(no_tag_opens(oe, x, y));
    let so = "<system-out>"@ + xml_escaped(r.stdout);
    lemma_no_tag_concat("<system-out>"@, xml_escaped(r.stdout), x, y);
    lemma_no_tag_concat(so, "</system-out>\n"@, x, y);
    let se = "<system-err>"@ + xml_escaped(r.stderr);
    lemma_no_tag_concat("<system-err>"@, xml_escaped(r.stderr), x, y);
    lemma_no_tag_concat(se, "</system-err>\n"@, x, y);
    let o1: Seq<char> = if r.stdout.len() > 0 {
        so + "</system-out>\n"@
    } else {
        Seq::empty()
    };
    let o2: Seq<char> = if r.stderr.len() > 0 {
        se + "</system-err>\n"@
    } else {
        Seq::empty()
    };
    lemma_no_tag_concat(o1, o2, x, y);
    assert(output_elements(r) == o1 + o2);
    lemma_no_tag_concat(open, oe, x, y);
    lemma_no_tag_concat(open + oe, output_elements(r), x, y);
    lemma_no_tag_concat(open + oe + output_elements(r), "</testcase>\n"@, x, y);
}

/// A `<testcase>` element holds a `<skipped>` child exactly when the result
/// was skipped or xfailed, a `<failure>` child exactly when it failed, and an
/// `<error>` child exactly when it erred: a passed or xpassed result's
/// element holds none of them.
pub proof fn law_testcase_children(r: TestResultView, time: Seq<char>)
    requires
        forall|i: int| 0 <= i < time.len() ==> #[trigger] time[i] != '<',
    ensures
        contains(testcase_element(r, time), "<skipped"@) <==> (r.outcome is Skipped
            || r.outcome is Xfailed),
        contains(testcase_element(r, time), "<failure"@) <==> r.outcome is Failed,
        contains(testcase_element(r, time), "<error"@) <==> r.outcome is Error,
{
    reveal_strlit("<skipped");
    reveal_strlit("<failure");
    reveal_strlit("<error");
    reveal_strlit("<skipped message=\"");
    reveal_strlit("<failure message=\"");
    reveal_strlit("<error message=\"");
    let e = testcase_element(r, time);
    let open = testcase_open(r, time);
    assert(e == open + outcome_element(r) + output_elements(r) + "</testcase>\n"@);
    let n = open.len() as int;
    if r.outcome is Skipped || r.outcome is Xfailed {
        assert(e.subrange(n, n + 8) =~= "<skipped"@);
        assert(occurs_at(e, "<skipped"@, n));
    } else {
        lemma_other_children_absent(r, time, 's', 'k');
        lemma_tag_absent(e, "<skipped"@);
    }
    if r.outcome is Failed {
        assert(e.subrange(n, n + 8) =~= "<failure"@);
        assert(occurs_at(e, "<failure"@, n));
    } else {
        lemma_other_children_absent(r, time, 'f', 'a');
        lemma_tag_absent(e, "<failure"@);
    }
    if r.outcome is Error {
        assert(e.subrange(n, n + 6) =~= "<error"@);
        assert(occurs_at(e, "<error"@, n));
    } else {
        lemma_other_children_absent(r, time, 'e', 'r');
        lemma_tag_absent(e, "<error"@);
    }
}

} // verus!
