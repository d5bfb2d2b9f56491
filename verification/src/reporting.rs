//! The text printed while and after tests run.
use vstd::prelude::*;
use crate::results::{Outcome, SessionResult, TestResult, TestResultView, outcome_label};
use crate::text::{
    chars_of, decimal, join, lines, lines_of, lit, push_chars, push_decimal, push_str,
    starts_with, starts_with_exec, string_from_range, strs, trim_start, trim_start_chars,
};

verus! {

pub struct ReportConfig {
    /// -1 quiet, 0 normal, 1 verbose, 2 very verbose.
    pub verbosity: i32,
    /// Show captured output (`-s`).
    pub show_capture: bool,
    pub tb_style: TbStyle,
}

#[derive(Debug, Clone, Copy, PartialEq, Eq, Structural)]
pub enum TbStyle {
    Short,
    Long,
    Line,
    No,
}

impl Default for ReportConfig {
    fn default() -> (r: Self)
        ensures
            r.verbosity == 0,
            !r.show_capture,
            r.tb_style == TbStyle::Short,
    {
        ReportConfig { verbosity: 0, show_capture: false, tb_style: TbStyle::Short }
    }
}

/// The character printed for a result in normal verbosity.
pub open spec fn outcome_symbol(o: Outcome) -> char {
    match o {
        Outcome::Passed => '.',
        Outcome::Failed => 'F',
        Outcome::Skipped => 's',
        Outcome::Error => 'E',
        Outcome::Xfailed => 'x',
        Outcome::Xpassed => 'X',
    }
}

/// A verbose live line shows the outcome by its label (the text
/// `Outcome::label` gives), a normal one by its character, and no two
/// outcomes share a character.
pub proof fn law_outcome_texts(r: TestResultView, o1: Outcome, o2: Outcome)
    ensures
        live_text(r, 1) == r.node_id + " "@ + outcome_label(r.outcome) + "\n"@,
        live_text(r, 0) == seq![outcome_symbol(r.outcome)],
        outcome_symbol(o1) == outcome_symbol(o2) ==> o1 == o2,
{
}

fn outcome_char(outcome: &Outcome) -> (c: char)
    ensures
        c == outcome_symbol(*outcome),
{
    match outcome {
        Outcome::Passed => '.',
        Outcome::Failed => 'F',
        Outcome::Skipped => 's',
        Outcome::Error => 'E',
        Outcome::Xfailed => 'x',
        Outcome::Xpassed => 'X',
    }
}

fn outcome_marker(outcome: &Outcome) -> (r: String)
    ensures
        r@ == outcome_label(*outcome),
{
    outcome.label()
}

/// Where the file part of a node id ends: the first `::` at or after `i`,
/// or the end.
pub open spec fn file_part_end(id: Seq<char>, i: int) -> int
    decreases id.len() - i,
{
    if i < 0 || i + 1 >= id.len() {
        id.len() as int
    } else if id[i] == ':' && id[i + 1] == ':' {
        i
    } else {
        file_part_end(id, i + 1)
    }
}

/// Just past the last `/` among `id[..n]`, or 0.
pub open spec fn after_last_slash(id: Seq<char>, n: int) -> int
    decreases n,
{
    if n <= 0 {
        0
    } else if id[n - 1] == '/' {
        n
    } else {
        after_last_slash(id, n - 1)
    }
}

/// A node id as a failure heading shows it: the file without its
/// directories, then the rest (`tests/unit/test_f.py::t` is shown as
/// `test_f.py::t`).
pub open spec fn short_node_id(id: Seq<char>) -> Seq<char> {
    id.skip(after_last_slash(id, file_part_end(id, 0)))
}

/// How a node id is shown in a failure heading.
fn short_id(node_id: &str) -> (r: String)
    ensures
        r@ == short_node_id(node_id@),
{
    let v = chars_of(node_id);
    let n = v.len();
    let mut k: usize = 0;
    while k < n && k + 1 < n && !(v[k] == ':' && v[k + 1] == ':')
        invariant
            k <= n,
            n == v@.len(),
            file_part_end(v@, 0) == file_part_end(v@, k as int),
        decreases n - k,
    {
        k += 1;
    }
    let end: usize = if k < n && k + 1 < n {
        k
    } else {
        n
    };
    assert(end == file_part_end(v@, 0));
    let mut j = end;
    while j > 0 && v[j - 1] != '/'
        invariant
            j <= end <= n,
            n == v@.len(),
            after_last_slash(v@, end as int) == after_last_slash(v@, j as int),
        decreases j,
    {
        j -= 1;
    }
    assert(v@.subrange(j as int, n as int) =~= v@.skip(j as int));
    string_from_range(&v, j, n)
}

/// What is printed as a result arrives: `node_id MARKER` and a newline when
/// verbose, the outcome's character in normal verbosity, nothing when quiet.
pub open spec fn live_text(r: TestResultView, verbosity: i32) -> Seq<char> {
    if verbosity >= 1 {
        r.node_id + " "@ + outcome_label(r.outcome) + "\n"@
    } else if verbosity == 0 {
        seq![outcome_symbol(r.outcome)]
    } else {
        Seq::empty()
    }
}

pub fn result_live_text(result: &TestResult, config: &ReportConfig) -> (r: String)
    ensures
        r@ == live_text(result@, config.verbosity),
{
    if config.verbosity >= 1 {
        let mut s = result.node_id.clone();
        push_str(&mut s, " ");
        let marker = outcome_marker(&result.outcome);
        push_str(&mut s, marker.as_str());
        push_str(&mut s, "\n");
        s
    } else if config.verbosity == 0 {
        let mut s = String::new();
        s.push(outcome_char(&result.outcome));
        s
    } else {
        String::new()
    }
}

// ---------------------------------------------------------------------------
// Failure report
// ---------------------------------------------------------------------------

/// The index of the last line starting (after leading whitespace) with
/// `File `, among `ls[..n]`; zero when there is none.
pub open spec fn last_file_line(ls: Seq<Seq<char>>, n: int) -> int
    decreases n,
{
    if n <= 0 {
        0
    } else if starts_with(trim_start(ls[n - 1]), "File "@) {
        n - 1
    } else {
        last_file_line(ls, n - 1)
    }
}

/// Each of `ls` followed by a newline.
pub open spec fn with_newlines(ls: Seq<Seq<char>>) -> Seq<char>
    decreases ls.len(),
{
    if ls.len() == 0 {
        Seq::empty()
    } else {
        with_newlines(ls.drop_last()) + ls.last() + "\n"@
    }
}

/// The traceback part of a failure, in the configured style.
pub open spec fn traceback_text(longrepr: Seq<char>, style: TbStyle) -> Seq<char> {
    if longrepr.len() == 0 {
        Seq::empty()
    } else {
        let ls = lines(longrepr);
        match style {
            TbStyle::Short => with_newlines(ls.skip(last_file_line(ls, ls.len() as int))),
            TbStyle::Long => longrepr + "\n"@,
            TbStyle::Line => if ls.len() > 0 {
                ls.last() + "\n"@
            } else {
                Seq::empty()
            },
            TbStyle::No => Seq::empty(),
        }
    }
}

/// Captured output, shown with `-s` or at verbosity 2 and above.
pub open spec fn capture_text(r: TestResultView, show: bool) -> Seq<char> {
    if show {
        (if r.stdout.len() > 0 {
            "--- Captured stdout ---\n"@ + r.stdout + "\n"@
        } else {
            Seq::empty()
        }) + (if r.stderr.len() > 0 {
            "--- Captured stderr ---\n"@ + r.stderr + "\n"@
        } else {
            Seq::empty()
        })
    } else {
        Seq::empty()
    }
}

pub open spec fn failure_heading(node_id: Seq<char>) -> Seq<char> {
    "_________________________________ "@ + short_node_id(node_id)
        + " _________________________________\n"@
}

pub open spec fn failure_block(r: TestResultView, style: TbStyle, show: bool) -> Seq<char> {
    failure_heading(r.node_id) + traceback_text(r.longrepr, style) + capture_text(r, show)
}

pub open spec fn is_failure(r: TestResultView) -> bool {
    r.outcome == Outcome::Failed || r.outcome == Outcome::Error
}

pub open spec fn failure_blocks(rs: Seq<TestResultView>, style: TbStyle, show: bool) -> Seq<char>
    decreases rs.len(),
{
    if rs.len() == 0 {
        Seq::empty()
    } else {
        failure_blocks(rs.drop_last(), style, show) + if is_failure(rs.last()) {
            failure_block(rs.last(), style, show)
        } else {
            Seq::empty()
        }
    }
}

pub open spec fn failures_banner() -> Seq<char> {
    "\n================================= FAILURES =================================\n"@
}

/// The failure report: nothing when no test failed or errored or the
/// traceback style is `no`; else a banner and one block per failure.
pub open spec fn failures_text(rs: Seq<TestResultView>, config: ReportConfig) -> Seq<char> {
    if !(exists|i: int| 0 <= i < rs.len() && is_failure(#[trigger] rs[i])) || config.tb_style
        == TbStyle::No {
        Seq::empty()
    } else {
        failures_banner() + failure_blocks(
            rs,
            config.tb_style,
            config.show_capture || config.verbosity >= 2,
        )
    }
}

fn traceback_exec(longrepr: &String, style: TbStyle) -> (r: String)
    ensures
        r@ == traceback_text(longrepr@, style),
{
    let mut s = String::new();
    if longrepr.as_str().is_empty() {
        return s;
    }
    let text = chars_of(longrepr.as_str());
    let ls = lines_of(&text);
    let ghost lsv = ls@.map_values(|l: Vec<char>| l@);
    match style {
        TbStyle::Short => {
            let file_prefix = chars_of("File ");
            let mut start: usize = ls.len();
            let mut found = false;
            while start > 0 && !found
                invariant
                    start <= ls@.len(),
                    lsv == ls@.map_values(|l: Vec<char>| l@),
                    file_prefix@ == "File "@,
                    found ==> start < ls@.len() && last_file_line(lsv, ls@.len() as int)
                        == start,
                    !found ==> last_file_line(lsv, ls@.len() as int) == last_file_line(
                        lsv,
                        start as int,
                    ),
                decreases start + if found {
                    0int
                } else {
                    1int
                },
            {
                let rest = trim_start_chars(&ls[start - 1]);
                assert(lsv[start - 1] == ls@[start - 1]@);
                if starts_with_exec(&rest, &file_prefix) {
                    found = true;
                    start = start - 1;
                } else {
                    start = start - 1;
                }
            }
            let first = if found { start } else { 0 };
            let mut i = first;
            while i < ls.len()
                invariant
                    first <= i <= ls@.len(),
                    lsv == ls@.map_values(|l: Vec<char>| l@),
                    s@ == with_newlines(lsv.subrange(first as int, i as int)),
                decreases ls@.len() - i,
            {
                push_chars(&mut s, &ls[i]);
                push_str(&mut s, "\n");
                i += 1;
                assert(lsv.subrange(first as int, i as int).drop_last() =~= lsv.subrange(
                    first as int,
                    i - 1,
                ));
            }
            assert(lsv.subrange(first as int, ls@.len() as int) =~= lsv.skip(first as int));
        },
        TbStyle::Long => {
            push_str(&mut s, longrepr.as_str());
            push_str(&mut s, "\n");
        },
        TbStyle::Line => {
            if ls.len() > 0 {
                push_chars(&mut s, &ls[ls.len() - 1]);
                push_str(&mut s, "\n");
            }
        },
        TbStyle::No => {},
    }
    s
}


fn capture_exec(r: &TestResult, show: bool) -> (s: String)
    ensures
        s@ == capture_text(r@, show),
{
    let mut s = String::new();
    if show {
        if !r.stdout.as_str().is_empty() {
            push_str(&mut s, "--- Captured stdout ---\n");
            push_str(&mut s, r.stdout.as_str());
            push_str(&mut s, "\n");
        }
        let ghost first = s@;
        if !r.stderr.as_str().is_empty() {
            push_str(&mut s, "--- Captured stderr ---\n");
            push_str(&mut s, r.stderr.as_str());
            push_str(&mut s, "\n");
        }
        assert(s@ =~= first + (if r.stderr@.len() > 0 {
            "--- Captured stderr ---\n"@ + r.stderr@ + "\n"@
        } else {
            Seq::empty()
        }));
    }
    s
}

/// The failure report, as printed after the run.
pub fn failures_report(session: &SessionResult, config: &ReportConfig) -> (r: String)
    ensures
        r@ == failures_text(session.views(), *config),
{
    let rs = &session.results;
    let ghost v = session.views();
    let mut any = false;
    let mut i: usize = 0;
    while i < rs.len()
        invariant
            i <= rs@.len(),
            v == session.views(),
            rs@ == session.results@,
            any <==> exists|k: int| 0 <= k < i && is_failure(#[trigger] v[k]),
        decreases rs@.len() - i,
    {
        assert(v[i as int] == rs@[i as int]@);
        if rs[i].outcome == Outcome::Failed || rs[i].outcome == Outcome::Error {
            any = true;
        }
        i += 1;
    }
    if !any || config.tb_style == TbStyle::No {
        return String::new();
    }
    let show = config.show_capture || config.verbosity >= 2;
    let mut s = lit("\n================================= FAILURES =================================\n");
    let mut i: usize = 0;
    while i < rs.len()
        invariant
            i <= rs@.len(),
            v == session.views(),
            rs@ == session.results@,
            s@ == failures_banner() + failure_blocks(v.take(i as int), config.tb_style, show),
        decreases rs@.len() - i,
    {
        let r = &rs[i];
        assert(v[i as int] == r@);
        let ghost before = s@;
        if r.outcome == Outcome::Failed || r.outcome == Outcome::Error {
            push_str(&mut s, "_________________________________ ");
            let shown = short_id(r.node_id.as_str());
            push_str(&mut s, shown.as_str());
            push_str(&mut s, " _________________________________\n");
            let tb = traceback_exec(&r.longrepr, config.tb_style);
            push_str(&mut s, tb.as_str());
            let cap = capture_exec(r, show);
            push_str(&mut s, cap.as_str());
            assert(s@ =~= before + failure_block(r@, config.tb_style, show));
        } else {
            assert(s@ =~= before + Seq::<char>::empty());
        }
        i += 1;
        assert(v.take(i as int).drop_last() =~= v.take(i - 1));
    }
    assert(v.take(rs@.len() as int) =~= v);
    s
}

// ---------------------------------------------------------------------------
// Summary lines
// ---------------------------------------------------------------------------

/// `"<n><label>"` when `n` is positive.
pub open spec fn count_part(n: nat, label: Seq<char>) -> Seq<Seq<char>> {
    if n > 0 {
        seq![decimal(n) + label]
    } else {
        Seq::empty()
    }
}

/// The counts the closing line reports, in its order.
pub open spec fn summary_parts(rs: Seq<TestResultView>) -> Seq<Seq<char>> {
    count_part(crate::results::count_outcome(rs, Outcome::Passed), " passed"@) + count_part(
        crate::results::count_outcome(rs, Outcome::Failed),
        " failed"@,
    ) + count_part(crate::results::count_outcome(rs, Outcome::Error), " error"@) + count_part(
        crate::results::count_outcome(rs, Outcome::Skipped),
        " skipped"@,
    ) + count_part(crate::results::count_outcome(rs, Outcome::Xfailed), " xfailed"@)
}

/// The closing line, `duration` being the run's length in seconds as printed.
pub open spec fn summary_text(rs: Seq<TestResultView>, verbosity: i32, duration: Seq<char>) -> Seq<
    char,
> {
    (if verbosity == 0 {
        "\n"@
    } else {
        Seq::empty()
    }) + "========================== "@ + join(summary_parts(rs), ", "@) + " in "@ + duration
        + "s ==========================\n"@
}

fn push_count_part(parts: &mut Vec<String>, n: usize, label: &str)
    ensures
        strs(final(parts)@) == strs(old(parts)@) + count_part(n as nat, label@),
{
    if n > 0 {
        let mut s = String::new();
        push_decimal(&mut s, n as u64);
        push_str(&mut s, label);
        let ghost prev = strs(parts@);
        parts.push(s);
        assert(strs(parts@) =~= prev + count_part(n as nat, label@));
    } else {
        assert(strs(parts@) =~= strs(parts@) + count_part(n as nat, label@));
    }
}

/// The closing line of a run; `duration` is the run's length in seconds as
/// it is to be printed.
pub fn summary_line(session: &SessionResult, config: &ReportConfig, duration: &str) -> (r: String)
    ensures
        r@ == summary_text(session.views(), config.verbosity, duration@),
{
    let mut parts: Vec<String> = Vec::new();
    push_count_part(&mut parts, session.passed(), " passed");
    push_count_part(&mut parts, session.failed(), " failed");
    push_count_part(&mut parts, session.errors(), " error");
    push_count_part(&mut parts, session.skipped(), " skipped");
    push_count_part(&mut parts, session.xfailed(), " xfailed");
    assert(strs(parts@) =~= summary_parts(session.views()));
    let mut s = String::new();
    if config.verbosity == 0 {
        push_str(&mut s, "\n");
    }
    push_str(&mut s, "========================== ");
    let joined = crate::text::join_strings(&parts, ", ");
    push_str(&mut s, joined.as_str());
    push_str(&mut s, " in ");
    push_str(&mut s, duration);
    push_str(&mut s, "s ==========================\n");
    s
}

/// `FAILED <node id> - <message>` for a failed test; a failure without a
/// message shows `AssertionError`.
pub open spec fn short_line(r: TestResultView) -> Seq<char> {
    "FAILED "@ + r.node_id + " - "@ + (if r.message.len() == 0 {
        "AssertionError"@
    } else {
        r.message
    }) + "\n"@
}

pub open spec fn short_lines(rs: Seq<TestResultView>) -> Seq<char>
    decreases rs.len(),
{
    if rs.len() == 0 {
        Seq::empty()
    } else {
        short_lines(rs.drop_last()) + if rs.last().outcome == Outcome::Failed {
            short_line(rs.last())
        } else {
            Seq::empty()
        }
    }
}

/// The short summary: a heading and one line per failed test (errors are
/// not listed); nothing when no test failed.
pub open spec fn short_summary(rs: Seq<TestResultView>) -> Seq<char> {
    if crate::results::count_outcome(rs, Outcome::Failed) == 0 {
        Seq::empty()
    } else {
        "========================== short test summary info ==========================\n"@
            + short_lines(rs)
    }
}

pub fn short_summary_text(session: &SessionResult) -> (r: String)
    ensures
        r@ == short_summary(session.views()),
{
    if session.failed() == 0 {
        return String::new();
    }
    let rs = &session.results;
    let ghost v = session.views();
    let mut s = lit("========================== short test summary info ==========================\n");
    let ghost head = s@;
    let mut i: usize = 0;
    while i < rs.len()
        invariant
            i <= rs@.len(),
            v == session.views(),
            rs@ == session.results@,
            s@ == head + short_lines(v.take(i as int)),
        decreases rs@.len() - i,
    {
        let r = &rs[i];
        assert(v[i as int] == r@);
        let ghost before = s@;
        if r.outcome == Outcome::Failed {
            push_str(&mut s, "FAILED ");
            push_str(&mut s, r.node_id.as_str());
            push_str(&mut s, " - ");
            if r.message.as_str().is_empty() {
                push_str(&mut s, "AssertionError");
            } else {
                push_str(&mut s, r.message.as_str());
            }
            push_str(&mut s, "\n");
            assert(s@ =~= before + short_line(r@));
        } else {
            assert(s@ =~= before + Seq::<char>::empty());
        }
        i += 1;
        assert(v.take(i as int).drop_last() =~= v.take(i - 1));
    }
    assert(v.take(rs@.len() as int) =~= v);
    s
}

} // verus!
