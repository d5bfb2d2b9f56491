//! Outcomes of executed tests and the session they make up.
use vstd::prelude::*;
use crate::text::{lit, strs};

verus! {

#[derive(Debug, Clone, Copy, PartialEq, Eq, Structural)]
pub enum Outcome {
    Passed,
    Failed,
    Skipped,
    Error,
    Xfailed,
    Xpassed,
}

/// How an outcome is printed.
pub open spec fn outcome_label(o: Outcome) -> Seq<char> {
    match o {
        Outcome::Passed => "PASSED"@,
        Outcome::Failed => "FAILED"@,
        Outcome::Skipped => "SKIPPED"@,
        Outcome::Error => "ERROR"@,
        Outcome::Xfailed => "XFAIL"@,
        Outcome::Xpassed => "XPASS"@,
    }
}

impl Outcome {
    /// The outcome as printed: `PASSED`, `FAILED`, `SKIPPED`, `ERROR`,
    /// `XFAIL` or `XPASS`.
    pub fn label(&self) -> (r: String)
        ensures
            r@ == outcome_label(*self),
    {
        match self {
            Outcome::Passed => lit("PASSED"),
            Outcome::Failed => lit("FAILED"),
            Outcome::Skipped => lit("SKIPPED"),
            Outcome::Error => lit("ERROR"),
            Outcome::Xfailed => lit("XFAIL"),
            Outcome::Xpassed => lit("XPASS"),
        }
    }
}

/// The result of one test, as a worker reports it.  How long the test took
/// is kept by the caller; nothing here depends on it.
#[derive(Debug)]
pub struct TestResult {
    pub node_id: String,
    pub outcome: Outcome,
    pub stdout: String,
    pub stderr: String,
    pub longrepr: String,
    pub message: String,
}

pub struct TestResultView {
    pub node_id: Seq<char>,
    pub outcome: Outcome,
    pub stdout: Seq<char>,
    pub stderr: Seq<char>,
    pub longrepr: Seq<char>,
    pub message: Seq<char>,
}

impl View for TestResult {
    type V = TestResultView;

    open spec fn view(&self) -> TestResultView {
        TestResultView {
            node_id: self.node_id@,
            outcome: self.outcome,
            stdout: self.stdout@,
            stderr: self.stderr@,
            longrepr: self.longrepr@,
            message: self.message@,
        }
    }
}

pub open spec fn result_views(v: Seq<TestResult>) -> Seq<TestResultView> {
    v.map_values(|r: TestResult| r@)
}

impl Clone for TestResult {
    fn clone(&self) -> (r: Self)
        ensures
            r@ == self@,
    {
        TestResult {
            node_id: self.node_id.clone(),
            outcome: self.outcome,
            stdout: self.stdout.clone(),
            stderr: self.stderr.clone(),
            longrepr: self.longrepr.clone(),
            message: self.message.clone(),
        }
    }
}

/// One line of a worker's output stream.
#[derive(Debug)]
pub enum WorkerMessage {
    Result(TestResult),
    /// Lines covered, per file, in increasing order of file name.
    Coverage { kind: String, data: Vec<(String, Vec<usize>)> },
    Finished { kind: String },
}

/// The results of a run, in the order they were reported.
#[derive(Debug)]
pub struct SessionResult {
    pub results: Vec<TestResult>,
}

/// Number of results with outcome `o`.
pub open spec fn count_outcome(rs: Seq<TestResultView>, o: Outcome) -> nat
    decreases rs.len(),
{
    if rs.len() == 0 {
        0
    } else {
        count_outcome(rs.drop_last(), o) + if rs.last().outcome == o {
            1nat
        } else {
            0nat
        }
    }
}

/// A run fails when any test failed or errored.
pub open spec fn session_exit_code(rs: Seq<TestResultView>) -> i32 {
    if count_outcome(rs, Outcome::Failed) > 0 || count_outcome(rs, Outcome::Error) > 0 {
        1
    } else {
        0
    }
}

impl SessionResult {
    pub open spec fn views(&self) -> Seq<TestResultView> {
        result_views(self.results@)
    }

    fn count(&self, o: Outcome) -> (r: usize)
        ensures
            r == count_outcome(self.views(), o),
    {
        let mut n: usize = 0;
        let mut i: usize = 0;
        while i < self.results.len()
            invariant
                i <= self.results@.len(),
                n == count_outcome(self.views().take(i as int), o),
                n <= i,
            decreases self.results@.len() - i,
        {
            if self.results[i].outcome == o {
                n += 1;
            }
            i += 1;
            assert(self.views().take(i as int).drop_last() =~= self.views().take(i - 1));
        }
        assert(self.views().take(self.results@.len() as int) =~= self.views());
        n
    }

    pub fn passed(&self) -> (r: usize)
        ensures
            r == count_outcome(self.views(), Outcome::Passed),
    {
        self.count(Outcome::Passed)
    }

    pub fn failed(&self) -> (r: usize)
        ensures
            r == count_outcome(self.views(), Outcome::Failed),
    {
        self.count(Outcome::Failed)
    }

    pub fn skipped(&self) -> (r: usize)
        ensures
            r == count_outcome(self.views(), Outcome::Skipped),
    {
        self.count(Outcome::Skipped)
    }

    pub fn errors(&self) -> (r: usize)
        ensures
            r == count_outcome(self.views(), Outcome::Error),
    {
        self.count(Outcome::Error)
    }

    pub fn xfailed(&self) -> (r: usize)
        ensures
            r == count_outcome(self.views(), Outcome::Xfailed),
    {
        self.count(Outcome::Xfailed)
    }

    /// 1 when any test failed or errored, else 0.
    pub fn exit_code(&self) -> (r: i32)
        ensures
            r == session_exit_code(self.views()),
    {
        if self.failed() > 0 || self.errors() > 0 {
            1
        } else {
            0
        }
    }
}

proof fn lemma_count_zero(rs: Seq<TestResultView>, o: Outcome)
    ensures
        count_outcome(rs, o) == 0 <==> forall|i: int| 0 <= i < rs.len() ==> rs[i].outcome != o,
    decreases rs.len(),
{
    if rs.len() > 0 {
        lemma_count_zero(rs.drop_last(), o);
        assert forall|i: int| 0 <= i < rs.len() - 1 implies rs.drop_last()[i] == rs[i] by {}
        if count_outcome(rs, o) == 0 {
            assert forall|i: int| 0 <= i < rs.len() implies rs[i].outcome != o by {
                if i < rs.len() - 1 {
                    assert(rs.drop_last()[i] == rs[i]);
                }
            }
        }
    }
}

/// The exit status is zero exactly when no test failed or errored.
pub proof fn law_exit_code_zero_iff_no_failure(rs: Seq<TestResultView>)
    ensures
        session_exit_code(rs) == 0 <==> forall|i: int|
            0 <= i < rs.len() ==> rs[i].outcome != Outcome::Failed && rs[i].outcome
                != Outcome::Error,
{
    lemma_count_zero(rs, Outcome::Failed);
    lemma_count_zero(rs, Outcome::Error);
}

} // verus!
