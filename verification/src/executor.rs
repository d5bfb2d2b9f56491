//! The decisions of test execution: how tests are split among workers,
//! what a worker's messages change, when to stop, and which tests a worker
//! left unreported.  Spawning workers and reading their output is left to
//! the caller.
use vstd::prelude::*;
use vstd::multiset::Multiset;
use crate::coverage::{CoverageData, entry_views, merged};
use crate::results::{
    Outcome, TestResult, TestResultView, WorkerMessage, count_outcome, result_views,
};
use crate::text::{chars_of, lit, split_on, split_str, str_eq, strs};

verus! {

// ---------------------------------------------------------------------------
// Stopping early
// ---------------------------------------------------------------------------

pub open spec fn is_failed_or_error(r: TestResultView) -> bool {
    r.outcome == Outcome::Failed || r.outcome == Outcome::Error
}

/// `-x` stops after a failing or erroring result; `--maxfail=n` stops once
/// `n` results failed or errored.
pub open spec fn stop_after(rs: Seq<TestResultView>, fail_fast: bool, max_failures: Option<usize>) -> bool {
    ||| (fail_fast && rs.len() > 0 && is_failed_or_error(rs.last()))
    ||| (max_failures matches Some(m) && count_outcome(rs, Outcome::Failed) + count_outcome(
        rs,
        Outcome::Error,
    ) >= m)
}

/// Whether the run stops after the results so far.
pub fn should_stop(results: &[TestResult], fail_fast: bool, max_failures: Option<usize>) -> (r:
    bool)
    ensures
        r == stop_after(result_views(results@), fail_fast, max_failures),
{
    let ghost v = result_views(results@);
    if fail_fast && results.len() > 0 {
        let last = &results[results.len() - 1];
        assert(v.last() == last@);
        if last.outcome == Outcome::Failed || last.outcome == Outcome::Error {
            return true;
        }
    }
    if let Some(max) = max_failures {
        let mut failed: usize = 0;
        let mut errors: usize = 0;
        let mut i: usize = 0;
        while i < results.len()
            invariant
                i <= results@.len(),
                v == result_views(results@),
                failed == count_outcome(v.take(i as int), Outcome::Failed),
                errors == count_outcome(v.take(i as int), Outcome::Error),
                failed + errors <= i,
            decreases results@.len() - i,
        {
            assert(v[i as int] == results@[i as int]@);
            if results[i].outcome == Outcome::Failed {
                failed += 1;
            } else if results[i].outcome == Outcome::Error {
                errors += 1;
            }
            i += 1;
            assert(v.take(i as int).drop_last() =~= v.take(i - 1));
        }
        assert(v.take(results@.len() as int) =~= v);
        if failed + errors >= max {
            return true;
        }
    }
    false
}

// ---------------------------------------------------------------------------
// Tests a worker reported
// ---------------------------------------------------------------------------

/// The node ids a worker has reported results for.
pub struct ReportedIds {
    ids: Vec<String>,
}

impl View for ReportedIds {
    type V = Set<Seq<char>>;

    closed spec fn view(&self) -> Set<Seq<char>> {
        strs(self.ids@).to_set()
    }
}

impl ReportedIds {
    #[verifier::type_invariant]
    closed spec fn distinct(&self) -> bool {
        strs(self.ids@).no_duplicates()
    }

    pub fn new() -> (r: Self)
        ensures
            r@ == Set::<Seq<char>>::empty(),
    {
        let r = ReportedIds { ids: Vec::new() };
        assert(strs(r.ids@).to_set() =~= Set::<Seq<char>>::empty());
        r
    }

    pub fn contains(&self, id: &str) -> (r: bool)
        ensures
            r == self@.contains(id@),
    {
        let mut i: usize = 0;
        while i < self.ids.len()
            invariant
                i <= self.ids@.len(),
                forall|k: int| 0 <= k < i ==> self.ids@[k]@ != id@,
            decreases self.ids@.len() - i,
        {
            if str_eq(self.ids[i].as_str(), id) {
                assert(strs(self.ids@)[i as int] == id@);
                return true;
            }
            i += 1;
        }
        assert(!strs(self.ids@).contains(id@)) by {
            if strs(self.ids@).contains(id@) {
                let k = choose|k: int| 0 <= k < strs(self.ids@).len() && strs(self.ids@)[k] == id@;
                assert(self.ids@[k]@ == id@);
            }
        }
        false
    }

    pub fn insert(&mut self, id: &String)
        ensures
            final(self)@ == old(self)@.insert(id@),
    {
        proof {
            use_type_invariant(&*self);
        }
        if self.contains(id.as_str()) {
            assert(self@.insert(id@) =~= self@);
            return;
        }
        let mut taken = ReportedIds::new();
        std::mem::swap(self, &mut taken);
        proof {
            use_type_invariant(&taken);
        }
        let ReportedIds { ids: mut ids } = taken;
        let ghost before = strs(ids@);
        ids.push(id.clone());
        proof {
            assert(strs(ids@) =~= before.push(id@));
            before.lemma_push_to_set_commute(id@);
        }
        *self = ReportedIds { ids };
    }

    /// The number of distinct ids reported.
    pub fn len(&self) -> (r: usize)
        ensures
            r == self@.len(),
    {
        proof {
            use_type_invariant(self);
            strs(self.ids@).unique_seq_to_set();
        }
        self.ids.len()
    }
}


// ---------------------------------------------------------------------------
// A worker's messages
// ---------------------------------------------------------------------------

/// What one message of a worker does to the run: a result is recorded and
/// its node id marked reported, and reading stops when the stopping rule
/// says so; coverage is merged; `Finished` ends the worker's stream.
/// Returns whether to stop reading this worker.
pub fn handle_message(
    results: &mut Vec<TestResult>,
    reported: &mut ReportedIds,
    coverage: &mut CoverageData,
    msg: WorkerMessage,
    fail_fast: bool,
    max_failures: Option<usize>,
) -> (stop: bool)
    requires
        old(coverage).wf(),
    ensures
        final(coverage).wf(),
        match msg {
            WorkerMessage::Result(r) => {
                &&& result_views(final(results)@) == result_views(old(results)@).push(r@)
                &&& final(reported)@ == old(reported)@.insert(r.node_id@)
                &&& final(coverage)@ == old(coverage)@
                &&& stop == stop_after(result_views(final(results)@), fail_fast, max_failures)
            },
            WorkerMessage::Coverage { kind: _, data } => {
                &&& final(results)@ == old(results)@
                &&& final(reported)@ == old(reported)@
                &&& final(coverage)@ == merged(old(coverage)@, entry_views(data@))
                &&& !stop
            },
            WorkerMessage::Finished { kind: _ } => {
                &&& final(results)@ == old(results)@
                &&& final(reported)@ == old(reported)@
                &&& final(coverage)@ == old(coverage)@
                &&& stop
            },
        },
{
    match msg {
        WorkerMessage::Result(r) => {
            reported.insert(&r.node_id);
            let ghost prev = result_views(results@);
            let ghost rv = r@;
            results.push(r);
            assert(result_views(results@) =~= prev.push(rv));
            should_stop(results.as_slice(), fail_fast, max_failures)
        },
        WorkerMessage::Coverage { kind: _, data } => {
            coverage.merge(&data);
            false
        },
        WorkerMessage::Finished { kind: _ } => true,
    }
}

/// The result recorded for a test its worker never reported.
pub open spec fn crash_view(id: Seq<char>) -> TestResultView {
    TestResultView {
        node_id: id,
        outcome: Outcome::Error,
        stdout: Seq::empty(),
        stderr: Seq::empty(),
        longrepr: "worker process died before running this test"@,
        message: "worker crash"@,
    }
}

/// Error results for the tests of `ids` that are not in `reported`, in order.
pub open spec fn unreported(ids: Seq<Seq<char>>, reported: Set<Seq<char>>) -> Seq<TestResultView>
    decreases ids.len(),
{
    if ids.len() == 0 {
        Seq::empty()
    } else {
        unreported(ids.drop_last(), reported) + if reported.contains(ids.last()) {
            Seq::<TestResultView>::empty()
        } else {
            seq![crash_view(ids.last())]
        }
    }
}

/// Appends an error result for every test of `test_ids` its worker did not
/// report; returns how many were appended.
pub fn fill_unreported(results: &mut Vec<TestResult>, test_ids: &[String], reported: &ReportedIds) -> (added:
    usize)
    ensures
        result_views(final(results)@) == result_views(old(results)@) + unreported(
            strs(test_ids@),
            reported@,
        ),
        added == unreported(strs(test_ids@), reported@).len(),
{
    let ghost start = result_views(results@);
    let ghost ids = strs(test_ids@);
    let mut added: usize = 0;
    let mut i: usize = 0;
    while i < test_ids.len()
        invariant
            i <= test_ids@.len(),
            ids == strs(test_ids@),
            result_views(results@) == start + unreported(ids.take(i as int), reported@),
            added == unreported(ids.take(i as int), reported@).len(),
            added <= i,
        decreases test_ids@.len() - i,
    {
        let id = &test_ids[i];
        assert(ids[i as int] == id@);
        assert(ids.take(i + 1).drop_last() =~= ids.take(i as int));
        let ghost before = result_views(results@);
        if !reported.contains(id.as_str()) {
            let r = TestResult {
                node_id: id.clone(),
                outcome: Outcome::Error,
                stdout: String::new(),
                stderr: String::new(),
                longrepr: lit("worker process died before running this test"),
                message: lit("worker crash"),
            };
            let ghost rv = r@;
            results.push(r);
            assert(rv == crash_view(id@));
            assert(result_views(results@) =~= before.push(rv));
            added += 1;
        }
        i += 1;
    }
    assert(ids.take(test_ids@.len() as int) =~= ids);
    added
}

/// A single worker's stream is incomplete when the worker exited
/// abnormally or reported fewer distinct tests than it was given.
pub fn worker_incomplete(crashed: bool, reported: &ReportedIds, n_tests: usize) -> (r: bool)
    ensures
        r == (crashed || reported@.len() < n_tests),
{
    crashed || reported.len() < n_tests
}

// ---------------------------------------------------------------------------
// Splitting tests among workers
// ---------------------------------------------------------------------------

/// The file part of a node id: the text before the first `::`.
pub open spec fn file_part(id: Seq<char>) -> Seq<char> {
    split_str(id, "::"@)[0]
}

/// Whether test `k` begins a run of tests of the same file.
pub open spec fn starts_group(ids: Seq<Seq<char>>, k: int) -> bool {
    k == 0 || file_part(ids[k]) != file_part(ids[k - 1])
}

/// The index of the file group test `k` belongs to.
pub open spec fn group_of(ids: Seq<Seq<char>>, k: int) -> nat
    decreases k,
{
    if k <= 0 {
        0
    } else {
        group_of(ids, k - 1) + if starts_group(ids, k) {
            1nat
        } else {
            0nat
        }
    }
}

/// The tests of `ids[..m]` whose group goes to worker `b` of `n`.
pub open spec fn bucket_upto(ids: Seq<Seq<char>>, n: nat, b: nat, m: int) -> Seq<Seq<char>>
    decreases m,
{
    if m <= 0 {
        Seq::empty()
    } else {
        bucket_upto(ids, n, b, m - 1) + if group_of(ids, m - 1) % n == b {
            seq![ids[m - 1]]
        } else {
            Seq::<Seq<char>>::empty()
        }
    }
}

pub open spec fn nonempty_bucket() -> spec_fn(Seq<Seq<char>>) -> bool {
    |b: Seq<Seq<char>>| b.len() > 0
}

/// The tests each worker runs: consecutive tests of one file form a group,
/// groups go round-robin to the `n` workers, and workers left without tests
/// are dropped.  With one worker (or none) all tests go to one.
pub open spec fn partitioned(ids: Seq<Seq<char>>, n: nat) -> Seq<Seq<Seq<char>>> {
    if n <= 1 {
        seq![ids]
    } else {
        Seq::new(n, |b: int| bucket_upto(ids, n, b as nat, ids.len() as int)).filter(
            nonempty_bucket(),
        )
    }
}

fn file_part_exec(id: &String) -> (r: String)
    ensures
        r@ == file_part(id@),
{
    let v = chars_of(id.as_str());
    let sep = chars_of("::");
    proof {
        reveal_strlit("::");
    }
    let parts = split_on(&v, &sep);
    assert(strs(parts@)[0] == parts@[0]@);
    parts[0].clone()
}

/// Splits the tests among `n` workers, keeping each file's consecutive
/// tests together.
pub fn partition_by_file(test_ids: &[String], n: usize) -> (r: Vec<Vec<String>>)
    requires
        n > 1 && test_ids@.len() > 0 ==> file_part(test_ids@[0]@).len() > 0,
    ensures
        r@.map_values(|b: Vec<String>| strs(b@)) == partitioned(strs(test_ids@), n as nat),
{
    let ghost ids = strs(test_ids@);
    if n <= 1 {
        let mut all: Vec<String> = Vec::new();
        let mut i: usize = 0;
        while i < test_ids.len()
            invariant
                i <= test_ids@.len(),
                all@.len() == i,
                forall|k: int| 0 <= k < i ==> #[trigger] all@[k]@ == test_ids@[k]@,
            decreases test_ids@.len() - i,
        {
            all.push(test_ids[i].clone());
            i += 1;
        }
        let mut r: Vec<Vec<String>> = Vec::new();
        r.push(all);
        assert(strs(all@) =~= ids);
        assert(r@.map_values(|b: Vec<String>| strs(b@)) =~= seq![ids]);
        return r;
    }
    // Group index of every test.
    let mut groups: Vec<usize> = Vec::new();
    let mut current = String::new();
    let mut g: usize = 0;
    let mut i: usize = 0;
    while i < test_ids.len()
        invariant
            i <= test_ids@.len(),
            ids == strs(test_ids@),
            n > 1,
            test_ids@.len() > 0 ==> file_part(ids[0]).len() > 0,
            groups@.len() == i,
            forall|k: int| 0 <= k < i ==> #[trigger] groups@[k] == group_of(ids, k),
            i > 0 ==> g == group_of(ids, i - 1) && current@ == file_part(ids[i - 1]),
            i == 0 ==> current@.len() == 0,
            g <= i,
        decreases test_ids@.len() - i,
    {
        let file = file_part_exec(&test_ids[i]);
        assert(ids[i as int] == test_ids@[i as int]@);
        if !str_eq(file.as_str(), current.as_str()) {
            if i > 0 {
                g = g + 1;
            }
            current = file;
        } else {
            assert(i > 0);
        }
        groups.push(g);
        i += 1;
    }
    let ghost gs = groups@;
    let mut r: Vec<Vec<String>> = Vec::new();
    let ghost all_buckets = Seq::new(
        n as nat,
        |b: int| bucket_upto(ids, n as nat, b as nat, ids.len() as int),
    );
    let mut b: usize = 0;
    while b < n
        invariant
            b <= n,
            n > 1,
            ids == strs(test_ids@),
            groups@.len() == test_ids@.len(),
            forall|k: int| 0 <= k < groups@.len() ==> #[trigger] groups@[k] == group_of(ids, k),
            all_buckets == Seq::new(
                n as nat,
                |b: int| bucket_upto(ids, n as nat, b as nat, ids.len() as int),
            ),
            r@.map_values(|x: Vec<String>| strs(x@)) == all_buckets.take(b as int).filter(
                nonempty_bucket(),
            ),
        decreases n - b,
    {
        let mut bucket: Vec<String> = Vec::new();
        let mut k: usize = 0;
        while k < test_ids.len()
            invariant
                k <= test_ids@.len(),
                b < n,
                ids == strs(test_ids@),
                groups@.len() == test_ids@.len(),
                forall|j: int| 0 <= j < groups@.len() ==> #[trigger] groups@[j] == group_of(ids, j),
                strs(bucket@) == bucket_upto(ids, n as nat, b as nat, k as int),
            decreases test_ids@.len() - k,
        {
            let ghost prev = strs(bucket@);
            assert(groups@[k as int] == group_of(ids, k as int));
            if groups[k] % n == b {
                bucket.push(test_ids[k].clone());
                assert(strs(bucket@) =~= prev + seq![ids[k as int]]);
            } else {
                assert(strs(bucket@) =~= prev + Seq::<Seq<char>>::empty());
            }
            k += 1;
        }
        proof {
            assert(all_buckets.take(b + 1) =~= all_buckets.take(b as int).push(
                strs(bucket@),
            ));
            all_buckets.take(b as int).lemma_filter_push(strs(bucket@), nonempty_bucket());
        }
        let ghost prev_r = r@.map_values(|x: Vec<String>| strs(x@));
        if bucket.len() > 0 {
            let ghost bv = strs(bucket@);
            r.push(bucket);
            assert(r@.map_values(|x: Vec<String>| strs(x@)) =~= prev_r.push(bv));
        }
        b += 1;
    }
    assert(all_buckets.take(n as int) =~= all_buckets);
    r
}

// ---------------------------------------------------------------------------
// Laws
// ---------------------------------------------------------------------------

/// Every test a worker was given ends up answered: a test the worker did
/// not report gets the error result that stands for a crash, and every such
/// error result is for a test the worker did not report.
pub proof fn law_every_test_answered(ids: Seq<Seq<char>>, reported: Set<Seq<char>>)
    ensures
        forall|k: int|
            0 <= k < ids.len() && !reported.contains(#[trigger] ids[k]) ==> unreported(
                ids,
                reported,
            ).contains(crash_view(ids[k])),
        forall|j: int|
            0 <= j < unreported(ids, reported).len() ==> {
                let e = #[trigger] unreported(ids, reported)[j];
                &&& !reported.contains(e.node_id)
                &&& ids.contains(e.node_id)
                &&& e == crash_view(e.node_id)
            },
    decreases ids.len(),
{
    if ids.len() > 0 {
        let init = ids.drop_last();
        law_every_test_answered(init, reported);
        let prev = unreported(init, reported);
        let all = unreported(ids, reported);
        assert forall|k: int|
            0 <= k < ids.len() && !reported.contains(#[trigger] ids[k]) implies all.contains(
            crash_view(ids[k]),
        ) by {
            if k < ids.len() - 1 {
                assert(init[k] == ids[k]);
                let j = choose|j: int| 0 <= j < prev.len() && prev[j] == crash_view(init[k]);
                assert(all[j] == prev[j]);
            } else {
                assert(all[prev.len() as int] == crash_view(ids[k]));
            }
        }
        assert forall|j: int| 0 <= j < all.len() implies {
            let e = #[trigger] all[j];
            &&& !reported.contains(e.node_id)
            &&& ids.contains(e.node_id)
            &&& e == crash_view(e.node_id)
        } by {
            if j < prev.len() {
                assert(all[j] == prev[j]);
                let i = choose|i: int| 0 <= i < init.len() && init[i] == prev[j].node_id;
                assert(ids[i] == init[i]);
            } else {
                assert(ids[ids.len() - 1] == ids.last());
            }
        }
    }
}

/// The multiset of the items of all the sequences of `s`.
pub open spec fn items_of(s: Seq<Seq<Seq<char>>>) -> Multiset<Seq<char>>
    decreases s.len(),
{
    if s.len() == 0 {
        Multiset::empty()
    } else {
        items_of(s.drop_last()).add(s.last().to_multiset())
    }
}

/// The tests of `ids[..m]` given to workers `0..c` of `n`.
pub open spec fn given_upto(ids: Seq<Seq<char>>, n: nat, c: nat, m: int) -> Multiset<Seq<char>>
    decreases c,
{
    if c == 0 {
        Multiset::empty()
    } else {
        given_upto(ids, n, (c - 1) as nat, m).add(
            bucket_upto(ids, n, (c - 1) as nat, m).to_multiset(),
        )
    }
}

proof fn lemma_flatten_items(s: Seq<Seq<Seq<char>>>)
    ensures
        s.flatten().to_multiset() =~= items_of(s),
    decreases s.len(),
{
    broadcast use vstd::seq_lib::group_to_multiset_ensures;
    broadcast use vstd::multiset::group_multiset_axioms;

    if s.len() > 0 {
        lemma_flatten_items(s.drop_last());
        assert(s.drop_last().push(s.last()) =~= s);
        s.drop_last().lemma_flatten_push(s.last());
        vstd::seq_lib::lemma_multiset_commutative(s.drop_last().flatten(), s.last());
    }
}

proof fn lemma_items_of_filter(s: Seq<Seq<Seq<char>>>)
    ensures
        items_of(s.filter(nonempty_bucket())) =~= items_of(s),
    decreases s.len(),
{
    broadcast use vstd::seq_lib::group_to_multiset_ensures;
    broadcast use vstd::multiset::group_multiset_axioms;

    if s.len() > 0 {
        let init = s.drop_last();
        lemma_items_of_filter(init);
        assert(init.push(s.last()) =~= s);
        init.lemma_filter_push(s.last(), nonempty_bucket());
        if s.last().len() == 0 {
            assert(s.last().to_multiset() =~= Multiset::empty());
        } else {
            let f = init.filter(nonempty_bucket());
            assert(f.push(s.last()).drop_last() =~= f);
        }
    }
}

proof fn lemma_items_of_buckets(ids: Seq<Seq<char>>, n: nat, c: nat)
    requires
        c <= n,
    ensures
        items_of(
            Seq::new(n, |b: int| bucket_upto(ids, n, b as nat, ids.len() as int)).take(c as int),
        ) =~= given_upto(ids, n, c, ids.len() as int),
    decreases c,
{
    let all = Seq::new(n, |b: int| bucket_upto(ids, n, b as nat, ids.len() as int));
    if c > 0 {
        lemma_items_of_buckets(ids, n, (c - 1) as nat);
        assert(all.take(c as int).drop_last() =~= all.take(c - 1));
    }
}

/// Adding test `m` adds it to exactly the worker of its group.
proof fn lemma_given_step(ids: Seq<Seq<char>>, n: nat, c: nat, m: int)
    requires
        0 <= m < ids.len(),
        n > 0,
    ensures
        given_upto(ids, n, c, m + 1) =~= if group_of(ids, m) % n < c {
            given_upto(ids, n, c, m).insert(ids[m])
        } else {
            given_upto(ids, n, c, m)
        },
    decreases c,
{
    broadcast use vstd::seq_lib::group_to_multiset_ensures;
    broadcast use vstd::multiset::group_multiset_axioms;

    if c > 0 {
        lemma_given_step(ids, n, (c - 1) as nat, m);
        let b = (c - 1) as nat;
        let prev = bucket_upto(ids, n, b, m);
        if group_of(ids, m) % n == b {
            assert(bucket_upto(ids, n, b, m + 1) =~= prev.push(ids[m]));
        } else {
            assert(bucket_upto(ids, n, b, m + 1) =~= prev);
        }
    }
}

proof fn lemma_given_all(ids: Seq<Seq<char>>, n: nat, m: int)
    requires
        0 <= m <= ids.len(),
        n > 0,
    ensures
        given_upto(ids, n, n, m) =~= ids.take(m).to_multiset(),
    decreases m,
{
    broadcast use vstd::seq_lib::group_to_multiset_ensures;

    if m == 0 {
        lemma_given_empty(ids, n, n);
        assert(ids.take(0) =~= Seq::<Seq<char>>::empty());
    } else {
        lemma_given_all(ids, n, m - 1);
        lemma_given_step(ids, n, n, m - 1);
        assert(ids.take(m) =~= ids.take(m - 1).push(ids[m - 1]));
    }
}

proof fn lemma_given_empty(ids: Seq<Seq<char>>, n: nat, c: nat)
    ensures
        given_upto(ids, n, c, 0) =~= Multiset::empty(),
    decreases c,
{
    broadcast use vstd::seq_lib::group_to_multiset_ensures;
    broadcast use vstd::multiset::group_multiset_axioms;

    if c > 0 {
        lemma_given_empty(ids, n, (c - 1) as nat);
        assert(bucket_upto(ids, n, (c - 1) as nat, 0) =~= Seq::<Seq<char>>::empty());
    }
}

/// Splitting tests among workers loses no test and runs none twice: the
/// workers' tests, taken together, are the given tests, each as often as it
/// was given.  With more than one worker no worker is left without tests,
/// and there are at most as many groups of tests as workers.
pub proof fn law_partition_keeps_every_test(ids: Seq<Seq<char>>, n: nat)
    ensures
        partitioned(ids, n).flatten().to_multiset() =~= ids.to_multiset(),
        n > 1 ==> partitioned(ids, n).len() <= n,
        n > 1 ==> forall|i: int|
            0 <= i < partitioned(ids, n).len() ==> #[trigger] partitioned(ids, n)[i].len() > 0,
{
    let p = partitioned(ids, n);
    lemma_flatten_items(p);
    if n <= 1 {
        broadcast use vstd::multiset::group_multiset_axioms;

        assert(p.drop_last() =~= Seq::<Seq<Seq<char>>>::empty());
        assert(p.last() == ids);
        assert(items_of(p.drop_last()) == Multiset::<Seq<char>>::empty());
        assert(items_of(p) =~= Multiset::empty().add(ids.to_multiset()));
    } else {
        broadcast use vstd::seq_lib::group_filter_ensures;

        let all = Seq::new(n, |b: int| bucket_upto(ids, n, b as nat, ids.len() as int));
        lemma_items_of_filter(all);
        lemma_items_of_buckets(ids, n, n);
        assert(all.take(n as int) =~= all);
        lemma_given_all(ids, n, ids.len() as int);
        assert(ids.take(ids.len() as int) =~= ids);
        assert forall|i: int| 0 <= i < p.len() implies #[trigger] p[i].len() > 0 by {
            all.lemma_filter_pred(nonempty_bucket(), i);
        }
    }
}

} // verus!
