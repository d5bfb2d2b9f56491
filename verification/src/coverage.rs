//! Line coverage gathered from the workers, kept per file in order of file
//! name, and the reports made from it.
use vstd::prelude::*;
use vstd::set_lib::{lemma_len_subset, lemma_map_size, lemma_set_disjoint_lens};
use crate::text::{decimal, lit, push_decimal, push_str, str_eq};

verus! {

// ---------------------------------------------------------------------------
// Ordering file names
// ---------------------------------------------------------------------------

/// Lexicographic order by code point, the order `String` keys have in a
/// sorted map (UTF-8 byte order and code-point order agree).
pub open spec fn lex_lt(a: Seq<char>, b: Seq<char>) -> bool
    decreases a.len(),
{
    if a.len() == 0 {
        b.len() > 0
    } else if b.len() == 0 {
        false
    } else if a[0] != b[0] {
        (a[0] as int) < (b[0] as int)
    } else {
        lex_lt(a.drop_first(), b.drop_first())
    }
}

pub proof fn lemma_lex_irreflexive(a: Seq<char>)
    ensures
        !lex_lt(a, a),
    decreases a.len(),
{
    if a.len() > 0 {
        lemma_lex_irreflexive(a.drop_first());
    }
}

pub proof fn lemma_lex_trans(a: Seq<char>, b: Seq<char>, c: Seq<char>)
    requires
        lex_lt(a, b),
        lex_lt(b, c),
    ensures
        lex_lt(a, c),
    decreases a.len(),
{
    if a.len() > 0 && b.len() > 0 && c.len() > 0 && a[0] == b[0] && b[0] == c[0] {
        lemma_lex_trans(a.drop_first(), b.drop_first(), c.drop_first());
    }
}

pub proof fn lemma_lex_total(a: Seq<char>, b: Seq<char>)
    ensures
        a == b || lex_lt(a, b) || lex_lt(b, a),
    decreases a.len(),
{
    if a.len() > 0 && b.len() > 0 {
        if a[0] == b[0] {
            lemma_lex_total(a.drop_first(), b.drop_first());
            if a.drop_first() == b.drop_first() {
                assert(a =~= seq![a[0]] + a.drop_first());
                assert(b =~= seq![b[0]] + b.drop_first());
            }
        } else {
            assert((a[0] as int) != (b[0] as int));
        }
    } else if a.len() == 0 && b.len() == 0 {
        assert(a =~= b);
    }
}

/// Whether `a` comes before `b`.
pub(crate) fn lex_less(a: &str, b: &str) -> (r: bool)
    ensures
        r == lex_lt(a@, b@),
{
    let va = crate::text::chars_of(a);
    let vb = crate::text::chars_of(b);
    let mut i: usize = 0;
    assert(va@.skip(0) =~= va@);
    assert(vb@.skip(0) =~= vb@);
    while i < va.len() && i < vb.len() && va[i] == vb[i]
        invariant
            i <= va@.len(),
            i <= vb@.len(),
            lex_lt(va@, vb@) == lex_lt(va@.skip(i as int), vb@.skip(i as int)),
        decreases va@.len() - i,
    {
        proof {
            assert(va@.skip(i as int).drop_first() =~= va@.skip(i + 1));
            assert(vb@.skip(i as int).drop_first() =~= vb@.skip(i + 1));
        }
        i += 1;
    }
    if i == va.len() {
        i < vb.len()
    } else if i == vb.len() {
        false
    } else {
        {
        proof {
            assert(va@.skip(i as int)[0] == va@[i as int]);
            assert(vb@.skip(i as int)[0] == vb@[i as int]);
        }
        va[i] < vb[i]
    }
    }
}


// ---------------------------------------------------------------------------
// Coverage data
// ---------------------------------------------------------------------------

/// Aggregated coverage across all workers: for each file (by relative
/// path), its covered line numbers.  Files are kept in increasing order of
/// name and each file's lines in increasing order, without repeats.
#[derive(Debug)]
pub struct CoverageData {
    pub files: Vec<(String, Vec<usize>)>,
}

pub open spec fn entry_views(v: Seq<(String, Vec<usize>)>) -> Seq<(Seq<char>, Seq<usize>)> {
    v.map_values(|e: (String, Vec<usize>)| (e.0@, e.1@))
}

pub open spec fn increasing(s: Seq<usize>) -> bool {
    forall|i: int, j: int| 0 <= i < j < s.len() ==> s[i] < s[j]
}

pub open spec fn names_increasing(e: Seq<(Seq<char>, Seq<usize>)>) -> bool {
    forall|i: int, j: int| 0 <= i < j < e.len() ==> lex_lt(e[i].0, e[j].0)
}

pub open spec fn entries_wf(e: Seq<(Seq<char>, Seq<usize>)>) -> bool {
    &&& names_increasing(e)
    &&& forall|i: int| 0 <= i < e.len() ==> increasing(#[trigger] e[i].1)
}

/// Covered lines by file name.
pub open spec fn cov_map(e: Seq<(Seq<char>, Seq<usize>)>) -> Map<Seq<char>, Set<usize>>
    decreases e.len(),
{
    if e.len() == 0 {
        Map::empty()
    } else {
        cov_map(e.drop_last()).insert(e.last().0, e.last().1.to_set())
    }
}

/// Lines over all files, counting each entry's list.
pub open spec fn line_total(e: Seq<(Seq<char>, Seq<usize>)>) -> nat
    decreases e.len(),
{
    if e.len() == 0 {
        0
    } else {
        line_total(e.drop_last()) + e.last().1.len()
    }
}

impl View for CoverageData {
    type V = Map<Seq<char>, Set<usize>>;

    open spec fn view(&self) -> Map<Seq<char>, Set<usize>> {
        cov_map(entry_views(self.files@))
    }
}

impl CoverageData {
    pub open spec fn entries(&self) -> Seq<(Seq<char>, Seq<usize>)> {
        entry_views(self.files@)
    }

    pub open spec fn wf(&self) -> bool {
        entries_wf(self.entries())
    }
}

impl Default for CoverageData {
    fn default() -> (r: Self)
        ensures
            r.wf(),
            r@ == Map::<Seq<char>, Set<usize>>::empty(),
            r.entries().len() == 0,
    {
        CoverageData { files: Vec::new() }
    }
}

proof fn lemma_cov_map_keys(e: Seq<(Seq<char>, Seq<usize>)>)
    requires
        names_increasing(e),
    ensures
        forall|k: Seq<char>|
            cov_map(e).contains_key(k) <==> exists|i: int| 0 <= i < e.len() && e[i].0 == k,
        forall|i: int|
            0 <= i < e.len() ==> cov_map(e).contains_key(e[i].0) && #[trigger] cov_map(e)[e[i].0]
                == e[i].1.to_set(),
        cov_map(e).dom().finite(),
        cov_map(e).dom().len() == e.len(),
    decreases e.len(),
{
    if e.len() > 0 {
        let p = e.drop_last();
        assert(names_increasing(p));
        lemma_cov_map_keys(p);
        let last = e.last();
        assert forall|i: int| 0 <= i < p.len() implies p[i].0 != last.0 by {
            assert(lex_lt(e[i].0, e[e.len() - 1].0));
            lemma_lex_irreflexive(last.0);
        }
        assert(!cov_map(p).contains_key(last.0));
        assert forall|k: Seq<char>|
            cov_map(e).contains_key(k) <==> exists|i: int| 0 <= i < e.len() && e[i].0 == k by {
            if cov_map(e).contains_key(k) && k != last.0 {
                let i = choose|i: int| 0 <= i < p.len() && p[i].0 == k;
                assert(e[i].0 == k);
            }
            if exists|i: int| 0 <= i < e.len() && e[i].0 == k {
                let i = choose|i: int| 0 <= i < e.len() && e[i].0 == k;
                if i < p.len() {
                    assert(p[i].0 == k);
                }
            }
        }
        assert forall|i: int| 0 <= i < e.len() implies cov_map(e).contains_key(e[i].0)
            && #[trigger] cov_map(e)[e[i].0] == e[i].1.to_set() by {
            if i < p.len() {
                assert(p[i] == e[i]);
                assert(p[i].0 != last.0);
            }
        }
    }
}

/// The position of `file` among the sorted names, or where it would go.
fn find_file(files: &Vec<(String, Vec<usize>)>, file: &String) -> (r: (usize, bool))
    requires
        names_increasing(entry_views(files@)),
    ensures
        r.0 <= files@.len(),
        forall|j: int| 0 <= j < r.0 ==> lex_lt(entry_views(files@)[j].0, file@),
        r.1 ==> r.0 < files@.len() && files@[r.0 as int].0@ == file@,
        !r.1 && r.0 < files@.len() ==> lex_lt(file@, files@[r.0 as int].0@),
{
    let ghost e = entry_views(files@);
    let mut i: usize = 0;
    while i < files.len()
        invariant
            i <= files@.len(),
            e == entry_views(files@),
            forall|j: int| 0 <= j < i ==> lex_lt(e[j].0, file@),
        decreases files@.len() - i,
    {
        assert(e[i as int].0 == files@[i as int].0@);
        if !lex_less(files[i].0.as_str(), file.as_str()) {
            let same = str_eq(files[i].0.as_str(), file.as_str());
            proof {
                lemma_lex_total(files@[i as int].0@, file@);
            }
            return (i, same);
        }
        i += 1;
    }
    (i, false)
}

/// `lines` with `line` added, kept increasing.
fn insert_line(lines: &mut Vec<usize>, line: usize)
    requires
        increasing(old(lines)@),
    ensures
        increasing(final(lines)@),
        final(lines)@.to_set() == old(lines)@.to_set().insert(line),
{
    let mut i: usize = 0;
    while i < lines.len() && lines[i] < line
        invariant
            i <= lines@.len(),
            forall|j: int| 0 <= j < i ==> lines@[j] < line,
        decreases lines@.len() - i,
    {
        i += 1;
    }
    if i < lines.len() && lines[i] == line {
        assert(old(lines)@.to_set().insert(line) =~= old(lines)@.to_set());
        return;
    }
    let ghost before = lines@;
    lines.insert(i, line);
    assert(lines@ =~= before.take(i as int).push(line) + before.skip(i as int));
    assert forall|a: int, b: int| 0 <= a < b < lines@.len() implies lines@[a] < lines@[b] by {
        if a < i && b > i {
            assert(lines@[b] == before[b - 1]);
            assert(before[b - 1] >= before[i as int]) by {
                if b - 1 > i {
                }
            }
        }
        if a > i {
            assert(lines@[a] == before[a - 1]);
            assert(lines@[b] == before[b - 1]);
        }
        if a == i && b > i {
            assert(lines@[b] == before[b - 1]);
            assert(before[i as int] >= line);
            if b - 1 > i {
            }
        }
    }
    assert(lines@.to_set() =~= before.to_set().insert(line)) by {
        assert forall|x: usize| lines@.to_set().contains(x) implies before.to_set().insert(
            line,
        ).contains(x) by {
            let k = choose|k: int| 0 <= k < lines@.len() && lines@[k] == x;
            if k < i {
                assert(before[k] == x);
            } else if k > i {
                assert(before[k - 1] == x);
            }
        }
        assert forall|x: usize| before.to_set().insert(line).contains(x) implies lines@.to_set(
        ).contains(x) by {
            if x == line {
                assert(lines@[i as int] == line);
            } else {
                let k = choose|k: int| 0 <= k < before.len() && before[k] == x;
                if k < i {
                    assert(lines@[k] == x);
                } else {
                    assert(lines@[k + 1] == x);
                }
            }
        }
    }
}


/// `m` with `lines` added to the lines of `file` (creating its entry).
pub open spec fn merge_entry(
    m: Map<Seq<char>, Set<usize>>,
    file: Seq<char>,
    lines: Seq<usize>,
) -> Map<Seq<char>, Set<usize>> {
    m.insert(
        file,
        (if m.contains_key(file) {
            m[file]
        } else {
            Set::empty()
        }).union(lines.to_set()),
    )
}

/// `m` with every entry of `other` merged in.
pub open spec fn merged(m: Map<Seq<char>, Set<usize>>, other: Seq<(Seq<char>, Seq<usize>)>) -> Map<
    Seq<char>,
    Set<usize>,
>
    decreases other.len(),
{
    if other.len() == 0 {
        m
    } else {
        let o = other.last();
        merge_entry(merged(m, other.drop_last()), o.0, o.1)
    }
}

proof fn lemma_entries_replace(
    e: Seq<(Seq<char>, Seq<usize>)>,
    e2: Seq<(Seq<char>, Seq<usize>)>,
    i: int,
    file: Seq<char>,
    lines: Seq<usize>,
    found: bool,
)
    requires
        entries_wf(e),
        increasing(lines),
        0 <= i <= e.len(),
        forall|j: int| 0 <= j < i ==> lex_lt(e[j].0, file),
        found ==> i < e.len() && e[i].0 == file && e2 == e.update(i, (file, lines)),
        !found ==> (i < e.len() ==> lex_lt(file, e[i].0)) && e2 == e.insert(i, (file, lines)),
    ensures
        entries_wf(e2),
        cov_map(e2) == cov_map(e).insert(file, lines.to_set()),
{
    lemma_cov_map_keys(e);
    if found {
        assert forall|a: int, b: int| 0 <= a < b < e2.len() implies lex_lt(e2[a].0, e2[b].0) by {
            assert(lex_lt(e[a].0, e[b].0));
        }
        assert forall|a: int| 0 <= a < e2.len() implies increasing(#[trigger] e2[a].1) by {
            if a != i {
                assert(increasing(e[a].1));
            }
        }
    } else {
        assert forall|a: int, b: int| 0 <= a < b < e2.len() implies lex_lt(e2[a].0, e2[b].0) by {
            if b < i {
                assert(lex_lt(e[a].0, e[b].0));
            } else if b == i {
                assert(e2[a] == e[a]);
            } else if a < i {
                assert(e2[b] == e[b - 1]);
                assert(e2[a] == e[a]);
                assert(lex_lt(e[i].0, e[b - 1].0) || i == b - 1);
                assert(lex_lt(file, e[b - 1].0)) by {
                    if i < b - 1 {
                        lemma_lex_trans(file, e[i].0, e[b - 1].0);
                    }
                }
                lemma_lex_trans(e[a].0, file, e[b - 1].0);
            } else if a == i {
                assert(e2[b] == e[b - 1]);
                if i < b - 1 {
                    lemma_lex_trans(file, e[i].0, e[b - 1].0);
                }
            } else {
                assert(e2[b] == e[b - 1]);
                assert(e2[a] == e[a - 1]);
                assert(lex_lt(e[a - 1].0, e[b - 1].0));
            }
        }
        assert forall|a: int| 0 <= a < e2.len() implies increasing(#[trigger] e2[a].1) by {
            if a < i {
                assert(increasing(e[a].1));
            } else if a > i {
                assert(e2[a] == e[a - 1]);
                assert(increasing(e[a - 1].1));
            }
        }
    }
    lemma_cov_map_keys(e2);
    let m2 = cov_map(e).insert(file, lines.to_set());
    assert forall|k: Seq<char>| cov_map(e2).contains_key(k) <==> m2.contains_key(k) by {
        if cov_map(e2).contains_key(k) && k != file {
            let j = choose|j: int| 0 <= j < e2.len() && e2[j].0 == k;
            if found {
                assert(j != i);
                assert(e[j].0 == k);
            } else if j < i {
                assert(e[j].0 == k);
            } else {
                assert(j != i);
                assert(e[j - 1].0 == k);
            }
        }
        if cov_map(e).contains_key(k) {
            let j = choose|j: int| 0 <= j < e.len() && e[j].0 == k;
            if found || j < i {
                if !(found && j == i) {
                    assert(e2[j].0 == k);
                }
            } else {
                assert(e2[j + 1].0 == k);
            }
        }
        if k == file {
            assert(e2[i].0 == file);
        }
    }
    assert forall|k: Seq<char>| #[trigger] cov_map(e2).contains_key(k) implies cov_map(e2)[k]
        == m2[k] by {
        let j = choose|j: int| 0 <= j < e2.len() && e2[j].0 == k;
        if j == i {
        } else if found || j < i {
            assert(e2[j] == e[j]);
            assert(e[j].0 != file) by {
                if found {
                    assert(lex_lt(e[j].0, e[i].0) || lex_lt(e[i].0, e[j].0));
                    lemma_lex_irreflexive(file);
                } else {
                    lemma_lex_irreflexive(file);
                }
            }
        } else {
            assert(e2[j] == e[j - 1]);
            assert(e[j - 1].0 != file) by {
                lemma_lex_irreflexive(file);
                if j - 1 > i {
                    lemma_lex_trans(file, e[i].0, e[j - 1].0);
                }
            }
        }
    }
    assert(cov_map(e2) =~= m2);
}

/// An increasing list has as many lines as its set.
proof fn lemma_increasing_set_len(s: Seq<usize>)
    requires
        increasing(s),
    ensures
        s.to_set().len() == s.len(),
        s.to_set().finite(),
{
    assert(s.no_duplicates());
    s.unique_seq_to_set();
    vstd::seq_lib::seq_to_set_is_finite(s);
}

/// Each file's count of covered lines is its number of distinct covered
/// lines, so the total over the entries counts every covered line of every
/// file once.
pub proof fn law_line_counts_are_distinct(e: Seq<(Seq<char>, Seq<usize>)>)
    requires
        entries_wf(e),
    ensures
        forall|i: int|
            0 <= i < e.len() ==> #[trigger] e[i].1.len() == cov_map(e)[e[i].0].len(),
{
    lemma_cov_map_keys(e);
    assert forall|i: int| 0 <= i < e.len() implies #[trigger] e[i].1.len() == cov_map(
        e,
    )[e[i].0].len() by {
        assert(increasing(e[i].1));
        lemma_increasing_set_len(e[i].1);
    }
}

impl CoverageData {
    /// Adds the covered `lines` of `file`.
    fn merge_file(&mut self, file: &String, lines: &Vec<usize>)
        requires
            old(self).wf(),
        ensures
            final(self).wf(),
            final(self)@ == merge_entry(old(self)@, file@, lines@),
    {
        let ghost e = self.entries();
        proof {
            lemma_cov_map_keys(e);
        }
        let (i, found) = find_file(&self.files, file);
        let mut entry_lines: Vec<usize> = if found {
            let (_, ls) = self.files.remove(i);
            ls
        } else {
            Vec::new()
        };
        let ghost start: Set<usize> = if found {
            e[i as int].1.to_set()
        } else {
            Set::empty()
        };
        proof {
            if found {
                assert(entry_lines@ == e[i as int].1);
                assert(increasing(e[i as int].1));
            }
            assert(entry_lines@.to_set() =~= start);
        }
        let mut k: usize = 0;
        while k < lines.len()
            invariant
                k <= lines@.len(),
                increasing(entry_lines@),
                entry_lines@.to_set() == start.union(lines@.take(k as int).to_set()),
            decreases lines@.len() - k,
        {
            insert_line(&mut entry_lines, lines[k]);
            k += 1;
            assert(lines@.take(k as int).to_set() =~= lines@.take(k - 1).to_set().insert(
                lines@[k - 1],
            )) by {
                assert(lines@.take(k as int) =~= lines@.take(k - 1).push(lines@[k - 1]));
                lines@.take(k - 1).lemma_push_to_set_commute(lines@[k - 1]);
            }
        }
        assert(lines@.take(lines@.len() as int) =~= lines@);
        let ghost new_lines = entry_lines@;
        let ghost before = self.files@;
        self.files.insert(i, (file.clone(), entry_lines));
        proof {
            let e2 = self.entries();
            if found {
                assert(e2 =~= e.update(i as int, (file@, new_lines)));
                assert(e[i as int].0 == file@);
                assert(cov_map(e)[e[i as int].0] == e[i as int].1.to_set());
                assert(cov_map(e).contains_key(file@));
                assert(cov_map(e)[file@] == start);
            } else {
                assert(e2 =~= e.insert(i as int, (file@, new_lines)));
                assert(!cov_map(e).contains_key(file@)) by {
                    if cov_map(e).contains_key(file@) {
                        let j = choose|j: int| 0 <= j < e.len() && e[j].0 == file@;
                        lemma_lex_irreflexive(file@);
                        if j >= i {
                            if j > i {
                                lemma_lex_trans(file@, e[i as int].0, e[j].0);
                            }
                        }
                    }
                }
            }
            lemma_entries_replace(e, e2, i as int, file@, new_lines, found);
        }
    }

    /// Merges the coverage a worker reported.
    pub fn merge(&mut self, other: &Vec<(String, Vec<usize>)>)
        requires
            old(self).wf(),
        ensures
            final(self).wf(),
            final(self)@ == merged(old(self)@, entry_views(other@)),
            line_total(final(self).entries()) == line_total(old(self).entries()) + reported_pairs(
                entry_views(other@),
            ).difference(covered_pairs(old(self)@)).len(),
    {
        let mut k: usize = 0;
        while k < other.len()
            invariant
                k <= other@.len(),
                self.wf(),
                self@ == merged(old(self)@, entry_views(other@).take(k as int)),
            decreases other@.len() - k,
        {
            self.merge_file(&other[k].0, &other[k].1);
            k += 1;
            assert(entry_views(other@).take(k as int).drop_last() =~= entry_views(other@).take(
                k - 1,
            ));
        }
        assert(entry_views(other@).take(other@.len() as int) =~= entry_views(other@));
        proof {
            let a = covered_pairs(old(self)@);
            let r = reported_pairs(entry_views(other@));
            law_total_counts_covered_pairs(old(self).entries());
            law_total_counts_covered_pairs(self.entries());
            law_merge_adds_reported_pairs(old(self)@, entry_views(other@));
            assert(a.union(r) =~= a + r.difference(a));
            lemma_len_subset(r.difference(a), a.union(r));
            assert(a.disjoint(r.difference(a)));
            lemma_set_disjoint_lens(a, r.difference(a));
        }
    }

    /// The number of covered lines over all files.
    pub fn total_lines(&self) -> (r: usize)
        requires
            line_total(self.entries()) <= usize::MAX,
        ensures
            r == line_total(self.entries()),
    {
        let mut total: usize = 0;
        let mut i: usize = 0;
        while i < self.files.len()
            invariant
                i <= self.files@.len(),
                line_total(self.entries()) <= usize::MAX,
                total == line_total(self.entries().take(i as int)),
            decreases self.files@.len() - i,
        {
            proof {
                lemma_line_total_prefix(self.entries(), i + 1);
                assert(self.entries().take(i + 1).drop_last() =~= self.entries().take(i as int));
            }
            total = total + self.files[i].1.len();
            i += 1;
        }
        assert(self.entries().take(self.files@.len() as int) =~= self.entries());
        total
    }

    /// The number of files with coverage.
    pub fn total_files(&self) -> (r: usize)
        requires
            self.wf(),
        ensures
            r == self@.dom().len(),
    {
        proof {
            lemma_cov_map_keys(self.entries());
        }
        self.files.len()
    }
}

/// The lines `other` reports for `file`, over all its entries for it.
pub open spec fn reported_lines(other: Seq<(Seq<char>, Seq<usize>)>, file: Seq<char>) -> Set<usize>
    decreases other.len(),
{
    if other.len() == 0 {
        Set::empty()
    } else {
        let rest = reported_lines(other.drop_last(), file);
        if other.last().0 == file {
            rest.union(other.last().1.to_set())
        } else {
            rest
        }
    }
}

/// Whether `other` has an entry for `file`.
pub open spec fn reports_file(other: Seq<(Seq<char>, Seq<usize>)>, file: Seq<char>) -> bool {
    exists|i: int| 0 <= i < other.len() && #[trigger] other[i].0 == file
}

pub open spec fn lines_in(m: Map<Seq<char>, Set<usize>>, file: Seq<char>) -> Set<usize> {
    if m.contains_key(file) {
        m[file]
    } else {
        Set::empty()
    }
}

/// What merging does to one file: it is covered afterwards when it was
/// before or `other` reports it, with the lines it had and those reported.
proof fn lemma_merged_at(
    m: Map<Seq<char>, Set<usize>>,
    other: Seq<(Seq<char>, Seq<usize>)>,
    file: Seq<char>,
)
    ensures
        merged(m, other).contains_key(file) == (m.contains_key(file) || reports_file(
            other,
            file,
        )),
        lines_in(merged(m, other), file) == lines_in(m, file).union(
            reported_lines(other, file),
        ),
    decreases other.len(),
{
    if other.len() == 0 {
        assert(lines_in(m, file).union(Set::empty()) =~= lines_in(m, file));
    } else {
        let init = other.drop_last();
        let o = other.last();
        lemma_merged_at(m, init, file);
        let before = merged(m, init);
        if o.0 == file {
            assert(other[other.len() - 1].0 == file);
            assert(lines_in(before, file).union(o.1.to_set()) =~= lines_in(m, file).union(
                reported_lines(init, file),
            ).union(o.1.to_set()));
            assert(lines_in(m, file).union(reported_lines(init, file)).union(o.1.to_set())
                =~= lines_in(m, file).union(reported_lines(other, file)));
        } else {
            if reports_file(other, file) {
                let i = choose|i: int| 0 <= i < other.len() && #[trigger] other[i].0 == file;
                assert(init[i].0 == file);
            }
            if reports_file(init, file) {
                let i = choose|i: int| 0 <= i < init.len() && #[trigger] init[i].0 == file;
                assert(other[i].0 == file);
            }
        }
    }
}

/// Coverage from several workers comes out the same whatever order their
/// reports arrive in, and merging a report a second time changes nothing.
pub proof fn law_merge_order_irrelevant(
    m: Map<Seq<char>, Set<usize>>,
    a: Seq<(Seq<char>, Seq<usize>)>,
    b: Seq<(Seq<char>, Seq<usize>)>,
)
    ensures
        merged(merged(m, a), b) == merged(merged(m, b), a),
        merged(merged(m, a), a) == merged(m, a),
{
    let ab = merged(merged(m, a), b);
    let ba = merged(merged(m, b), a);
    let aa = merged(merged(m, a), a);
    assert forall|f: Seq<char>| #[trigger] ab.contains_key(f) == ba.contains_key(f) && (
    ab.contains_key(f) ==> ab[f] == ba[f]) by {
        lemma_merged_at(m, a, f);
        lemma_merged_at(merged(m, a), b, f);
        lemma_merged_at(m, b, f);
        lemma_merged_at(merged(m, b), a, f);
        assert(lines_in(m, f).union(reported_lines(a, f)).union(reported_lines(b, f))
            =~= lines_in(m, f).union(reported_lines(b, f)).union(reported_lines(a, f)));
    }
    assert(ab =~= ba);
    assert forall|f: Seq<char>| #[trigger] aa.contains_key(f) == merged(m, a).contains_key(f) && (
    aa.contains_key(f) ==> aa[f] == merged(m, a)[f]) by {
        lemma_merged_at(m, a, f);
        lemma_merged_at(merged(m, a), a, f);
        assert(lines_in(m, f).union(reported_lines(a, f)).union(reported_lines(a, f))
            =~= lines_in(m, f).union(reported_lines(a, f)));
    }
    assert(aa =~= merged(m, a));
}

/// Every (file, line) pair that `m` holds as covered.
pub open spec fn covered_pairs(m: Map<Seq<char>, Set<usize>>) -> Set<(Seq<char>, usize)> {
    Set::new(|p: (Seq<char>, usize)| m.contains_key(p.0) && m[p.0].contains(p.1))
}

/// Every (file, line) pair that the entries of a report name.
pub open spec fn reported_pairs(other: Seq<(Seq<char>, Seq<usize>)>) -> Set<(Seq<char>, usize)> {
    Set::new(|p: (Seq<char>, usize)| reported_lines(other, p.0).contains(p.1))
}

/// Merging adds exactly the (file, line) pairs that the report names.
pub proof fn law_merge_adds_reported_pairs(
    m: Map<Seq<char>, Set<usize>>,
    other: Seq<(Seq<char>, Seq<usize>)>,
)
    ensures
        covered_pairs(merged(m, other)) == covered_pairs(m).union(reported_pairs(other)),
{
    assert forall|p: (Seq<char>, usize)|
        #[trigger] covered_pairs(merged(m, other)).contains(p) == covered_pairs(m).union(
            reported_pairs(other),
        ).contains(p) by {
        lemma_merged_at(m, other, p.0);
        let mm = merged(m, other);
        assert(covered_pairs(mm).contains(p) == lines_in(mm, p.0).contains(p.1));
        assert(covered_pairs(m).contains(p) == lines_in(m, p.0).contains(p.1));
    }
    assert(covered_pairs(merged(m, other)) =~= covered_pairs(m).union(reported_pairs(other)));
}

/// The line total of well-formed entries is the number of distinct
/// (file, line) pairs they cover.
pub proof fn law_total_counts_covered_pairs(e: Seq<(Seq<char>, Seq<usize>)>)
    requires
        entries_wf(e),
    ensures
        covered_pairs(cov_map(e)).finite(),
        line_total(e) == covered_pairs(cov_map(e)).len(),
    decreases e.len(),
{
    if e.len() == 0 {
        assert(covered_pairs(cov_map(e)) =~= Set::empty());
    } else {
        let init = e.drop_last();
        let f = e.last().0;
        let ls = e.last().1;
        assert(entries_wf(init)) by {
            assert forall|i: int| 0 <= i < init.len() implies increasing(#[trigger] init[i].1) by {
                assert(init[i] == e[i]);
            }
        }
        law_total_counts_covered_pairs(init);
        lemma_cov_map_keys(init);
        assert(!cov_map(init).contains_key(f)) by {
            if cov_map(init).contains_key(f) {
                let i = choose|i: int| 0 <= i < init.len() && init[i].0 == f;
                assert(lex_lt(e[i].0, e[e.len() - 1].0));
                lemma_lex_irreflexive(f);
            }
        }
        let g = |l: usize| (f, l);
        let q = ls.to_set().map(g);
        let a = covered_pairs(cov_map(init));
        assert forall|p: (Seq<char>, usize)|
            #[trigger] covered_pairs(cov_map(e)).contains(p) == a.union(q).contains(p) by {
            if p.0 == f && ls.to_set().contains(p.1) {
                assert(g(p.1) == p);
            }
        }
        assert(covered_pairs(cov_map(e)) =~= a.union(q));
        assert(increasing(e[e.len() - 1].1));
        lemma_increasing_set_len(ls);
        lemma_map_size(ls.to_set(), q, g);
        assert(a.disjoint(q));
        lemma_set_disjoint_lens(a, q);
    }
}

proof fn lemma_line_total_prefix(e: Seq<(Seq<char>, Seq<usize>)>, n: int)
    requires
        0 <= n <= e.len(),
    ensures
        line_total(e.take(n)) <= line_total(e),
    decreases e.len() - n,
{
    if n < e.len() {
        lemma_line_total_prefix(e, n + 1);
        assert(e.take(n + 1).drop_last() =~= e.take(n));
    } else {
        assert(e.take(n) =~= e);
    }
}


// ---------------------------------------------------------------------------
// Reports
// ---------------------------------------------------------------------------

/// `DA:<line>,1` lines for the covered `lines`.
pub open spec fn lcov_lines(lines: Seq<usize>) -> Seq<char>
    decreases lines.len(),
{
    if lines.len() == 0 {
        Seq::empty()
    } else {
        lcov_lines(lines.drop_last()) + "DA:"@ + decimal(lines.last() as nat) + ",1\n"@
    }
}

/// One LCOV record: the file, its covered lines, and the found and hit
/// counts (equal, as only covered lines are known).
pub open spec fn lcov_record(file: Seq<char>, lines: Seq<usize>) -> Seq<char> {
    "SF:"@ + file + "\n"@ + lcov_lines(lines) + "LF:"@ + decimal(lines.len()) + "\n"@ + "LH:"@
        + decimal(lines.len()) + "\n"@ + "end_of_record\n"@
}

pub open spec fn lcov_text(e: Seq<(Seq<char>, Seq<usize>)>) -> Seq<char>
    decreases e.len(),
{
    if e.len() == 0 {
        Seq::empty()
    } else {
        lcov_text(e.drop_last()) + lcov_record(e.last().0, e.last().1)
    }
}

/// `n` copies of `c`.
pub open spec fn repeat_char(c: char, n: nat) -> Seq<char> {
    Seq::new(n, |i: int| c)
}

/// `s` padded with spaces on the right to `width` characters (`{:<width}`).
pub open spec fn pad_right(s: Seq<char>, width: nat) -> Seq<char> {
    if s.len() >= width {
        s
    } else {
        s + repeat_char(' ', (width - s.len()) as nat)
    }
}

/// `s` padded with spaces on the left to `width` characters (`{:>width}`).
pub open spec fn pad_left(s: Seq<char>, width: nat) -> Seq<char> {
    if s.len() >= width {
        s
    } else {
        repeat_char(' ', (width - s.len()) as nat) + s
    }
}

/// A row of the coverage table.
pub open spec fn table_row(name: Seq<char>, count: Seq<char>) -> Seq<char> {
    pad_right(name, 60) + " "@ + pad_left(count, 6) + "\n"@
}

pub open spec fn table_rows(e: Seq<(Seq<char>, Seq<usize>)>) -> Seq<char>
    decreases e.len(),
{
    if e.len() == 0 {
        Seq::empty()
    } else {
        table_rows(e.drop_last()) + table_row(e.last().0, decimal(e.last().1.len()))
    }
}

/// The terminal coverage table: one row per file with its number of covered
/// lines, and the total.
pub open spec fn coverage_table(e: Seq<(Seq<char>, Seq<usize>)>) -> Seq<char> {
    if e.len() == 0 {
        "No coverage data collected.\n"@
    } else {
        "\n"@ + "---------- coverage: rupt ----------\n"@ + table_row("Name"@, "Lines"@)
            + repeat_char('-', 68) + "\n"@ + table_rows(e) + repeat_char('-', 68) + "\n"@
            + table_row("TOTAL"@, decimal(line_total(e)))
    }
}

/// What `serde_json::to_string_pretty` makes of a map from file names to
/// line lists, given as its entries in key order.
pub uninterp spec fn pretty_json_object(entries: Seq<(Seq<char>, Seq<usize>)>) -> Seq<char>;

#[verifier::external_type_specification]
#[verifier::external_body]
pub struct ExJsonError(serde_json::Error);

/// Calls `serde_json::to_string_pretty` on the entries as a sorted map (the
/// entries' names are increasing, so the map holds them as they are).  With
/// string keys, integer lists and an in-memory writer the serializer has no
/// way to fail, so the call succeeds.
#[verifier::external_body]
fn json_pretty(files: &Vec<(String, Vec<usize>)>) -> (r: Result<String, serde_json::Error>)
    requires
        names_increasing(entry_views(files@)),
    ensures
        r is Ok,
        r matches Ok(s) ==> s@ == pretty_json_object(entry_views(files@)),
{
    let map: std::collections::BTreeMap<&String, &Vec<usize>> = files.iter().map(
        |e| (&e.0, &e.1),
    ).collect();
    serde_json::to_string_pretty(&map)
}

/// A report could not be produced.
#[derive(Debug, Clone, Copy, PartialEq, Eq, Structural)]
pub enum ReportError {
    /// The JSON serializer failed.
    Serialization,
}

fn push_spaces(s: &mut String, n: usize)
    ensures
        final(s)@ == old(s)@ + repeat_char(' ', n as nat),
{
    push_repeated(s, ' ', n);
}

fn push_repeated(s: &mut String, c: char, n: usize)
    ensures
        final(s)@ == old(s)@ + repeat_char(c, n as nat),
{
    let mut i: usize = 0;
    while i < n
        invariant
            i <= n,
            s@ == old(s)@ + repeat_char(c, i as nat),
        decreases n - i,
    {
        s.push(c);
        i += 1;
        assert(s@ =~= old(s)@ + repeat_char(c, i as nat));
    }
}

fn push_row(s: &mut String, name: &str, count: usize)
    ensures
        final(s)@ == old(s)@ + table_row(name@, decimal(count as nat)),
{
    let ghost start = s@;
    let n = crate::text::chars_of(name).len();
    push_str(s, name);
    if n < 60 {
        push_spaces(s, 60 - n);
    }
    push_str(s, " ");
    let digits = crate::text::decimal_string(count as u64);
    let d = crate::text::chars_of(digits.as_str()).len();
    if d < 6 {
        push_spaces(s, 6 - d);
    }
    push_str(s, digits.as_str());
    push_str(s, "\n");
    assert(s@ =~= start + table_row(name@, decimal(count as nat)));
}

impl CoverageData {
    /// The LCOV tracefile for the data.
    pub fn lcov_report(&self) -> (r: String)
        ensures
            r@ == lcov_text(self.entries()),
    {
        let ghost e = self.entries();
        let mut s = String::new();
        let mut i: usize = 0;
        while i < self.files.len()
            invariant
                i <= self.files@.len(),
                e == self.entries(),
                s@ == lcov_text(e.take(i as int)),
            decreases self.files@.len() - i,
        {
            let file = &self.files[i].0;
            let lines = &self.files[i].1;
            assert(e[i as int] == (file@, lines@));
            let ghost before = s@;
            push_str(&mut s, "SF:");
            push_str(&mut s, file.as_str());
            push_str(&mut s, "\n");
            let ghost head = s@;
            let mut j: usize = 0;
            while j < lines.len()
                invariant
                    j <= lines@.len(),
                    s@ == head + lcov_lines(lines@.take(j as int)),
                decreases lines@.len() - j,
            {
                push_str(&mut s, "DA:");
                push_decimal(&mut s, lines[j] as u64);
                push_str(&mut s, ",1\n");
                j += 1;
                assert(lines@.take(j as int).drop_last() =~= lines@.take(j - 1));
            }
            assert(lines@.take(lines@.len() as int) =~= lines@);
            push_str(&mut s, "LF:");
            push_decimal(&mut s, lines.len() as u64);
            push_str(&mut s, "\n");
            push_str(&mut s, "LH:");
            push_decimal(&mut s, lines.len() as u64);
            push_str(&mut s, "\n");
            push_str(&mut s, "end_of_record\n");
            assert(s@ =~= before + lcov_record(file@, lines@));
            i += 1;
            assert(e.take(i as int).drop_last() =~= e.take(i - 1));
        }
        assert(e.take(self.files@.len() as int) =~= e);
        s
    }

    /// The terminal coverage table.
    pub fn coverage_report(&self) -> (r: String)
        requires
            line_total(self.entries()) <= usize::MAX,
        ensures
            r@ == coverage_table(self.entries()),
    {
        if self.files.len() == 0 {
            return lit("No coverage data collected.\n");
        }
        let ghost e = self.entries();
        let mut s = lit("\n");
        push_str(&mut s, "---------- coverage: rupt ----------\n");
        let ghost h0 = s@;
        push_str(&mut s, "Name");
        push_spaces(&mut s, 56);
        push_str(&mut s, " ");
        push_str(&mut s, " Lines");
        push_str(&mut s, "\n");
        proof {
            reveal_strlit("Name");
            reveal_strlit("Lines");
            reveal_strlit(" Lines");
            assert(" Lines"@ =~= repeat_char(' ', 1) + "Lines"@);
            assert(s@ =~= h0 + table_row("Name"@, "Lines"@));
        }
        push_repeated(&mut s, '-', 68);
        push_str(&mut s, "\n");
        let ghost head = s@;
        let mut total: usize = 0;
        let mut i: usize = 0;
        while i < self.files.len()
            invariant
                i <= self.files@.len(),
                e == self.entries(),
                line_total(e) <= usize::MAX,
                total == line_total(e.take(i as int)),
                s@ == head + table_rows(e.take(i as int)),
            decreases self.files@.len() - i,
        {
            let file = &self.files[i].0;
            let count = self.files[i].1.len();
            assert(e[i as int] == (file@, self.files@[i as int].1@));
            proof {
                lemma_line_total_prefix(e, i + 1);
                assert(e.take(i + 1).drop_last() =~= e.take(i as int));
            }
            total = total + count;
            push_row(&mut s, file.as_str(), count);
            i += 1;
        }
        assert(e.take(self.files@.len() as int) =~= e);
        push_repeated(&mut s, '-', 68);
        push_str(&mut s, "\n");
        push_row(&mut s, "TOTAL", total);
        s
    }

    /// The coverage data as a pretty-printed JSON object from file names to
    /// covered lines.
    pub fn json_report(&self) -> (r: Result<String, ReportError>)
        requires
            self.wf(),
        ensures
            r is Ok,
            r matches Ok(s) ==> s@ == pretty_json_object(self.entries()),
    {
        match json_pretty(&self.files) {
            Ok(s) => Ok(s),
            Err(_) => Err(ReportError::Serialization),
        }
    }
}

} // verus!
