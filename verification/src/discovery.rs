//! Which directories are searched and which files hold tests, decided by
//! glob patterns matched with `globset`.
use vstd::prelude::*;
use globset::{Glob, GlobSet, GlobSetBuilder};
use crate::text::{chars_of, ends_with, ends_with_exec, str_eq, strs};

verus! {

#[verifier::external_type_specification]
#[verifier::external_body]
pub struct ExGlobSet(globset::GlobSet);

#[verifier::external_type_specification]
#[verifier::external_body]
pub struct ExGlobSetBuilder(globset::GlobSetBuilder);

#[verifier::external_type_specification]
#[verifier::external_body]
pub struct ExGlobError(globset::Error);

/// The patterns added to a `GlobSetBuilder`, in order.
pub uninterp spec fn builder_patterns(b: GlobSetBuilder) -> Seq<Seq<char>>;

/// The patterns a `GlobSet` was built from, in order.
pub uninterp spec fn set_patterns(s: GlobSet) -> Seq<Seq<char>>;

/// Whether `Glob::new` accepts `pattern`.
pub uninterp spec fn glob_valid(pattern: Seq<char>) -> bool;

/// Whether `GlobSetBuilder::build` compiles the globs `patterns` together.
pub uninterp spec fn globs_compile(patterns: Seq<Seq<char>>) -> bool;

/// Whether the glob `pattern` matches the path `candidate`.
pub uninterp spec fn glob_matches(pattern: Seq<char>, candidate: Seq<char>) -> bool;

/// Calls `GlobSetBuilder::new`: a builder holding no pattern.
#[verifier::external_body]
fn new_builder() -> (b: GlobSetBuilder)
    ensures
        builder_patterns(b) == Seq::<Seq<char>>::empty(),
{
    GlobSetBuilder::new()
}

/// Calls `Glob::new` on `pattern` and, when it is accepted, hands the glob
/// straight to `GlobSetBuilder::add`; returns whether it was accepted.
#[verifier::external_body]
fn add_pattern(b: &mut GlobSetBuilder, pattern: &str) -> (added: bool)
    ensures
        added == glob_valid(pattern@),
        builder_patterns(*final(b)) == if added {
            builder_patterns(*old(b)).push(pattern@)
        } else {
            builder_patterns(*old(b))
        },
{
    match Glob::new(pattern) {
        Ok(glob) => {
            b.add(glob);
            true
        },
        Err(_) => false,
    }
}

/// Calls `GlobSetBuilder::build`: it succeeds exactly when the builder's
/// patterns compile together, and then gives a set of those patterns.
#[verifier::external_body]
fn build_set(b: &GlobSetBuilder) -> (r: Result<GlobSet, globset::Error>)
    ensures
        r is Ok <==> globs_compile(builder_patterns(*b)),
        r matches Ok(s) ==> set_patterns(s) == builder_patterns(*b),
{
    b.build()
}

/// Calls `GlobSet::empty`: a set without patterns.
#[verifier::external_body]
fn empty_set() -> (s: GlobSet)
    ensures
        set_patterns(s) == Seq::<Seq<char>>::empty(),
{
    GlobSet::empty()
}

/// Some pattern of `patterns` matches `candidate`.
pub open spec fn matches_any(patterns: Seq<Seq<char>>, candidate: Seq<char>) -> bool {
    exists|i: int| 0 <= i < patterns.len() && glob_matches(#[trigger] patterns[i], candidate)
}

/// Calls `GlobSet::is_match`: whether any pattern of the set matches
/// `candidate`.
#[verifier::external_body]
pub(crate) fn set_is_match(s: &GlobSet, candidate: &str) -> (r: bool)
    ensures
        r == (exists|i: int| 0 <= i < set_patterns(*s).len() && #[trigger] glob_matches(set_patterns(*s)[i], candidate@)),
{
    s.is_match(candidate)
}

pub open spec fn valid_fn() -> spec_fn(Seq<char>) -> bool {
    |p: Seq<char>| glob_valid(p)
}

/// A set of the patterns `Glob::new` accepts; the others are skipped.  When
/// the accepted patterns cannot be compiled together the set is empty.
pub fn build_globset(patterns: &[String]) -> (r: GlobSet)
    ensures
        globs_compile(strs(patterns@).filter(valid_fn())) ==> set_patterns(r) == strs(
            patterns@,
        ).filter(valid_fn()),
        !globs_compile(strs(patterns@).filter(valid_fn())) ==> set_patterns(r) == Seq::<
            Seq<char>,
        >::empty(),
{
    let mut builder = new_builder();
    let mut i: usize = 0;
    while i < patterns.len()
        invariant
            i <= patterns@.len(),
            builder_patterns(builder) == strs(patterns@.take(i as int)).filter(valid_fn()),
        decreases patterns@.len() - i,
    {
        proof {
            assert(strs(patterns@.take(i + 1)) =~= strs(patterns@.take(i as int)).push(
                patterns@[i as int]@,
            ));
            strs(patterns@.take(i as int)).lemma_filter_push(patterns@[i as int]@, valid_fn());
        }
        add_pattern(&mut builder, patterns[i].as_str());
        i += 1;
    }
    assert(patterns@.take(patterns@.len() as int) =~= patterns@);
    match build_set(&builder) {
        Ok(set) => set,
        Err(_) => empty_set(),
    }
}

/// Directory names never searched, whatever `norecursedirs` says.
pub open spec fn always_skipped_dir(name: Seq<char>) -> bool {
    ||| name == ".git"@
    ||| name == "__pycache__"@
    ||| name == ".tox"@
    ||| name == ".nox"@
    ||| name == "node_modules"@
}

/// Whether the directory `name` is left out of the search.
pub fn should_skip_dir(name: &str, norecurse: &GlobSet) -> (r: bool)
    ensures
        r == (always_skipped_dir(name@) || matches_any(set_patterns(*norecurse), name@)),
{
    if str_eq(name, ".git") || str_eq(name, "__pycache__") || str_eq(name, ".tox") || str_eq(
        name,
        ".nox",
    ) || str_eq(name, "node_modules") {
        return true;
    }
    set_is_match(norecurse, name)
}

/// Whether a file is collected: a `.py` file whose name matches
/// `python_files` and whose path relative to the root matches no
/// `collect_ignore` pattern.
pub open spec fn collects_file(
    file_name: Seq<char>,
    relative: Seq<char>,
    file_globs: Seq<Seq<char>>,
    ignore_globs: Seq<Seq<char>>,
) -> bool {
    &&& ends_with(file_name, ".py"@)
    &&& matches_any(file_globs, file_name)
    &&& !matches_any(ignore_globs, relative)
}

/// Whether the file `file_name`, at `relative` below the root, is a test
/// file.
pub fn is_test_file(file_name: &str, relative: &str, file_globs: &GlobSet, ignore_globs: &GlobSet) -> (r:
    bool)
    ensures
        r == collects_file(
            file_name@,
            relative@,
            set_patterns(*file_globs),
            set_patterns(*ignore_globs),
        ),
{
    let name = chars_of(file_name);
    let ext = chars_of(".py");
    if !ends_with_exec(&name, &ext) {
        return false;
    }
    if set_is_match(file_globs, file_name) {
        !set_is_match(ignore_globs, relative)
    } else {
        false
    }
}

} // verus!
