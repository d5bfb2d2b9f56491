//! conftest.py fixtures by directory.
use vstd::prelude::*;
use crate::fixtures::{FixtureDef, FixtureView};
use crate::paths::{
    components, components_within, parent_components, path_components, path_lt, within,
};
use crate::text::{chars_of, starts_with, starts_with_exec, str_eq, strs};

verus! {

/// Maps directory paths to the fixtures defined in conftest.py files at that
/// level, in increasing path order (`levels_ordered`).
#[derive(Debug)]
pub struct ConftestMap {
    pub levels: Vec<(String, Vec<FixtureDef>)>,
}

pub open spec fn level_views(v: Seq<(String, Vec<FixtureDef>)>) -> Seq<(Seq<char>, Seq<FixtureView>)> {
    v.map_values(
        |l: (String, Vec<FixtureDef>)| (l.0@, l.1@.map_values(|f: FixtureDef| f@)),
    )
}

/// The levels are in increasing path order, each directory once, as a map
/// sorted by path keeps them.
pub open spec fn levels_ordered(levels: Seq<(Seq<char>, Seq<FixtureView>)>) -> bool {
    forall|i: int, j: int|
        0 <= i < j < levels.len() ==> path_lt(#[trigger] levels[i].0, #[trigger] levels[j].0)
}

/// The fixtures of the levels that contain directory `dir`, level by level.
pub open spec fn visible_fixtures(
    levels: Seq<(Seq<char>, Seq<FixtureView>)>,
    dir: (bool, Seq<Seq<char>>),
) -> Seq<FixtureView>
    decreases levels.len(),
{
    if levels.len() == 0 {
        Seq::empty()
    } else {
        visible_fixtures(levels.drop_last(), dir) + if components_within(
            dir,
            components(levels.last().0),
        ) {
            levels.last().1
        } else {
            Seq::empty()
        }
    }
}

impl ConftestMap {
    /// The fixtures visible to `test_file`: those of every level whose
    /// directory contains the file's directory, in level order.
    pub fn fixtures_for(&self, test_file: &str) -> (r: Vec<&FixtureDef>)
        requires
            levels_ordered(level_views(self.levels@)),
        ensures
            r@.map_values(|f: &FixtureDef| f@) == visible_fixtures(
                level_views(self.levels@),
                parent_components(test_file@),
            ),
    {
        let (abs, mut parts) = path_components(test_file);
        let ghost full = strs(parts@);
        if parts.len() > 0 {
            parts.pop();
        }
        let dir = (abs, parts);
        assert((dir.0, strs(dir.1@)) == parent_components(test_file@)) by {
            if full.len() > 0 {
                assert(strs(dir.1@) =~= full.drop_last());
            }
        }
        let ghost lv = level_views(self.levels@);
        let ghost pd = parent_components(test_file@);
        let mut result: Vec<&FixtureDef> = Vec::new();
        let mut i: usize = 0;
        while i < self.levels.len()
            invariant
                i <= self.levels@.len(),
                lv == level_views(self.levels@),
                pd == (dir.0, strs(dir.1@)),
                result@.map_values(|f: &FixtureDef| f@) == visible_fixtures(
                    lv.take(i as int),
                    pd,
                ),
            decreases self.levels@.len() - i,
        {
            let level = &self.levels[i];
            let base = path_components(level.0.as_str());
            let ghost before = result@.map_values(|f: &FixtureDef| f@);
            assert(lv[i as int] == (level.0@, level.1@.map_values(|f: FixtureDef| f@)));
            if within(&dir, &base) {
                let fixtures = &level.1;
                let mut j: usize = 0;
                while j < fixtures.len()
                    invariant
                        j <= fixtures@.len(),
                        result@.map_values(|f: &FixtureDef| f@) == before + fixtures@.take(
                            j as int,
                        ).map_values(|f: FixtureDef| f@),
                    decreases fixtures@.len() - j,
                {
                    let ghost prev = result@;
                    let fx = &fixtures[j];
                    result.push(fx);
                    proof {
                        assert(result@ == prev.push(fx));
                        assert(result@.map_values(|f: &FixtureDef| f@) =~= prev.map_values(
                            |f: &FixtureDef| f@,
                        ).push(fx@));
                        assert(fixtures@.take(j + 1).map_values(|f: FixtureDef| f@) =~= fixtures@.take(
                            j as int,
                        ).map_values(|f: FixtureDef| f@).push(fixtures@[j as int]@));
                    }
                    j += 1;
                }
                assert(fixtures@.take(fixtures@.len() as int) =~= fixtures@);
            } else {
                assert(result@.map_values(|f: &FixtureDef| f@) =~= before + Seq::<
                    FixtureView,
                >::empty());
            }
            i += 1;
            assert(lv.take(i as int).drop_last() =~= lv.take(i - 1));
        }
        assert(lv.take(self.levels@.len() as int) =~= lv);
        result
    }
}

/// Directories whose conftest.py files are not read: hidden ones and
/// virtual-environment and cache directories.
pub open spec fn skipped_component(c: Seq<char>) -> bool {
    ||| starts_with(c, "."@)
    ||| c == "__pycache__"@
    ||| c == "node_modules"@
    ||| c == ".venv"@
    ||| c == "venv"@
    ||| c == ".tox"@
    ||| c == ".nox"@
}

/// Whether a conftest.py at `relative` (to the root) is skipped: some
/// component of its path is a skipped directory name.
pub open spec fn conftest_skipped(relative: Seq<char>) -> bool {
    exists|i: int|
        0 <= i < components(relative).1.len() && skipped_component(
            #[trigger] components(relative).1[i],
        )
}

fn is_skipped_component(c: &String) -> (r: bool)
    ensures
        r == skipped_component(c@),
{
    let v = chars_of(c.as_str());
    let dot = chars_of(".");
    starts_with_exec(&v, &dot) || str_eq(c.as_str(), "__pycache__") || str_eq(
        c.as_str(),
        "node_modules",
    ) || str_eq(c.as_str(), ".venv") || str_eq(c.as_str(), "venv") || str_eq(c.as_str(), ".tox")
        || str_eq(c.as_str(), ".nox")
}

/// Whether the conftest.py at `relative` (to the root) is left out.
pub fn is_conftest_skipped(relative: &str) -> (r: bool)
    ensures
        r == conftest_skipped(relative@),
{
    let (_, parts) = path_components(relative);
    let ghost ps = components(relative@).1;
    let mut i: usize = 0;
    while i < parts.len()
        invariant
            i <= parts@.len(),
            ps == strs(parts@),
            ps == components(relative@).1,
            forall|k: int| 0 <= k < i ==> !skipped_component(#[trigger] ps[k]),
        decreases parts@.len() - i,
    {
        assert(ps[i as int] == parts@[i as int]@);
        if is_skipped_component(&parts[i]) {
            assert(skipped_component(components(relative@).1[i as int]));
            return true;
        }
        i += 1;
    }
    false
}

} // verus!
