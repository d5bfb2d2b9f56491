//! pytest configuration: defaults, the `[pytest]` / `[tool:pytest]` ini
//! dialects, and the `[tool.pytest.ini_options]` table of pyproject.toml.
use vstd::prelude::*;
use crate::text::{
    chars_of, chars_eq, copy_strings, lines, lines_of, lit, next_char, lemma_next_char_bounds,
    find_char_from, split_whitespace_values, starts_with, str_eq, strs, trim, trim_chars,
    string_from, string_from_range, slice_chars, words,
};

verus! {

#[derive(Debug)]
pub struct PytestConfig {
    pub testpaths: Vec<String>,
    pub python_files: Vec<String>,
    pub python_classes: Vec<String>,
    pub python_functions: Vec<String>,
    pub norecursedirs: Vec<String>,
    pub markers: Vec<String>,
    pub rootdir: String,
    pub collect_ignore: Vec<String>,
}

/// The default `norecursedirs` patterns.
pub open spec fn default_norecursedirs() -> Seq<Seq<char>> {
    seq![
        ".*"@,
        "build"@,
        "dist"@,
        "_darcs"@,
        "CVS"@,
        "{arch}"@,
        "*.egg"@,
        "venv"@,
        ".venv"@,
        "__pycache__"@,
        ".git"@,
        "node_modules"@,
        ".tox"@,
        ".nox"@,
        ".hg"@,
    ]
}

fn push_literal(v: &mut Vec<String>, s: &str)
    ensures
        strs(final(v)@) == strs(old(v)@).push(s@),
{
    v.push(String::from_str(s));
    assert(strs(v@) =~= strs(old(v)@).push(s@));
}

impl Default for PytestConfig {
    fn default() -> (c: Self)
        ensures
            strs(c.testpaths@) == Seq::<Seq<char>>::empty(),
            strs(c.python_files@) == seq!["test_*.py"@, "*_test.py"@],
            strs(c.python_classes@) == seq!["Test*"@],
            strs(c.python_functions@) == seq!["test_*"@],
            strs(c.norecursedirs@) == default_norecursedirs(),
            strs(c.markers@) == Seq::<Seq<char>>::empty(),
            c.rootdir@ == Seq::<char>::empty(),
            strs(c.collect_ignore@) == Seq::<Seq<char>>::empty(),
    {
        let mut python_files: Vec<String> = Vec::new();
        push_literal(&mut python_files, "test_*.py");
        push_literal(&mut python_files, "*_test.py");
        let mut python_classes: Vec<String> = Vec::new();
        push_literal(&mut python_classes, "Test*");
        let mut python_functions: Vec<String> = Vec::new();
        push_literal(&mut python_functions, "test_*");
        let mut nr: Vec<String> = Vec::new();
        push_literal(&mut nr, ".*");
        push_literal(&mut nr, "build");
        push_literal(&mut nr, "dist");
        push_literal(&mut nr, "_darcs");
        push_literal(&mut nr, "CVS");
        push_literal(&mut nr, "{arch}");
        push_literal(&mut nr, "*.egg");
        push_literal(&mut nr, "venv");
        push_literal(&mut nr, ".venv");
        push_literal(&mut nr, "__pycache__");
        push_literal(&mut nr, ".git");
        push_literal(&mut nr, "node_modules");
        push_literal(&mut nr, ".tox");
        push_literal(&mut nr, ".nox");
        push_literal(&mut nr, ".hg");
        let c = PytestConfig {
            testpaths: Vec::new(),
            python_files,
            python_classes,
            python_functions,
            norecursedirs: nr,
            markers: Vec::new(),
            rootdir: String::new(),
            collect_ignore: Vec::new(),
        };
        assert(strs(c.testpaths@) =~= Seq::<Seq<char>>::empty());
        assert(strs(c.markers@) =~= Seq::<Seq<char>>::empty());
        assert(strs(c.collect_ignore@) =~= Seq::<Seq<char>>::empty());
        assert(strs(c.python_files@) =~= seq!["test_*.py"@, "*_test.py"@]);
        assert(strs(c.norecursedirs@) =~= default_norecursedirs());
        c
    }
}


pub struct ConfigView {
    pub testpaths: Seq<Seq<char>>,
    pub python_files: Seq<Seq<char>>,
    pub python_classes: Seq<Seq<char>>,
    pub python_functions: Seq<Seq<char>>,
    pub norecursedirs: Seq<Seq<char>>,
    pub markers: Seq<Seq<char>>,
    pub rootdir: Seq<char>,
    pub collect_ignore: Seq<Seq<char>>,
}

impl View for PytestConfig {
    type V = ConfigView;

    open spec fn view(&self) -> ConfigView {
        ConfigView {
            testpaths: strs(self.testpaths@),
            python_files: strs(self.python_files@),
            python_classes: strs(self.python_classes@),
            python_functions: strs(self.python_functions@),
            norecursedirs: strs(self.norecursedirs@),
            markers: strs(self.markers@),
            rootdir: self.rootdir@,
            collect_ignore: strs(self.collect_ignore@),
        }
    }
}

/// The default configuration rooted at `root`.
pub open spec fn default_config(root: Seq<char>) -> ConfigView {
    ConfigView {
        testpaths: Seq::empty(),
        python_files: seq!["test_*.py"@, "*_test.py"@],
        python_classes: seq!["Test*"@],
        python_functions: seq!["test_*"@],
        norecursedirs: default_norecursedirs(),
        markers: Seq::empty(),
        rootdir: root,
        collect_ignore: Seq::empty(),
    }
}

// ---------------------------------------------------------------------------
// The ini dialects
// ---------------------------------------------------------------------------

/// Key/value pairs of an ini section, in the order they were read; a later
/// pair for the same key overrides an earlier one.
pub struct IniMap {
    pub entries: Vec<(String, String)>,
}

pub open spec fn entries_map(e: Seq<(String, String)>) -> Map<Seq<char>, Seq<char>>
    decreases e.len(),
{
    if e.len() == 0 {
        Map::empty()
    } else {
        entries_map(e.drop_last()).insert(e.last().0@, e.last().1@)
    }
}

impl View for IniMap {
    type V = Map<Seq<char>, Seq<char>>;

    open spec fn view(&self) -> Map<Seq<char>, Seq<char>> {
        entries_map(self.entries@)
    }
}

proof fn lemma_entries_map_empty(e: Seq<(String, String)>)
    ensures
        (entries_map(e) == Map::<Seq<char>, Seq<char>>::empty()) <==> e.len() == 0,
{
    if e.len() > 0 {
        assert(entries_map(e).dom().contains(e.last().0@));
    }
}

impl IniMap {
    /// The value last given for `key`.
    pub fn get(&self, key: &str) -> (r: Option<String>)
        ensures
            match r {
                Some(v) => self@.contains_key(key@) && self@[key@] == v@,
                None => !self@.contains_key(key@),
            },
    {
        let mut i = self.entries.len();
        while i > 0
            invariant
                i <= self.entries@.len(),
                forall|j: int| i <= j < self.entries@.len() ==> self.entries@[j].0@ != key@,
            decreases i,
        {
            i -= 1;
            if str_eq(self.entries[i].0.as_str(), key) {
                proof {
                    lemma_entries_lookup(self.entries@, i as int, key@);
                }
                return Some(self.entries[i].1.clone());
            }
        }
        proof {
            lemma_entries_absent(self.entries@, key@);
        }
        None
    }
}

proof fn lemma_entries_lookup(e: Seq<(String, String)>, i: int, key: Seq<char>)
    requires
        0 <= i < e.len(),
        e[i].0@ == key,
        forall|j: int| i < j < e.len() ==> e[j].0@ != key,
    ensures
        entries_map(e).contains_key(key),
        entries_map(e)[key] == e[i].1@,
    decreases e.len(),
{
    if i < e.len() - 1 {
        lemma_entries_lookup(e.drop_last(), i, key);
    }
}

proof fn lemma_entries_absent(e: Seq<(String, String)>, key: Seq<char>)
    requires
        forall|j: int| 0 <= j < e.len() ==> e[j].0@ != key,
    ensures
        !entries_map(e).contains_key(key),
    decreases e.len(),
{
    if e.len() > 0 {
        lemma_entries_absent(e.drop_last(), key);
    }
}

/// The pair `split_once('=')` gives: text before and after the first `=`.
pub open spec fn split_once_eq(t: Seq<char>) -> Option<(Seq<char>, Seq<char>)> {
    let e = next_char(t, '=', 0);
    if e < t.len() {
        Some((t.take(e), t.skip(e + 1)))
    } else {
        None
    }
}

/// Reading one line: a `[...]` header opens the section `header` or another
/// one; inside the section, blank lines and `#`/`;` comments are skipped and
/// `key = value` lines are recorded with both sides trimmed.
pub open spec fn ini_step(
    state: (bool, Map<Seq<char>, Seq<char>>),
    line: Seq<char>,
    header: Seq<char>,
) -> (bool, Map<Seq<char>, Seq<char>>) {
    let t = trim(line);
    if starts_with(t, "["@) {
        (t == header, state.1)
    } else if !state.0 {
        state
    } else if t.len() == 0 || starts_with(t, "#"@) || starts_with(t, ";"@) {
        state
    } else {
        match split_once_eq(t) {
            Some((k, v)) => (state.0, state.1.insert(trim(k), trim(v))),
            None => state,
        }
    }
}

/// The state after reading `ls[..n]`.
pub open spec fn ini_fold(ls: Seq<Seq<char>>, n: int, header: Seq<char>) -> (
    bool,
    Map<Seq<char>, Seq<char>>,
)
    decreases n,
{
    if n <= 0 {
        (false, Map::empty())
    } else {
        ini_step(ini_fold(ls, n - 1, header), ls[n - 1], header)
    }
}

/// The key/value pairs of section `header` in `content`; `Err` when none
/// were found and the last header read was not `header`.
pub open spec fn parse_ini(content: Seq<char>, header: Seq<char>) -> Result<
    Map<Seq<char>, Seq<char>>,
    (),
> {
    let ls = lines(content);
    let (in_section, map) = ini_fold(ls, ls.len() as int, header);
    if map == Map::<Seq<char>, Seq<char>>::empty() && !in_section {
        Err(())
    } else {
        Ok(map)
    }
}

fn parse_ini_section(content: &str, header: &str) -> (r: Result<IniMap, ()>)
    ensures
        match r {
            Ok(m) => parse_ini(content@, header@) == Ok::<Map<Seq<char>, Seq<char>>, ()>(m@),
            Err(_) => parse_ini(content@, header@) is Err,
        },
{
    let text = chars_of(content);
    let ls = lines_of(&text);
    let ghost lsv = ls@.map_values(|l: Vec<char>| l@);
    let hdr = chars_of(header);
    let open = chars_of("[");
    let hash = chars_of("#");
    let semi = chars_of(";");
    let mut map = IniMap { entries: Vec::new() };
    let mut in_section = false;
    let mut i: usize = 0;
    while i < ls.len()
        invariant
            i <= ls@.len(),
            lsv == ls@.map_values(|l: Vec<char>| l@),
            lsv == lines(content@),
            hdr@ == header@,
            open@ == "["@,
            hash@ == "#"@,
            semi@ == ";"@,
            (in_section, map@) == ini_fold(lsv, i as int, header@),
        decreases ls@.len() - i,
    {
        let trimmed = trim_chars(&ls[i]);
        assert(lsv[i as int] == ls@[i as int]@);
        if crate::text::starts_with_exec(&trimmed, &open) {
            in_section = chars_eq(&trimmed, &hdr);
        } else if !in_section {
        } else if trimmed.len() == 0 || crate::text::starts_with_exec(&trimmed, &hash)
            || crate::text::starts_with_exec(&trimmed, &semi) {
        } else {
            let e = find_char_from(&trimmed, '=', 0);
            proof {
                lemma_next_char_bounds(trimmed@, '=', 0);
            }
            if e < trimmed.len() {
                let key = slice_chars(&trimmed, 0, e);
                let value = slice_chars(&trimmed, e + 1, trimmed.len());
                let k = string_from(&trim_chars(&key));
                let v = string_from(&trim_chars(&value));
                assert(key@ == trimmed@.take(e as int));
                assert(value@ == trimmed@.skip(e + 1));
                let ghost prev = map.entries@;
                map.entries.push((k, v));
                assert(map.entries@.drop_last() =~= prev);
            }
        }
        i += 1;
    }
    proof {
        lemma_entries_map_empty(map.entries@);
    }
    if map.entries.len() == 0 && !in_section {
        Err(())
    } else {
        Ok(map)
    }
}

/// The `[pytest]` section of a pytest.ini file.
fn parse_ini_style(content: &str) -> (r: Result<IniMap, ()>)
    ensures
        match r {
            Ok(m) => parse_ini(content@, "[pytest]"@) == Ok::<Map<Seq<char>, Seq<char>>, ()>(m@),
            Err(_) => parse_ini(content@, "[pytest]"@) is Err,
        },
{
    parse_ini_section(content, "[pytest]")
}

/// The `[tool:pytest]` section of a setup.cfg file.
fn parse_setup_cfg(content: &str) -> (r: Result<IniMap, ()>)
    ensures
        match r {
            Ok(m) => parse_ini(content@, "[tool:pytest]"@) == Ok::<Map<Seq<char>, Seq<char>>, ()>(
                m@,
            ),
            Err(_) => parse_ini(content@, "[tool:pytest]"@) is Err,
        },
{
    parse_ini_section(content, "[tool:pytest]")
}


/// The words of `key`'s value when the map has the key, else `current`.
pub open spec fn ini_words(
    map: Map<Seq<char>, Seq<char>>,
    key: Seq<char>,
    current: Seq<Seq<char>>,
) -> Seq<Seq<char>> {
    if map.contains_key(key) {
        words(map[key])
    } else {
        current
    }
}

/// `c` with the five path and naming settings an ini section can give.
pub open spec fn with_ini_map(c: ConfigView, map: Map<Seq<char>, Seq<char>>) -> ConfigView {
    ConfigView {
        testpaths: ini_words(map, "testpaths"@, c.testpaths),
        python_files: ini_words(map, "python_files"@, c.python_files),
        python_classes: ini_words(map, "python_classes"@, c.python_classes),
        python_functions: ini_words(map, "python_functions"@, c.python_functions),
        norecursedirs: ini_words(map, "norecursedirs"@, c.norecursedirs),
        markers: c.markers,
        rootdir: c.rootdir,
        collect_ignore: c.collect_ignore,
    }
}

fn set_words(field: &mut Vec<String>, map: &IniMap, key: &str)
    ensures
        strs(final(field)@) == ini_words(map@, key@, strs(old(field)@)),
{
    if let Some(v) = map.get(key) {
        *field = split_whitespace_values(v.as_str());
    }
}

fn apply_ini_map(config: &mut PytestConfig, map: &IniMap)
    ensures
        final(config)@ == with_ini_map(old(config)@, map@),
{
    set_words(&mut config.testpaths, map, "testpaths");
    set_words(&mut config.python_files, map, "python_files");
    set_words(&mut config.python_classes, map, "python_classes");
    set_words(&mut config.python_functions, map, "python_functions");
    set_words(&mut config.norecursedirs, map, "norecursedirs");
}

// ---------------------------------------------------------------------------
// The `[tool.pytest.ini_options]` table
// ---------------------------------------------------------------------------

/// The settings of a `[tool.pytest.ini_options]` table; `None` for a setting
/// the table does not give.
#[derive(Debug)]
pub struct IniOptions {
    pub testpaths: Option<Vec<String>>,
    pub python_files: Option<Vec<String>>,
    pub python_classes: Option<Vec<String>>,
    pub python_functions: Option<Vec<String>>,
    pub norecursedirs: Option<String>,
    pub markers: Option<Vec<String>>,
    pub collect_ignore: Option<Vec<String>>,
}

pub open spec fn given_or(o: Option<Vec<String>>, current: Seq<Seq<char>>) -> Seq<Seq<char>> {
    match o {
        Some(v) => strs(v@),
        None => current,
    }
}

/// `c` with every setting the table gives; `norecursedirs` is one string of
/// whitespace-separated patterns.
pub open spec fn with_options(c: ConfigView, o: IniOptions) -> ConfigView {
    ConfigView {
        testpaths: given_or(o.testpaths, c.testpaths),
        python_files: given_or(o.python_files, c.python_files),
        python_classes: given_or(o.python_classes, c.python_classes),
        python_functions: given_or(o.python_functions, c.python_functions),
        norecursedirs: match o.norecursedirs {
            Some(s) => words(s@),
            None => c.norecursedirs,
        },
        markers: given_or(o.markers, c.markers),
        rootdir: c.rootdir,
        collect_ignore: given_or(o.collect_ignore, c.collect_ignore),
    }
}

fn set_given(field: &mut Vec<String>, o: Option<Vec<String>>)
    ensures
        strs(final(field)@) == given_or(o, strs(old(field)@)),
{
    if let Some(v) = o {
        *field = v;
    }
}

fn apply_ini_options(config: &mut PytestConfig, opts: IniOptions)
    ensures
        final(config)@ == with_options(old(config)@, opts),
{
    let ghost o = opts;
    set_given(&mut config.testpaths, opts.testpaths);
    set_given(&mut config.python_files, opts.python_files);
    set_given(&mut config.python_classes, opts.python_classes);
    set_given(&mut config.python_functions, opts.python_functions);
    if let Some(nr) = opts.norecursedirs {
        config.norecursedirs = split_whitespace_values(nr.as_str());
    }
    set_given(&mut config.markers, opts.markers);
    set_given(&mut config.collect_ignore, opts.collect_ignore);
}

// ---------------------------------------------------------------------------
// Which file configures the run
// ---------------------------------------------------------------------------

/// The configuration pytest would use for `root`: `pyproject.toml`'s
/// `[tool.pytest.ini_options]` table when it has one, else the `[pytest]`
/// section of `pytest.ini`, else the `[tool:pytest]` section of `setup.cfg`,
/// else the defaults.
pub open spec fn resolved_config(
    root: Seq<char>,
    pyproject: Option<IniOptions>,
    pytest_ini: Option<Seq<char>>,
    setup_cfg: Option<Seq<char>>,
) -> ConfigView {
    let base = default_config(root);
    match pyproject {
        Some(o) => with_options(base, o),
        None => if pytest_ini is Some && parse_ini(pytest_ini->0, "[pytest]"@) is Ok {
            with_ini_map(base, parse_ini(pytest_ini->0, "[pytest]"@)->Ok_0)
        } else if setup_cfg is Some && parse_ini(setup_cfg->0, "[tool:pytest]"@) is Ok {
            with_ini_map(base, parse_ini(setup_cfg->0, "[tool:pytest]"@)->Ok_0)
        } else {
            base
        },
    }
}

/// Builds the configuration for `root` from what its configuration files
/// hold: the `[tool.pytest.ini_options]` table of a readable pyproject.toml
/// that has one, and the text of a readable pytest.ini and setup.cfg.
pub fn resolve_config(
    root: &str,
    pyproject: Option<IniOptions>,
    pytest_ini: Option<&str>,
    setup_cfg: Option<&str>,
) -> (r: PytestConfig)
    ensures
        r@ == resolved_config(
            root@,
            pyproject,
            match pytest_ini {
                Some(t) => Some(t@),
                None => None,
            },
            match setup_cfg {
                Some(t) => Some(t@),
                None => None,
            },
        ),
{
    let mut config = PytestConfig::default();
    config.rootdir = lit(root);
    assert(config@ == default_config(root@));
    if let Some(opts) = pyproject {
        apply_ini_options(&mut config, opts);
        return config;
    }
    if let Some(content) = pytest_ini {
        if let Ok(ini) = parse_ini_style(content) {
            apply_ini_map(&mut config, &ini);
            return config;
        }
    }
    if let Some(content) = setup_cfg {
        if let Ok(ini) = parse_setup_cfg(content) {
            apply_ini_map(&mut config, &ini);
            return config;
        }
    }
    config
}

/// A `[tool.pytest.ini_options]` table decides the configuration: every
/// setting it gives is taken as given, every setting it leaves out keeps its
/// default, and pytest.ini and setup.cfg are then not consulted.
pub proof fn law_pyproject_settings_taken(
    root: Seq<char>,
    o: IniOptions,
    pytest_ini: Option<Seq<char>>,
    setup_cfg: Option<Seq<char>>,
)
    ensures
        resolved_config(root, Some(o), pytest_ini, setup_cfg) == resolved_config(
            root,
            Some(o),
            None,
            None,
        ),
        resolved_config(root, Some(o), pytest_ini, setup_cfg).rootdir == root,
        o.testpaths matches Some(v) ==> resolved_config(root, Some(o), pytest_ini, setup_cfg).testpaths
            == strs(v@),
        o.testpaths is None ==> resolved_config(root, Some(o), pytest_ini, setup_cfg).testpaths
            == default_config(root).testpaths,
        o.python_files matches Some(v) ==> resolved_config(
            root,
            Some(o),
            pytest_ini,
            setup_cfg,
        ).python_files == strs(v@),
        o.python_files is None ==> resolved_config(root, Some(o), pytest_ini, setup_cfg).python_files
            == default_config(root).python_files,
        o.python_classes matches Some(v) ==> resolved_config(
            root,
            Some(o),
            pytest_ini,
            setup_cfg,
        ).python_classes == strs(v@),
        o.python_classes is None ==> resolved_config(
            root,
            Some(o),
            pytest_ini,
            setup_cfg,
        ).python_classes == default_config(root).python_classes,
        o.python_functions matches Some(v) ==> resolved_config(
            root,
            Some(o),
            pytest_ini,
            setup_cfg,
        ).python_functions == strs(v@),
        o.python_functions is None ==> resolved_config(
            root,
            Some(o),
            pytest_ini,
            setup_cfg,
        ).python_functions == default_config(root).python_functions,
        o.norecursedirs matches Some(v) ==> resolved_config(
            root,
            Some(o),
            pytest_ini,
            setup_cfg,
        ).norecursedirs == words(v@),
        o.norecursedirs is None ==> resolved_config(
            root,
            Some(o),
            pytest_ini,
            setup_cfg,
        ).norecursedirs == default_config(root).norecursedirs,
        o.markers matches Some(v) ==> resolved_config(root, Some(o), pytest_ini, setup_cfg).markers
            == strs(v@),
        o.markers is None ==> resolved_config(root, Some(o), pytest_ini, setup_cfg).markers
            == default_config(root).markers,
        o.collect_ignore matches Some(v) ==> resolved_config(
            root,
            Some(o),
            pytest_ini,
            setup_cfg,
        ).collect_ignore == strs(v@),
        o.collect_ignore is None ==> resolved_config(
            root,
            Some(o),
            pytest_ini,
            setup_cfg,
        ).collect_ignore == default_config(root).collect_ignore,
{
}

/// Without a pyproject table, a pytest.ini with a `[pytest]` section
/// decides the configuration: each of the five path and naming keys it
/// holds gives that setting as the whitespace-separated words of its value,
/// an absent key leaves its default, the other settings keep their
/// defaults, and setup.cfg is not consulted.
pub proof fn law_pytest_ini_settings_taken(
    root: Seq<char>,
    ini: Seq<char>,
    setup_cfg: Option<Seq<char>>,
)
    requires
        parse_ini(ini, "[pytest]"@) is Ok,
    ensures
        ({
            let map = parse_ini(ini, "[pytest]"@)->Ok_0;
            let r = resolved_config(root, None, Some(ini), setup_cfg);
            let d = default_config(root);
            &&& r == resolved_config(root, None, Some(ini), None)
            &&& r.rootdir == root
            &&& r.markers == d.markers
            &&& r.collect_ignore == d.collect_ignore
            &&& r.testpaths == if map.contains_key("testpaths"@) {
                words(map["testpaths"@])
            } else {
                d.testpaths
            }
            &&& r.python_files == if map.contains_key("python_files"@) {
                words(map["python_files"@])
            } else {
                d.python_files
            }
            &&& r.python_classes == if map.contains_key("python_classes"@) {
                words(map["python_classes"@])
            } else {
                d.python_classes
            }
            &&& r.python_functions == if map.contains_key("python_functions"@) {
                words(map["python_functions"@])
            } else {
                d.python_functions
            }
            &&& r.norecursedirs == if map.contains_key("norecursedirs"@) {
                words(map["norecursedirs"@])
            } else {
                d.norecursedirs
            }
        }),
{
}

} // verus!
