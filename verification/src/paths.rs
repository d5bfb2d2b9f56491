//! Paths as `/`-separated text, read component by component the way
//! `std::path::Path` reads them on Unix.
use vstd::prelude::*;
use crate::text::{chars_of, split_on, split_str, starts_with, str_eq, strs};
use crate::coverage::{lex_less, lex_lt, lemma_lex_irreflexive, lemma_lex_trans};

verus! {

/// Whether a `/`-separated piece at position `idx` is a component: empty
/// pieces (repeated or trailing separators) and `.` are dropped, except a
/// `.` that begins a relative path.
pub open spec fn keeps_piece(piece: Seq<char>, idx: int, absolute: bool) -> bool {
    piece.len() > 0 && (piece != "."@ || (idx == 0 && !absolute))
}

pub open spec fn kept_pieces(pieces: Seq<Seq<char>>, n: int, absolute: bool) -> Seq<Seq<char>>
    decreases n,
{
    if n <= 0 {
        Seq::empty()
    } else {
        kept_pieces(pieces, n - 1, absolute) + if keeps_piece(pieces[n - 1], n - 1, absolute) {
            seq![pieces[n - 1]]
        } else {
            Seq::empty()
        }
    }
}

pub open spec fn is_absolute(p: Seq<char>) -> bool {
    p.len() > 0 && p[0] == '/'
}

/// The components of `p` after the root: whether it is absolute, and its
/// named (or `.`/`..`) components in order.
pub open spec fn components(p: Seq<char>) -> (bool, Seq<Seq<char>>) {
    let pieces = split_str(p, "/"@);
    (is_absolute(p), kept_pieces(pieces, pieces.len() as int, is_absolute(p)))
}

/// The components of the directory holding `p` (`Path::parent`); a path
/// without a last component (the root, or empty) stands for itself.
pub open spec fn parent_components(p: Seq<char>) -> (bool, Seq<Seq<char>>) {
    let (abs, parts) = components(p);
    if parts.len() > 0 {
        (abs, parts.drop_last())
    } else {
        (abs, parts)
    }
}

/// `Path::starts_with`: the components of `base` begin those of `dir`.
pub open spec fn components_within(dir: (bool, Seq<Seq<char>>), base: (bool, Seq<Seq<char>>)) -> bool {
    ||| (!base.0 && base.1.len() == 0)
    ||| (base.0 == dir.0 && base.1.len() <= dir.1.len() && dir.1.take(base.1.len() as int)
        == base.1)
}

/// The components of the `/`-separated path `p`.
pub fn path_components(p: &str) -> (r: (bool, Vec<String>))
    ensures
        (r.0, strs(r.1@)) == components(p@),
{
    let v = chars_of(p);
    let sep = chars_of("/");
    proof {
        reveal_strlit("/");
    }
    let absolute = v.len() > 0 && v[0] == '/';
    let pieces = split_on(&v, &sep);
    let ghost ps = strs(pieces@);
    let mut parts: Vec<String> = Vec::new();
    let mut i: usize = 0;
    while i < pieces.len()
        invariant
            i <= pieces@.len(),
            ps == strs(pieces@),
            absolute == is_absolute(v@),
            strs(parts@) == kept_pieces(ps, i as int, absolute),
        decreases pieces@.len() - i,
    {
        let piece = &pieces[i];
        assert(ps[i as int] == piece@);
        let keep = !piece.as_str().is_empty() && (!str_eq(piece.as_str(), ".") || (i == 0
            && !absolute));
        let ghost prev = strs(parts@);
        if keep {
            parts.push(piece.clone());
            assert(strs(parts@) =~= prev + seq![piece@]);
        } else {
            assert(strs(parts@) =~= prev + Seq::<Seq<char>>::empty());
        }
        i += 1;
    }
    (absolute, parts)
}

/// Whether the component list `dir` begins with the component list `base`.
pub fn within(dir: &(bool, Vec<String>), base: &(bool, Vec<String>)) -> (r: bool)
    ensures
        r == components_within((dir.0, strs(dir.1@)), (base.0, strs(base.1@))),
{
    if !base.0 && base.1.len() == 0 {
        return true;
    }
    if base.0 != dir.0 || base.1.len() > dir.1.len() {
        return false;
    }
    let mut i: usize = 0;
    while i < base.1.len()
        invariant
            i <= base.1@.len() <= dir.1@.len(),
            forall|k: int| 0 <= k < i ==> base.1@[k]@ == dir.1@[k]@,
        decreases base.1@.len() - i,
    {
        if !str_eq(base.1[i].as_str(), dir.1[i].as_str()) {
            assert(strs(dir.1@).take(base.1@.len() as int)[i as int] != strs(base.1@)[i as int]);
            return false;
        }
        i += 1;
    }
    assert(strs(dir.1@).take(base.1@.len() as int) =~= strs(base.1@));
    true
}

// ---------------------------------------------------------------------------
// The order of paths
// ---------------------------------------------------------------------------

/// The root, `.`, `..` and names, in the order `std::path::Component`
/// orders them.
pub open spec fn component_rank(c: Seq<char>) -> int {
    if c == "/"@ {
        0
    } else if c == "."@ {
        1
    } else if c == ".."@ {
        2
    } else {
        3
    }
}

/// Component order: by kind, and names by their characters.
pub open spec fn component_lt(a: Seq<char>, b: Seq<char>) -> bool {
    ||| component_rank(a) < component_rank(b)
    ||| (component_rank(a) == 3 && component_rank(b) == 3 && lex_lt(a, b))
}

/// A path's components, the root (`/`) first when it is absolute.
pub open spec fn path_tokens(p: Seq<char>) -> Seq<Seq<char>> {
    if components(p).0 {
        seq!["/"@] + components(p).1
    } else {
        components(p).1
    }
}

/// Lexicographic order of component lists.
pub open spec fn tokens_lt(a: Seq<Seq<char>>, b: Seq<Seq<char>>) -> bool
    decreases a.len(),
{
    if a.len() == 0 {
        b.len() > 0
    } else if b.len() == 0 {
        false
    } else if a[0] != b[0] {
        component_lt(a[0], b[0])
    } else {
        tokens_lt(a.drop_first(), b.drop_first())
    }
}

/// The order of `std::path::Path`: component by component.
pub open spec fn path_lt(p: Seq<char>, q: Seq<char>) -> bool {
    tokens_lt(path_tokens(p), path_tokens(q))
}

proof fn lemma_component_trans(a: Seq<char>, b: Seq<char>, c: Seq<char>)
    requires
        component_lt(a, b),
        component_lt(b, c),
    ensures
        component_lt(a, c),
{
    if component_rank(a) == 3 && component_rank(b) == 3 && component_rank(c) == 3 {
        lemma_lex_trans(a, b, c);
    }
}

proof fn lemma_component_irreflexive(a: Seq<char>)
    ensures
        !component_lt(a, a),
{
    lemma_lex_irreflexive(a);
}

pub proof fn lemma_tokens_irreflexive(a: Seq<Seq<char>>)
    ensures
        !tokens_lt(a, a),
    decreases a.len(),
{
    if a.len() > 0 {
        lemma_tokens_irreflexive(a.drop_first());
    }
}

pub proof fn lemma_tokens_trans(a: Seq<Seq<char>>, b: Seq<Seq<char>>, c: Seq<Seq<char>>)
    requires
        tokens_lt(a, b),
        tokens_lt(b, c),
    ensures
        tokens_lt(a, c),
    decreases a.len(),
{
    if a.len() > 0 && b.len() > 0 && c.len() > 0 {
        if a[0] == b[0] && b[0] == c[0] {
            lemma_tokens_trans(a.drop_first(), b.drop_first(), c.drop_first());
        } else if a[0] == b[0] {
        } else if b[0] == c[0] {
        } else {
            lemma_component_trans(a[0], b[0], c[0]);
            if a[0] == c[0] {
                lemma_component_irreflexive(a[0]);
                lemma_component_trans(a[0], b[0], a[0]);
            }
        }
    }
}

/// The components of `p` with the root first, as `path_tokens` lists them.
fn tokens_exec(p: &str) -> (r: Vec<String>)
    ensures
        strs(r@) == path_tokens(p@),
{
    let (abs, parts) = path_components(p);
    if abs {
        let mut r: Vec<String> = Vec::new();
        r.push(crate::text::lit("/"));
        let mut i: usize = 0;
        while i < parts.len()
            invariant
                i <= parts@.len(),
                r@.len() == i + 1,
                strs(r@)[0] == "/"@,
                forall|k: int| 0 <= k < i ==> #[trigger] r@[k + 1]@ == parts@[k]@,
            decreases parts@.len() - i,
        {
            r.push(parts[i].clone());
            i += 1;
        }
        assert forall|k: int| 0 <= k < strs(r@).len() implies strs(r@)[k] == (seq!["/"@] + strs(
            parts@,
        ))[k] by {
            if k > 0 {
                assert(r@[(k - 1) + 1]@ == parts@[k - 1]@);
            }
        }
        assert(strs(r@) =~= seq!["/"@] + strs(parts@));
        r
    } else {
        parts
    }
}

fn component_less(a: &String, b: &String) -> (r: bool)
    ensures
        r == component_lt(a@, b@),
{
    proof {
        reveal_strlit("/");
        reveal_strlit(".");
        reveal_strlit("..");
    }
    let ra: u8 = if str_eq(a.as_str(), "/") {
        0
    } else if str_eq(a.as_str(), ".") {
        1
    } else if str_eq(a.as_str(), "..") {
        2
    } else {
        3
    };
    let rb: u8 = if str_eq(b.as_str(), "/") {
        0
    } else if str_eq(b.as_str(), ".") {
        1
    } else if str_eq(b.as_str(), "..") {
        2
    } else {
        3
    };
    assert(ra == component_rank(a@) && rb == component_rank(b@));
    ra < rb || (ra == 3 && rb == 3 && lex_less(a.as_str(), b.as_str()))
}

/// Whether path `p` comes before path `q`.
pub fn path_less(p: &str, q: &str) -> (r: bool)
    ensures
        r == path_lt(p@, q@),
{
    let a = tokens_exec(p);
    let b = tokens_exec(q);
    let ghost ta = strs(a@);
    let ghost tb = strs(b@);
    let mut i: usize = 0;
    assert(ta.skip(0) =~= ta);
    assert(tb.skip(0) =~= tb);
    while i < a.len() && i < b.len() && str_eq(a[i].as_str(), b[i].as_str())
        invariant
            i <= a@.len(),
            i <= b@.len(),
            ta == strs(a@),
            tb == strs(b@),
            tokens_lt(ta, tb) == tokens_lt(ta.skip(i as int), tb.skip(i as int)),
        decreases a@.len() - i,
    {
        proof {
            assert(ta.skip(i as int)[0] == a@[i as int]@);
            assert(tb.skip(i as int)[0] == b@[i as int]@);
            assert(ta.skip(i as int).drop_first() =~= ta.skip(i + 1));
            assert(tb.skip(i as int).drop_first() =~= tb.skip(i + 1));
        }
        i += 1;
    }
    if i == a.len() {
        i < b.len()
    } else if i == b.len() {
        false
    } else {
        proof {
            assert(ta.skip(i as int)[0] == a@[i as int]@);
            assert(tb.skip(i as int)[0] == b@[i as int]@);
        }
        component_less(&a[i], &b[i])
    }
}

/// No path of `ps` comes after a later one.
pub open spec fn paths_sorted(ps: Seq<Seq<char>>) -> bool {
    forall|i: int, j: int| 0 <= i < j < ps.len() ==> !path_lt(#[trigger] ps[j], #[trigger] ps[i])
}

/// Sorts paths in path order, keeping paths of equal order as they came.
pub fn sort_paths(paths: Vec<String>) -> (r: Vec<String>)
    ensures
        paths_sorted(strs(r@)),
        strs(r@).to_multiset() == strs(paths@).to_multiset(),
{
    broadcast use vstd::seq_lib::group_to_multiset_ensures;

    let ghost input = strs(paths@);
    let mut sorted: Vec<String> = Vec::new();
    let mut n: usize = 0;
    for p in it: paths
        invariant
            input == strs(it.seq()),
            paths_sorted(strs(sorted@)),
            strs(sorted@).to_multiset() == input.take(it.index() as int).to_multiset(),
    {
        let ghost before = strs(sorted@);
        let mut k: usize = 0;
        while k < sorted.len() && !path_less(p.as_str(), sorted[k].as_str())
            invariant
                k <= sorted@.len(),
                forall|i: int| 0 <= i < k ==> !path_lt(p@, #[trigger] strs(sorted@)[i]),
            decreases sorted@.len() - k,
        {
            k += 1;
        }
        proof {
            assert(input.take(it.index() + 1) =~= input.take(it.index() as int).push(p@));
            assert(input[it.index() as int] == p@);
        }
        let ghost pv = p@;
        sorted.insert(k, p);
        proof {
            let after = strs(sorted@);
            assert(after =~= before.insert(k as int, pv));
            assert forall|i: int, j: int| 0 <= i < j < after.len() implies !path_lt(
                #[trigger] after[j],
                #[trigger] after[i],
            ) by {
                if i < k && j == k {
                } else if i == k && j > k {
                    // after[j] == before[j - 1], and p comes before before[k]
                    if k < before.len() {
                        assert(path_lt(pv, before[k as int]));
                        if path_lt(before[j - 1], pv) {
                            lemma_tokens_trans(
                                path_tokens(before[j - 1]),
                                path_tokens(pv),
                                path_tokens(before[k as int]),
                            );
                            if j - 1 == k {
                                lemma_tokens_irreflexive(path_tokens(before[k as int]));
                            }
                        }
                    }
                } else if j < k {
                    assert(after[i] == before[i] && after[j] == before[j]);
                } else if i < k && j > k {
                    assert(after[i] == before[i] && after[j] == before[j - 1]);
                } else {
                    assert(after[i] == before[i - 1] && after[j] == before[j - 1]);
                }
            }
            vstd::seq_lib::to_multiset_insert(before, k as int, pv);
            input.take(it.index() as int).to_multiset_ensures();
        }
    }
    proof {
        assert(input.take(input.len() as int) =~= input);
    }
    sorted
}

} // verus!
