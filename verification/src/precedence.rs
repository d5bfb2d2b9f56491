//! How the `-k`/`-m` grammar groups words: `not` binds tighter than
//! `and`, and `and` tighter than `or`.
use vstd::prelude::*;
use crate::selection::{
    FilterExpr, and_op, depth_through, has_marker, k_matches, keyword_hit, m_matches, find_op, find_op_from, not_prefix, op_at, or_op, parse_and,
    parse_atom, parse_expression, parse_not, parse_or,
};
use crate::parser::TestItemView;
use crate::text::{is_ws, skip_ws, starts_with, trim, trim_end, trim_end_at, trim_start};

verus! {

/// A word of an expression: nonempty, without whitespace or parentheses,
/// and not one of the operator words.
pub open spec fn plain_word(w: Seq<char>) -> bool {
    &&& w.len() > 0
    &&& forall|i: int| 0 <= i < w.len() ==> !is_ws(#[trigger] w[i]) && w[i] != '(' && w[i] != ')'
    &&& w != seq!['o', 'r']
    &&& w != seq!['a', 'n', 'd']
    &&& w != seq!['n', 'o', 't']
}

proof fn lemma_trim_unchanged(s: Seq<char>)
    requires
        s.len() > 0,
        !is_ws(s[0]),
        !is_ws(s[s.len() - 1]),
    ensures
        trim(s) == s,
{
    assert(trim_end_at(s, s.len() as int) == s.len());
    assert(trim_end(s) =~= s);
    assert(skip_ws(s, 0) == 0);
    assert(trim_start(s) =~= s);
}

proof fn lemma_depth_zero(s: Seq<char>, i: int)
    requires
        i < s.len(),
        forall|j: int| 0 <= j <= i ==> #[trigger] s[j] != '(' && s[j] != ')',
    ensures
        depth_through(s, i) == 0,
    decreases i + 1,
{
    if i >= 0 {
        lemma_depth_zero(s, i - 1);
    }
}

proof fn lemma_no_op_from(s: Seq<char>, op: Seq<char>, i: int)
    requires
        forall|j: int| i <= j && j + op.len() <= s.len() ==> #[trigger] s.subrange(j, j + op.len()) != op,
    ensures
        find_op_from(s, op, i) is None,
    decreases s.len() + 1 - i,
{
    if !(i < 0 || i + op.len() > s.len()) {
        lemma_no_op_from(s, op, i + 1);
    }
}

proof fn lemma_first_op_from(s: Seq<char>, op: Seq<char>, i: int, k: int)
    requires
        0 <= i <= k,
        k + op.len() <= s.len(),
        op_at(s, op, k),
        forall|j: int| i <= j < k ==> #[trigger] s.subrange(j, j + op.len()) != op,
    ensures
        find_op_from(s, op, i) == Some(k),
    decreases k - i,
{
    if i < k {
        lemma_first_op_from(s, op, i + 1, k);
    }
}

/// A word parses, at every level, to itself as a leaf.
proof fn lemma_word_is_leaf(w: Seq<char>)
    requires
        plain_word(w),
    ensures
        parse_or(w) == FilterExpr::Leaf(w),
        parse_and(w) == FilterExpr::Leaf(w),
        parse_not(w) == FilterExpr::Leaf(w),
{
    assert(is_ws(' '));
    assert forall|j: int| 0 <= j && j + 4 <= w.len() implies #[trigger] w.subrange(j, j + 4)
        != or_op() by {
        assert(w.subrange(j, j + 4)[0] == w[j]);
        assert(or_op()[0] == ' ');
    }
    lemma_no_op_from(w, or_op(), 0);
    assert forall|j: int| 0 <= j && j + 5 <= w.len() implies #[trigger] w.subrange(j, j + 5)
        != and_op() by {
        assert(w.subrange(j, j + 5)[0] == w[j]);
        assert(and_op()[0] == ' ');
    }
    lemma_no_op_from(w, and_op(), 0);
    lemma_trim_unchanged(w);
    if w.len() >= 4 {
        assert(w.take(4)[3] == w[3]);
        assert(not_prefix()[3] == ' ');
    }
    assert(!starts_with(w, not_prefix()));
    assert(parse_atom(w) == FilterExpr::Leaf(w));
    assert(parse_not(w) == FilterExpr::Leaf(w));
    assert(parse_and(w) == FilterExpr::Leaf(w));
}

/// `a or b` between words parses as their disjunction.
proof fn lemma_or_of_words(a: Seq<char>, b: Seq<char>)
    requires
        plain_word(a),
        plain_word(b),
    ensures
        parse_or(a + or_op() + b) == FilterExpr::Or(
            Box::new(FilterExpr::Leaf(a)),
            Box::new(FilterExpr::Leaf(b)),
        ),
{
    lemma_word_is_leaf(a);
    lemma_word_is_leaf(b);
    assert(is_ws(' '));
    let r = a + or_op() + b;
    let n = a.len() as int;
    lemma_depth_zero(r, n);
    assert(r.subrange(n, n + 4) =~= or_op());
    assert forall|j: int| 0 <= j < n implies #[trigger] r.subrange(j, j + 4) != or_op() by {
        assert(r.subrange(j, j + 4)[0] == r[j]);
        assert(or_op()[0] == ' ');
    }
    lemma_first_op_from(r, or_op(), 0, n);
    assert(r.take(n) =~= a);
    assert(r.skip(n + 4) =~= b);
}

/// `b and c` between words parses as their conjunction.
proof fn lemma_and_of_words(b: Seq<char>, c: Seq<char>)
    requires
        plain_word(b),
        plain_word(c),
    ensures
        parse_or(b + and_op() + c) == FilterExpr::And(
            Box::new(FilterExpr::Leaf(b)),
            Box::new(FilterExpr::Leaf(c)),
        ),
{
    lemma_word_is_leaf(b);
    lemma_word_is_leaf(c);
    assert(is_ws(' '));
    let r = b + and_op() + c;
    let n = b.len() as int;
    assert forall|j: int| 0 <= j && j + 4 <= r.len() implies #[trigger] r.subrange(j, j + 4)
        != or_op() by {
        assert(r.subrange(j, j + 4)[0] == r[j]);
        assert(r.subrange(j, j + 4)[3] == r[j + 3]);
        assert(or_op()[0] == ' ' && or_op()[3] == ' ');
    }
    lemma_no_op_from(r, or_op(), 0);
    lemma_depth_zero(r, n);
    assert(r.subrange(n, n + 5) =~= and_op());
    assert forall|j: int| 0 <= j < n implies #[trigger] r.subrange(j, j + 5) != and_op() by {
        assert(r.subrange(j, j + 5)[0] == r[j]);
        assert(and_op()[0] == ' ');
    }
    assert(op_at(r, and_op(), n));
    lemma_first_op_from(r, and_op(), 0, n);
    assert(r.take(n) =~= b);
    assert(r.skip(n + 5) =~= c);
    assert(find_op(r, or_op()) is None);
    assert(parse_or(r) == parse_and(r));
    assert(find_op(r, and_op()) == Some(n));
}

/// `and` binds tighter than `or`: between words, `a or b and c` reads as
/// `a or (b and c)`.
pub proof fn law_and_binds_tighter_than_or(a: Seq<char>, b: Seq<char>, c: Seq<char>)
    requires
        plain_word(a),
        plain_word(b),
        plain_word(c),
    ensures
        parse_expression(a + or_op() + b + and_op() + c) == FilterExpr::Or(
            Box::new(FilterExpr::Leaf(a)),
            Box::new(FilterExpr::And(Box::new(FilterExpr::Leaf(b)), Box::new(FilterExpr::Leaf(c)))),
        ),
{
    lemma_word_is_leaf(a);
    lemma_and_of_words(b, c);
    assert(is_ws(' '));
    let s = a + or_op() + b + and_op() + c;
    let n = a.len() as int;
    assert(s[s.len() - 1] == c[c.len() - 1]);
    lemma_trim_unchanged(s);
    lemma_depth_zero(s, n);
    assert(s.subrange(n, n + 4) =~= or_op());
    assert forall|j: int| 0 <= j < n implies #[trigger] s.subrange(j, j + 4) != or_op() by {
        assert(s.subrange(j, j + 4)[0] == s[j]);
        assert(or_op()[0] == ' ');
    }
    lemma_first_op_from(s, or_op(), 0, n);
    assert(s.take(n) =~= a);
    assert(s.skip(n + 4) =~= b + and_op() + c);
}

/// In `a and b or c` between words, the first top-level ` or ` is the one
/// after `b`.
proof fn lemma_or_after_and(a: Seq<char>, b: Seq<char>, c: Seq<char>)
    requires
        plain_word(a),
        plain_word(b),
        plain_word(c),
    ensures
        trim(a + and_op() + b + or_op() + c) == a + and_op() + b + or_op() + c,
        find_op(a + and_op() + b + or_op() + c, or_op()) == Some(a.len() + 5 + b.len() as int),
{
    assert(is_ws(' '));
    let l = a + and_op() + b;
    let t = l + or_op() + c;
    let k = l.len() as int;
    assert(t[t.len() - 1] == c[c.len() - 1]);
    assert(t[0] == a[0]);
    lemma_trim_unchanged(t);
    lemma_depth_zero(t, k);
    assert(t.subrange(k, k + 4) =~= or_op());
    let na = a.len() as int;
    let nb = b.len() as int;
    assert(k == na + 5 + nb);
    assert forall|j: int| 0 <= j < k && is_ws(#[trigger] t[j]) implies j == na || j == na + 4 by {
        assert(t[j] == l[j]);
        if j < na {
            assert(l[j] == a[j]);
        } else if j >= na + 5 {
            assert(l[j] == b[j - na - 5]);
        } else {
            assert(l[j] == and_op()[j - na]);
        }
    }
    assert(t[na + 1] == 'a') by {
        assert(t[na + 1] == l[na + 1]);
        assert(l[na + 1] == and_op()[1]);
    }
    assert(t[k] == ' ' && t[k + 1] == 'o') by {
        assert(t[k] == or_op()[0]);
        assert(t[k + 1] == or_op()[1]);
    }
    assert forall|j: int| 0 <= j < k implies #[trigger] t.subrange(j, j + 4) != or_op() by {
        if t.subrange(j, j + 4) == or_op() {
            assert(t[j] == ' ' && t[j + 1] == 'o' && t[j + 2] == 'r' && t[j + 3] == ' ') by {
                assert(t.subrange(j, j + 4)[0] == t[j]);
                assert(t.subrange(j, j + 4)[1] == t[j + 1]);
                assert(t.subrange(j, j + 4)[2] == t[j + 2]);
                assert(t.subrange(j, j + 4)[3] == t[j + 3]);
            }
            assert(j == na || j == na + 4);
            if j == na + 4 {
                if j + 3 < k {
                    assert(false);
                } else if j + 3 == k {
                    assert(t[j + 1] == b[0] && t[j + 2] == b[1]) by {
                        assert(t[j + 1] == l[j + 1]);
                        assert(t[j + 2] == l[j + 2]);
                    }
                    assert(b =~= seq!['o', 'r']);
                } else {
                    assert(j + 3 == k + 1);
                }
            }
        }
    }
    lemma_first_op_from(t, or_op(), 0, k);
}

/// Between words, `a and b or c` reads as `(a and b) or c`.
pub proof fn law_or_binds_looser_than_and(a: Seq<char>, b: Seq<char>, c: Seq<char>)
    requires
        plain_word(a),
        plain_word(b),
        plain_word(c),
    ensures
        parse_expression(a + and_op() + b + or_op() + c) == FilterExpr::Or(
            Box::new(FilterExpr::And(Box::new(FilterExpr::Leaf(a)), Box::new(FilterExpr::Leaf(b)))),
            Box::new(FilterExpr::Leaf(c)),
        ),
{
    lemma_word_is_leaf(c);
    lemma_and_of_words(a, b);
    lemma_or_after_and(a, b, c);
    let l = a + and_op() + b;
    let t = l + or_op() + c;
    let k = l.len() as int;
    assert(t.take(k) =~= l);
    assert(t.skip(k + 4) =~= c);
}

/// `not a` for a word parses as the negation of its leaf.
proof fn lemma_not_word(a: Seq<char>)
    requires
        plain_word(a),
    ensures
        parse_and(not_prefix() + a) == FilterExpr::Not(Box::new(FilterExpr::Leaf(a))),
{
    lemma_word_is_leaf(a);
    assert(is_ws(' '));
    let l = not_prefix() + a;
    let na = a.len() as int;
    assert forall|j: int| 0 <= j && j + 5 <= l.len() implies #[trigger] l.subrange(j, j + 5)
        != and_op() by {
        assert(l.subrange(j, j + 5)[4] == l[j + 4]);
        assert(l[j + 4] == a[j]);
        assert(and_op()[4] == ' ');
    }
    lemma_no_op_from(l, and_op(), 0);
    assert(l[0] == 'n');
    assert(l[l.len() - 1] == a[na - 1]);
    lemma_trim_unchanged(l);
    assert(l.take(4) =~= not_prefix());
    assert(l.skip(4) =~= a);
    assert(starts_with(l, not_prefix()));
    assert(parse_not(l) == FilterExpr::Not(Box::new(parse_not(a))));
}

/// In `not a and b` between words, the first top-level ` and ` follows
/// `a`, and there is no top-level ` or `.
proof fn lemma_and_after_not(a: Seq<char>, b: Seq<char>)
    requires
        plain_word(a),
        plain_word(b),
    ensures
        trim(not_prefix() + a + and_op() + b) == not_prefix() + a + and_op() + b,
        find_op(not_prefix() + a + and_op() + b, or_op()) is None,
        find_op(not_prefix() + a + and_op() + b, and_op()) == Some(a.len() + 4int),
{
    assert(is_ws(' '));
    let l = not_prefix() + a;
    let s = l + and_op() + b;
    let na = a.len() as int;
    let k = l.len() as int;
    assert(k == na + 4);
    assert(s[0] == 'n');
    assert(s[s.len() - 1] == b[b.len() - 1]);
    lemma_trim_unchanged(s);
    assert forall|j: int| 0 <= j < s.len() && is_ws(#[trigger] s[j]) implies j == 3 || j == k || j
        == k + 4 by {
        if j < k {
            assert(s[j] == l[j]);
            if j >= 4 {
                assert(l[j] == a[j - 4]);
            } else {
                assert(l[j] == not_prefix()[j]);
            }
        } else if j >= k + 5 {
            assert(s[j] == b[j - k - 5]);
        } else {
            assert(s[j] == and_op()[j - k]);
        }
    }
    assert forall|j: int| 0 <= j && j + 4 <= s.len() implies #[trigger] s.subrange(j, j + 4)
        != or_op() by {
        if s.subrange(j, j + 4) == or_op() {
            assert(s[j] == ' ' && s[j + 1] == 'o' && s[j + 2] == 'r' && s[j + 3] == ' ') by {
                assert(s.subrange(j, j + 4)[0] == s[j]);
                assert(s.subrange(j, j + 4)[1] == s[j + 1]);
                assert(s.subrange(j, j + 4)[2] == s[j + 2]);
                assert(s.subrange(j, j + 4)[3] == s[j + 3]);
            }
            if j == 3 && na == 2 {
                assert(s[4] == a[0] && s[5] == a[1]);
                assert(a =~= seq!['o', 'r']);
            }
            if j == k {
                assert(s[k + 1] == and_op()[1]);
            }
        }
    }
    lemma_no_op_from(s, or_op(), 0);
    lemma_depth_zero(s, k);
    assert(s.subrange(k, k + 5) =~= and_op());
    assert forall|j: int| 0 <= j < k implies #[trigger] s.subrange(j, j + 5) != and_op() by {
        if s.subrange(j, j + 5) == and_op() {
            assert(s[j] == ' ' && s[j + 1] == 'a' && s[j + 2] == 'n' && s[j + 3] == 'd' && s[j + 4]
                == ' ') by {
                assert(s.subrange(j, j + 5)[0] == s[j]);
                assert(s.subrange(j, j + 5)[1] == s[j + 1]);
                assert(s.subrange(j, j + 5)[2] == s[j + 2]);
                assert(s.subrange(j, j + 5)[3] == s[j + 3]);
                assert(s.subrange(j, j + 5)[4] == s[j + 4]);
            }
            if j == 3 && na == 3 {
                assert(s[4] == a[0] && s[5] == a[1] && s[6] == a[2]);
                assert(a =~= seq!['a', 'n', 'd']);
            }
        }
    }
    lemma_first_op_from(s, and_op(), 0, k);
}

/// `not` binds tighter than `and`: between words, `not a and b` reads as
/// `(not a) and b`.
pub proof fn law_not_binds_tighter_than_and(a: Seq<char>, b: Seq<char>)
    requires
        plain_word(a),
        plain_word(b),
    ensures
        parse_expression(not_prefix() + a + and_op() + b) == FilterExpr::And(
            Box::new(FilterExpr::Not(Box::new(FilterExpr::Leaf(a)))),
            Box::new(FilterExpr::Leaf(b)),
        ),
{
    lemma_word_is_leaf(b);
    lemma_not_word(a);
    lemma_and_after_not(a, b);
    let l = not_prefix() + a;
    let s = l + and_op() + b;
    let k = l.len() as int;
    assert(s.take(k) =~= l);
    assert(s.skip(k + 5) =~= b);
    assert(parse_and(s) == FilterExpr::And(Box::new(parse_and(l)), Box::new(parse_and(b))));
    assert(parse_or(s) == parse_and(s));
}

proof fn lemma_depth_inside(s: Seq<char>, close: int, j: int)
    requires
        0 <= j < close < s.len(),
        s[0] == '(',
        forall|i: int| 0 < i < close ==> #[trigger] s[i] != '(' && s[i] != ')',
    ensures
        depth_through(s, j) == 1,
    decreases j,
{
    if j > 0 {
        lemma_depth_inside(s, close, j - 1);
    } else {
        assert(depth_through(s, -1) == 0);
    }
}

proof fn lemma_depth_after(s: Seq<char>, close: int, j: int)
    requires
        0 < close <= j < s.len(),
        s[0] == '(',
        s[close] == ')',
        forall|i: int| 0 < i <= j && i != close ==> #[trigger] s[i] != '(' && s[i] != ')',
    ensures
        depth_through(s, j) == 0,
    decreases j,
{
    if j > close {
        lemma_depth_after(s, close, j - 1);
    } else {
        lemma_depth_inside(s, close, close - 1);
    }
}

proof fn lemma_no_op_from_depth(s: Seq<char>, op: Seq<char>, i: int)
    requires
        forall|j: int|
            i <= j && j + op.len() <= s.len() ==> !(#[trigger] s.subrange(j, j + op.len()) == op
                && depth_through(s, j) == 0),
    ensures
        find_op_from(s, op, i) is None,
    decreases s.len() + 1 - i,
{
    if !(i < 0 || i + op.len() > s.len()) {
        lemma_no_op_from_depth(s, op, i + 1);
    }
}

proof fn lemma_first_op_from_depth(s: Seq<char>, op: Seq<char>, i: int, k: int)
    requires
        0 <= i <= k,
        k + op.len() <= s.len(),
        op_at(s, op, k),
        forall|j: int|
            i <= j < k && depth_through(s, j) == 0 ==> #[trigger] s.subrange(j, j + op.len())
                != op,
    ensures
        find_op_from(s, op, i) == Some(k),
    decreases k - i,
{
    if i < k {
        lemma_first_op_from_depth(s, op, i + 1, k);
    }
}

/// A parenthesised `a or b` between words.
proof fn lemma_parenthesised_or(a: Seq<char>, b: Seq<char>)
    requires
        plain_word(a),
        plain_word(b),
    ensures
        parse_and(seq!['('] + a + or_op() + b + seq![')']) == FilterExpr::Or(
            Box::new(FilterExpr::Leaf(a)),
            Box::new(FilterExpr::Leaf(b)),
        ),
{
    lemma_or_of_words(a, b);
    assert(is_ws(' '));
    let p = seq!['('] + a + or_op() + b + seq![')'];
    let na = a.len() as int;
    assert forall|j: int| 0 <= j && j + 5 <= p.len() implies #[trigger] p.subrange(j, j + 5)
        != and_op() by {
        if p.subrange(j, j + 5) == and_op() {
            assert(p[j] == ' ' && p[j + 4] == ' ') by {
                assert(p.subrange(j, j + 5)[0] == p[j]);
                assert(p.subrange(j, j + 5)[4] == p[j + 4]);
            }
            assert(p[j] == (seq!['('] + a + or_op() + b)[j]);
            assert(p[j + 4] == (seq!['('] + a + or_op() + b)[j + 4]);
            if j < na + 1 {
                assert(p[j] == a[j - 1]);
            } else if j >= na + 5 {
                assert(p[j] == b[j - na - 5]);
            } else if j + 4 < na + 5 {
                assert(false);
            } else {
                assert(p[j + 4] == b[j + 4 - na - 5]);
            }
        }
    }
    lemma_no_op_from(p, and_op(), 0);
    assert(p[0] == '(');
    assert(p[p.len() - 1] == ')');
    lemma_trim_unchanged(p);
    assert(!starts_with(p, not_prefix())) by {
        if starts_with(p, not_prefix()) {
            assert(p.take(4)[0] == p[0]);
        }
    }
    assert(p.subrange(1, p.len() - 1) =~= a + or_op() + b);
    assert(parse_atom(p) == parse_or(a + or_op() + b));
    assert(parse_not(p) == parse_atom(p));
    assert(parse_and(p) == parse_not(p));
}

/// In `(a or b) and c` between words, the only top-level operator is the
/// ` and ` after the closing parenthesis.
proof fn lemma_parenthesised_ops(a: Seq<char>, b: Seq<char>, c: Seq<char>)
    requires
        plain_word(a),
        plain_word(b),
        plain_word(c),
    ensures
        ({
            let s = seq!['('] + a + or_op() + b + seq![')'] + and_op() + c;
            &&& trim(s) == s
            &&& find_op(s, or_op()) is None
            &&& find_op(s, and_op()) == Some(a.len() + b.len() + 6int)
        }),
{
    assert(is_ws(' '));
    let p = seq!['('] + a + or_op() + b + seq![')'];
    let s = p + and_op() + c;
    let n = p.len() as int;
    let close = n - 1;
    let na = a.len() as int;
    assert(s[0] == '(');
    assert(s[close] == ')');
    assert(s[s.len() - 1] == c[c.len() - 1]);
    lemma_trim_unchanged(s);
    assert forall|i: int| 0 < i < s.len() && i != close implies #[trigger] s[i] != '(' && s[i]
        != ')' by {
        if i < close {
            assert(s[i] == p[i]);
            assert(p[i] == (seq!['('] + a + or_op() + b)[i]);
            if i < na + 1 {
                assert(p[i] == a[i - 1]);
            } else if i >= na + 5 {
                assert(p[i] == b[i - na - 5]);
            }
        } else if i >= n + 5 {
            assert(s[i] == c[i - n - 5]);
        }
    }
    assert forall|j: int| 0 <= j && j + 4 <= s.len() implies !(#[trigger] s.subrange(j, j + 4)
        == or_op() && depth_through(s, j) == 0) by {
        if s.subrange(j, j + 4) == or_op() && depth_through(s, j) == 0 {
            assert(s[j] == ' ' && s[j + 3] == ' ') by {
                assert(s.subrange(j, j + 4)[0] == s[j]);
                assert(s.subrange(j, j + 4)[3] == s[j + 3]);
            }
            if j < close {
                lemma_depth_inside(s, close, j);
            } else if j >= n + 5 {
                assert(s[j] == c[j - n - 5]);
            } else if j + 3 >= n + 5 {
                assert(s[j + 3] == c[j + 3 - n - 5]);
            } else {
                assert(s[j + 3] == and_op()[j + 3 - n]);
            }
        }
    }
    lemma_no_op_from_depth(s, or_op(), 0);
    lemma_depth_after(s, close, n);
    assert(s.subrange(n, n + 5) =~= and_op());
    assert forall|j: int| 0 <= j < n && depth_through(s, j) == 0 implies #[trigger] s.subrange(
        j,
        j + 5,
    ) != and_op() by {
        if j < close {
            lemma_depth_inside(s, close, j);
        } else {
            assert(s.subrange(j, j + 5)[0] == s[j]);
        }
    }
    lemma_first_op_from_depth(s, and_op(), 0, n);
}

/// Parentheses group: between words, `(a or b) and c` reads as the
/// conjunction of `a or b` with `c`.
pub proof fn law_parentheses_group(a: Seq<char>, b: Seq<char>, c: Seq<char>)
    requires
        plain_word(a),
        plain_word(b),
        plain_word(c),
    ensures
        parse_expression(seq!['('] + a + or_op() + b + seq![')'] + and_op() + c) == FilterExpr::And(
            Box::new(FilterExpr::Or(Box::new(FilterExpr::Leaf(a)), Box::new(FilterExpr::Leaf(b)))),
            Box::new(FilterExpr::Leaf(c)),
        ),
{
    lemma_parenthesised_or(a, b);
    lemma_word_is_leaf(c);
    lemma_parenthesised_ops(a, b, c);
    let p = seq!['('] + a + or_op() + b + seq![')'];
    let s = p + and_op() + c;
    let n = p.len() as int;
    assert(s.take(n) =~= p);
    assert(s.skip(n + 5) =~= c);
    assert(parse_and(s) == FilterExpr::And(Box::new(parse_and(p)), Box::new(parse_and(c))));
    assert(parse_or(s) == parse_and(s));
}

/// What `a or b and c` selects between words: with `-k`, the items that
/// match `a`, or both `b` and `c`; with `-m`, the items marked `a`, or
/// marked both `b` and `c`.  An item that matches `a` alone is selected.
pub proof fn law_or_selects_either_side(
    a: Seq<char>,
    b: Seq<char>,
    c: Seq<char>,
    item: TestItemView,
)
    requires
        plain_word(a),
        plain_word(b),
        plain_word(c),
    ensures
        k_matches(parse_expression(a + or_op() + b + and_op() + c), item) == (keyword_hit(a, item)
            || (keyword_hit(b, item) && keyword_hit(c, item))),
        m_matches(parse_expression(a + or_op() + b + and_op() + c), item) == (has_marker(a, item)
            || (has_marker(b, item) && has_marker(c, item))),
{
    law_and_binds_tighter_than_or(a, b, c);
    reveal_with_fuel(k_matches, 3);
    reveal_with_fuel(m_matches, 3);
}

} // verus!
