//! Character-level text operations used throughout the collector, each
//! specified over the `Seq<char>` view of a string.
use vstd::prelude::*;

verus! {

broadcast use vstd::string::group_string_axioms;

pub assume_specification[ String::push ](s: &mut String, ch: char)
    ensures
        final(s)@ == old(s)@.push(ch),
;

// ---------------------------------------------------------------------------
// Conversions between strings and character vectors
// ---------------------------------------------------------------------------

/// The characters of `s`, in order.
pub fn chars_of(s: &str) -> (v: Vec<char>)
    ensures
        v@ == s@,
{
    let mut v: Vec<char> = Vec::new();
    for c in it: s.chars()
        invariant
            v@ == it.seq().take(it.index() as int),
    {
        v.push(c);
    }
    v
}

/// A string holding exactly the characters `v[from..to]`.
pub fn string_from_range(v: &Vec<char>, from: usize, to: usize) -> (s: String)
    requires
        from <= to <= v@.len(),
    ensures
        s@ == v@.subrange(from as int, to as int),
{
    let mut s = String::new();
    let mut i = from;
    while i < to
        invariant
            from <= i <= to <= v@.len(),
            s@ == v@.subrange(from as int, i as int),
        decreases to - i,
    {
        s.push(v[i]);
        i += 1;
    }
    s
}

/// A string holding exactly the characters of `v`.
pub fn string_from(v: &Vec<char>) -> (s: String)
    ensures
        s@ == v@,
{
    let s = string_from_range(v, 0, v.len());
    assert(v@.subrange(0, v@.len() as int) =~= v@);
    s
}

/// A vector holding `v[from..to]`.
pub fn slice_chars(v: &Vec<char>, from: usize, to: usize) -> (r: Vec<char>)
    requires
        from <= to <= v@.len(),
    ensures
        r@ == v@.subrange(from as int, to as int),
{
    let mut r: Vec<char> = Vec::new();
    let mut i = from;
    while i < to
        invariant
            from <= i <= to <= v@.len(),
            r@ == v@.subrange(from as int, i as int),
        decreases to - i,
    {
        r.push(v[i]);
        i += 1;
    }
    r
}

/// Appends the characters of `t` to `s`.
pub fn push_chars(s: &mut String, t: &Vec<char>)
    ensures
        final(s)@ == old(s)@ + t@,
{
    let mut i: usize = 0;
    while i < t.len()
        invariant
            i <= t@.len(),
            s@ == old(s)@ + t@.take(i as int),
        decreases t@.len() - i,
    {
        s.push(t[i]);
        i += 1;
        assert(t@.take(i as int) =~= t@.take(i - 1).push(t@[i - 1]));
    }
    assert(t@.take(t@.len() as int) =~= t@);
}

/// Appends the characters of `t` to `s`.
pub fn push_str(s: &mut String, t: &str)
    ensures
        final(s)@ == old(s)@ + t@,
{
    let v = chars_of(t);
    push_chars(s, &v);
}

/// Whether two character sequences are equal.
pub fn chars_eq(a: &Vec<char>, b: &Vec<char>) -> (r: bool)
    ensures
        r == (a@ == b@),
{
    if a.len() != b.len() {
        return false;
    }
    let mut i: usize = 0;
    while i < a.len()
        invariant
            a@.len() == b@.len(),
            i <= a@.len(),
            forall|j: int| 0 <= j < i ==> a@[j] == b@[j],
        decreases a@.len() - i,
    {
        if a[i] != b[i] {
            return false;
        }
        i += 1;
    }
    assert(a@ =~= b@);
    true
}

/// Whether two strings hold the same characters.
pub fn str_eq(a: &str, b: &str) -> (r: bool)
    ensures
        r == (a@ == b@),
{
    let va = chars_of(a);
    let vb = chars_of(b);
    chars_eq(&va, &vb)
}

// ---------------------------------------------------------------------------
// Whitespace and trimming
// ---------------------------------------------------------------------------

/// Unicode `White_Space`, the property `char::is_whitespace` tests.
pub open spec fn is_ws(c: char) -> bool {
    let u = c as u32;
    ||| 0x09 <= u <= 0x0D
    ||| u == 0x20
    ||| u == 0x85
    ||| u == 0xA0
    ||| u == 0x1680
    ||| 0x2000 <= u <= 0x200A
    ||| u == 0x2028
    ||| u == 0x2029
    ||| u == 0x202F
    ||| u == 0x205F
    ||| u == 0x3000
}

pub fn is_whitespace(c: char) -> (r: bool)
    ensures
        r == is_ws(c),
{
    let u = c as u32;
    (0x09 <= u && u <= 0x0D) || u == 0x20 || u == 0x85 || u == 0xA0 || u == 0x1680 || (0x2000
        <= u && u <= 0x200A) || u == 0x2028 || u == 0x2029 || u == 0x202F || u == 0x205F || u
        == 0x3000
}

/// The first index at or after `i` whose character is not whitespace
/// (the length when there is none).
pub open spec fn skip_ws(s: Seq<char>, i: int) -> int
    decreases s.len() - i,
{
    if i >= s.len() {
        s.len() as int
    } else if is_ws(s[i]) {
        skip_ws(s, i + 1)
    } else {
        i
    }
}

/// The first index at or after `i` whose character is whitespace
/// (the length when there is none).
pub open spec fn skip_non_ws(s: Seq<char>, i: int) -> int
    decreases s.len() - i,
{
    if i >= s.len() {
        s.len() as int
    } else if !is_ws(s[i]) {
        skip_non_ws(s, i + 1)
    } else {
        i
    }
}

/// The end of `s[..j]` once trailing whitespace is removed.
pub open spec fn trim_end_at(s: Seq<char>, j: int) -> int
    decreases j,
{
    if j <= 0 {
        0
    } else if is_ws(s[j - 1]) {
        trim_end_at(s, j - 1)
    } else {
        j
    }
}

pub proof fn lemma_skip_ws_bounds(s: Seq<char>, i: int)
    requires
        0 <= i <= s.len(),
    ensures
        i <= skip_ws(s, i) <= s.len(),
        forall|k: int| i <= k < skip_ws(s, i) ==> is_ws(#[trigger] s[k]),
        skip_ws(s, i) < s.len() ==> !is_ws(s[skip_ws(s, i)]),
    decreases s.len() - i,
{
    if i < s.len() && is_ws(s[i]) {
        lemma_skip_ws_bounds(s, i + 1);
    }
}

pub proof fn lemma_skip_non_ws_bounds(s: Seq<char>, i: int)
    requires
        0 <= i <= s.len(),
    ensures
        i <= skip_non_ws(s, i) <= s.len(),
        forall|k: int| i <= k < skip_non_ws(s, i) ==> !is_ws(#[trigger] s[k]),
        skip_non_ws(s, i) < s.len() ==> is_ws(s[skip_non_ws(s, i)]),
    decreases s.len() - i,
{
    if i < s.len() && !is_ws(s[i]) {
        lemma_skip_non_ws_bounds(s, i + 1);
    }
}

pub proof fn lemma_trim_end_bounds(s: Seq<char>, j: int)
    requires
        0 <= j <= s.len(),
    ensures
        0 <= trim_end_at(s, j) <= j,
        forall|k: int| trim_end_at(s, j) <= k < j ==> is_ws(#[trigger] s[k]),
        trim_end_at(s, j) > 0 ==> !is_ws(s[trim_end_at(s, j) - 1]),
    decreases j,
{
    if j > 0 && is_ws(s[j - 1]) {
        lemma_trim_end_bounds(s, j - 1);
    }
}

/// `s` with leading whitespace removed (`str::trim_start`).
pub open spec fn trim_start(s: Seq<char>) -> Seq<char> {
    s.subrange(skip_ws(s, 0), s.len() as int)
}

/// `s` with trailing whitespace removed (`str::trim_end`).
pub open spec fn trim_end(s: Seq<char>) -> Seq<char> {
    s.subrange(0, trim_end_at(s, s.len() as int))
}

/// `s` with leading and trailing whitespace removed (`str::trim`).
pub open spec fn trim(s: Seq<char>) -> Seq<char> {
    trim_start(trim_end(s))
}

pub proof fn lemma_trim_len(s: Seq<char>)
    ensures
        trim_end(s).len() <= s.len(),
        trim(s).len() <= trim_end(s).len(),
        trim(s).len() <= s.len(),
{
    lemma_trim_end_bounds(s, s.len() as int);
    lemma_skip_ws_bounds(trim_end(s), 0);
}

/// The bounds `(a, b)` with `v[a..b] == trim(v[from..to])`.
pub fn trim_bounds(v: &Vec<char>, from: usize, to: usize) -> (r: (usize, usize))
    requires
        from <= to <= v@.len(),
    ensures
        from <= r.0 <= r.1 <= to,
        v@.subrange(r.0 as int, r.1 as int) == trim(v@.subrange(from as int, to as int)),
{
    let ghost s = v@.subrange(from as int, to as int);
    let mut b = to;
    proof {
        lemma_trim_end_bounds(s, s.len() as int);
    }
    while b > from && is_whitespace(v[b - 1])
        invariant
            from <= b <= to <= v@.len(),
            s == v@.subrange(from as int, to as int),
            trim_end_at(s, b - from) == trim_end_at(s, s.len() as int),
        decreases b,
    {
        assert(s[b - from - 1] == v@[b - 1]);
        b -= 1;
    }
    proof {
        if b > from {
            assert(s[b - from - 1] == v@[b - 1]);
        }
        assert(trim_end_at(s, b - from) == b - from);
    }
    let ghost e = v@.subrange(from as int, b as int);
    assert(e =~= trim_end(s));
    let mut a = from;
    proof {
        lemma_skip_ws_bounds(e, 0);
    }
    while a < b && is_whitespace(v[a])
        invariant
            from <= a <= b <= to <= v@.len(),
            e == v@.subrange(from as int, b as int),
            skip_ws(e, a - from) == skip_ws(e, 0),
        decreases b - a,
    {
        assert(e[a - from] == v@[a as int]);
        a += 1;
    }
    proof {
        if a < b {
            assert(e[a - from] == v@[a as int]);
        }
        assert(skip_ws(e, a - from) == a - from);
    }
    assert(v@.subrange(a as int, b as int) =~= trim(s));
    (a, b)
}

/// `trim(v)` as a new vector.
pub fn trim_chars(v: &Vec<char>) -> (r: Vec<char>)
    ensures
        r@ == trim(v@),
{
    let (a, b) = trim_bounds(v, 0, v.len());
    assert(v@.subrange(0, v@.len() as int) =~= v@);
    slice_chars(v, a, b)
}

// ---------------------------------------------------------------------------
// Prefixes, suffixes and substrings
// ---------------------------------------------------------------------------

pub open spec fn starts_with(s: Seq<char>, p: Seq<char>) -> bool {
    p.len() <= s.len() && s.take(p.len() as int) == p
}

pub open spec fn ends_with(s: Seq<char>, p: Seq<char>) -> bool {
    p.len() <= s.len() && s.skip(s.len() - p.len()) == p
}

/// `p` occurs in `s` starting at index `i`.
pub open spec fn occurs_at(s: Seq<char>, p: Seq<char>, i: int) -> bool {
    0 <= i && i + p.len() <= s.len() && s.subrange(i, i + p.len()) == p
}

/// `p` occurs somewhere in `s` (`str::contains` with a string pattern).
pub open spec fn contains(s: Seq<char>, p: Seq<char>) -> bool {
    exists|i: int| occurs_at(s, p, i)
}

/// Whether `p` occurs in `s` at index `i`.
pub fn occurs_at_exec(s: &Vec<char>, p: &Vec<char>, i: usize) -> (r: bool)
    ensures
        r == occurs_at(s@, p@, i as int),
{
    if i > s.len() || p.len() > s.len() - i {
        return false;
    }
    let mut j: usize = 0;
    while j < p.len()
        invariant
            i + p@.len() <= s@.len(),
            s@.len() <= usize::MAX,
            j <= p@.len(),
            forall|k: int| 0 <= k < j ==> s@[i + k] == p@[k],
        decreases p@.len() - j,
    {
        if s[i + j] != p[j] {
            assert(s@.subrange(i as int, i + p@.len())[j as int] != p@[j as int]);
            return false;
        }
        j += 1;
    }
    assert(s@.subrange(i as int, i + p@.len()) =~= p@);
    true
}

pub fn starts_with_exec(s: &Vec<char>, p: &Vec<char>) -> (r: bool)
    ensures
        r == starts_with(s@, p@),
{
    let r = occurs_at_exec(s, p, 0);
    proof {
        if p@.len() <= s@.len() {
            assert(s@.take(p@.len() as int) =~= s@.subrange(0, p@.len() as int));
        }
    }
    r
}

pub fn ends_with_exec(s: &Vec<char>, p: &Vec<char>) -> (r: bool)
    ensures
        r == ends_with(s@, p@),
{
    if p.len() > s.len() {
        return false;
    }
    let r = occurs_at_exec(s, p, s.len() - p.len());
    assert(s@.skip(s@.len() - p@.len()) =~= s@.subrange(
        s@.len() - p@.len(),
        s@.len() - p@.len() + p@.len(),
    ));
    r
}

/// Whether `p` occurs in `s`.
pub fn contains_exec(s: &Vec<char>, p: &Vec<char>) -> (r: bool)
    ensures
        r == contains(s@, p@),
{
    if p.len() > s.len() {
        return false;
    }
    let last = s.len() - p.len();
    let mut i: usize = 0;
    loop
        invariant
            p@.len() <= s@.len(),
            last == s@.len() - p@.len(),
            i <= last,
            forall|k: int| 0 <= k < i ==> !occurs_at(s@, p@, k),
        ensures
            forall|k: int| 0 <= k <= last ==> !occurs_at(s@, p@, k),
        decreases last - i,
    {
        if occurs_at_exec(s, p, i) {
            return true;
        }
        if i == last {
            break;
        }
        i += 1;
    }
    assert forall|k: int| !occurs_at(s@, p@, k) by {
        if 0 <= k <= last {
        }
    }
    false
}

// ---------------------------------------------------------------------------
// Lower-casing (Unicode case mapping, as `str::to_lowercase` does it)
// ---------------------------------------------------------------------------

/// What `str::to_lowercase` returns for a string with characters `s`.
pub uninterp spec fn lowercase(s: Seq<char>) -> Seq<char>;

/// Calls `str::to_lowercase`; the result is the named Unicode lower-case
/// mapping of the argument's characters.
#[verifier::external_body]
pub(crate) fn to_lowercase(s: &str) -> (r: String)
    ensures
        r@ == lowercase(s@),
{
    s.to_lowercase()
}


// ---------------------------------------------------------------------------
// Sequences of strings
// ---------------------------------------------------------------------------

/// The character views of a sequence of strings.
pub open spec fn strs(v: Seq<String>) -> Seq<Seq<char>> {
    v.map_values(|s: String| s@)
}

/// A copy of `v` holding equal strings.
pub fn copy_strings(v: &Vec<String>) -> (r: Vec<String>)
    ensures
        strs(r@) == strs(v@),
{
    let mut r: Vec<String> = Vec::new();
    let mut i: usize = 0;
    while i < v.len()
        invariant
            i <= v@.len(),
            r@.len() == i,
            forall|j: int| 0 <= j < i ==> r@[j]@ == v@[j]@,
        decreases v@.len() - i,
    {
        let c = v[i].clone();
        r.push(c);
        i += 1;
    }
    assert(strs(r@) =~= strs(v@));
    r
}


// ---------------------------------------------------------------------------
// Joining, splitting, decimal digits
// ---------------------------------------------------------------------------

/// `parts` joined with `sep` between consecutive elements (`[T]::join`).
pub open spec fn join(parts: Seq<Seq<char>>, sep: Seq<char>) -> Seq<char>
    decreases parts.len(),
{
    if parts.len() == 0 {
        Seq::empty()
    } else if parts.len() == 1 {
        parts[0]
    } else {
        join(parts.drop_last(), sep) + sep + parts.last()
    }
}

/// The strings of `v[from..]` joined with `sep`.
pub fn join_strings_from(v: &Vec<String>, from: usize, sep: &str) -> (r: String)
    requires
        from <= v@.len(),
    ensures
        r@ == join(strs(v@).skip(from as int), sep@),
{
    let mut r = String::new();
    let mut i = from;
    while i < v.len()
        invariant
            from <= i <= v@.len(),
            r@ == join(strs(v@).subrange(from as int, i as int), sep@),
        decreases v@.len() - i,
    {
        let ghost prev = strs(v@).subrange(from as int, i as int);
        if i > from {
            push_str(&mut r, sep);
        }
        push_str(&mut r, v[i].as_str());
        i += 1;
        proof {
            let cur = strs(v@).subrange(from as int, i as int);
            assert(cur.drop_last() =~= prev);
            if prev.len() == 0 {
                assert(cur =~= seq![v@[i - 1]@]);
            }
        }
    }
    assert(strs(v@).subrange(from as int, v@.len() as int) =~= strs(v@).skip(from as int));
    r
}

/// The strings of `v` joined with `sep`.
pub fn join_strings(v: &Vec<String>, sep: &str) -> (r: String)
    ensures
        r@ == join(strs(v@), sep@),
{
    let r = join_strings_from(v, 0, sep);
    assert(strs(v@).skip(0) =~= strs(v@));
    r
}

/// The decimal digit for `d < 10`.
pub open spec fn digit_char(d: nat) -> char {
    ((48 + d) as u8) as char
}

/// The decimal representation of `n`, without leading zeros.
pub open spec fn decimal(n: nat) -> Seq<char>
    decreases n,
{
    if n < 10 {
        seq![digit_char(n)]
    } else {
        decimal(n / 10).push(digit_char(n % 10))
    }
}

/// Appends the decimal representation of `n` to `s`.
pub fn push_decimal(s: &mut String, n: u64)
    ensures
        final(s)@ == old(s)@ + decimal(n as nat),
    decreases n,
{
    if n >= 10 {
        push_decimal(s, n / 10);
    }
    let d: u8 = (n % 10) as u8;
    let c = (48u8 + d) as char;
    s.push(c);
    assert(decimal(n as nat) =~= if n < 10 {
        seq![digit_char(n as nat)]
    } else {
        decimal((n / 10) as nat).push(digit_char((n % 10) as nat))
    });
}

/// The decimal representation of `n`.
pub fn decimal_string(n: u64) -> (s: String)
    ensures
        s@ == decimal(n as nat),
{
    let mut s = String::new();
    push_decimal(&mut s, n);
    assert(s@ =~= decimal(n as nat));
    s
}

/// The first index at or after `i` holding `c` (the length when there is none).
pub open spec fn next_char(s: Seq<char>, c: char, i: int) -> int
    decreases s.len() - i,
{
    if i >= s.len() {
        s.len() as int
    } else if s[i] == c {
        i
    } else {
        next_char(s, c, i + 1)
    }
}

pub proof fn lemma_next_char_bounds(s: Seq<char>, c: char, i: int)
    requires
        0 <= i <= s.len(),
    ensures
        i <= next_char(s, c, i) <= s.len(),
        forall|k: int| i <= k < next_char(s, c, i) ==> #[trigger] s[k] != c,
        next_char(s, c, i) < s.len() ==> s[next_char(s, c, i)] == c,
    decreases s.len() - i,
{
    if i < s.len() && s[i] != c {
        lemma_next_char_bounds(s, c, i + 1);
    }
}

/// The pieces of `s[i..]` between occurrences of `c`.
pub open spec fn split_char_from(s: Seq<char>, c: char, i: int) -> Seq<Seq<char>>
    decreases s.len() + 1 - i,
{
    if i < 0 || i > s.len() {
        Seq::empty()
    } else {
        let e = next_char(s, c, i);
        if e >= s.len() || e < i {
            seq![s.subrange(i, s.len() as int)]
        } else {
            seq![s.subrange(i, e)] + split_char_from(s, c, e + 1)
        }
    }
}

/// The pieces of `s` between occurrences of `c` (`str::split` with a char).
pub open spec fn split_char(s: Seq<char>, c: char) -> Seq<Seq<char>> {
    split_char_from(s, c, 0)
}

/// The index of the first `c` in `v[from..]`, or the length.
pub fn find_char_from(v: &Vec<char>, c: char, from: usize) -> (r: usize)
    requires
        from <= v@.len(),
    ensures
        r == next_char(v@, c, from as int),
{
    proof {
        lemma_next_char_bounds(v@, c, from as int);
    }
    let mut i = from;
    while i < v.len() && v[i] != c
        invariant
            from <= i <= v@.len(),
            next_char(v@, c, i as int) == next_char(v@, c, from as int),
        decreases v@.len() - i,
    {
        i += 1;
    }
    i
}


/// Calls `String::from_utf8`: the bytes decoded as UTF-8 text, or `None`
/// when they are not valid UTF-8.
#[verifier::external_body]
pub(crate) fn utf8_to_string(bytes: &Vec<u8>) -> (r: Option<String>)
    ensures
        r is Some <==> vstd::utf8::valid_utf8(bytes@),
        r matches Some(s) ==> s@ == vstd::utf8::decode_utf8(bytes@),
{
    String::from_utf8(bytes.clone()).ok()
}

/// Whether `c` occurs in `v`.
pub fn has_char(v: &Vec<char>, c: char) -> (r: bool)
    ensures
        r == v@.contains(c),
{
    let mut i: usize = 0;
    while i < v.len()
        invariant
            i <= v@.len(),
            forall|k: int| 0 <= k < i ==> v@[k] != c,
        decreases v@.len() - i,
    {
        if v[i] == c {
            return true;
        }
        i += 1;
    }
    false
}

/// A string holding the characters of the literal `s`.
pub fn lit(s: &str) -> (r: String)
    ensures
        r@ == s@,
{
    String::from_str(s)
}


// ---------------------------------------------------------------------------
// Lines and whitespace-separated words
// ---------------------------------------------------------------------------

/// The lines of `s[i..]`, as `str::lines` splits them: at `\n`, dropping a
/// `\r` right before it; a final line ending adds no empty line.
pub open spec fn lines_from(s: Seq<char>, i: int) -> Seq<Seq<char>>
    decreases s.len() + 1 - i,
{
    if i < 0 || i >= s.len() {
        Seq::empty()
    } else {
        let e = next_char(s, '\n', i);
        if e >= s.len() || e < i {
            seq![s.subrange(i, s.len() as int)]
        } else {
            let line = if e > i && s[e - 1] == '\r' {
                s.subrange(i, e - 1)
            } else {
                s.subrange(i, e)
            };
            seq![line] + lines_from(s, e + 1)
        }
    }
}

pub open spec fn lines(s: Seq<char>) -> Seq<Seq<char>> {
    lines_from(s, 0)
}

/// The whitespace-separated words of `s[i..]` (`str::split_whitespace`).
pub open spec fn words_from(s: Seq<char>, i: int) -> Seq<Seq<char>>
    decreases s.len() + 1 - i,
{
    if i < 0 || i > s.len() {
        Seq::empty()
    } else {
        let a = skip_ws(s, i);
        if a >= s.len() || a < i {
            Seq::empty()
        } else {
            let b = skip_non_ws(s, a);
            if b <= a || b > s.len() {
                Seq::empty()
            } else {
                seq![s.subrange(a, b)] + words_from(s, b)
            }
        }
    }
}

pub open spec fn words(s: Seq<char>) -> Seq<Seq<char>> {
    words_from(s, 0)
}

/// The whitespace-separated words of `s`, each as its own string.
pub fn split_whitespace_values(s: &str) -> (r: Vec<String>)
    ensures
        strs(r@) == words(s@),
{
    let v = chars_of(s);
    let mut out: Vec<String> = Vec::new();
    let mut i: usize = 0;
    loop
        invariant
            i <= v@.len(),
            v@ == s@,
            strs(out@) + words_from(v@, i as int) == words(v@),
        decreases v@.len() - i,
    {
        proof {
            lemma_skip_ws_bounds(v@, i as int);
        }
        let mut a = i;
        while a < v.len() && is_whitespace(v[a])
            invariant
                i <= a <= v@.len(),
                skip_ws(v@, a as int) == skip_ws(v@, i as int),
            decreases v@.len() - a,
        {
            a += 1;
        }
        if a == v.len() {
            assert(words_from(v@, i as int) =~= Seq::<Seq<char>>::empty());
            assert(strs(out@) =~= words(v@));
            return out;
        }
        proof {
            lemma_skip_non_ws_bounds(v@, a as int);
        }
        let mut b = a;
        while b < v.len() && !is_whitespace(v[b])
            invariant
                a <= b <= v@.len(),
                skip_non_ws(v@, b as int) == skip_non_ws(v@, a as int),
            decreases v@.len() - b,
        {
            b += 1;
        }
        let ghost prev = strs(out@);
        out.push(string_from_range(&v, a, b));
        proof {
            assert(strs(out@) =~= prev.push(v@.subrange(a as int, b as int)));
            assert(words_from(v@, i as int) =~= seq![v@.subrange(a as int, b as int)]
                + words_from(v@, b as int));
            assert(strs(out@) + words_from(v@, b as int) =~= prev + words_from(v@, i as int));
        }
        i = b;
    }
}

/// The lines of `v`, each as a character vector.
pub fn lines_of(v: &Vec<char>) -> (r: Vec<Vec<char>>)
    ensures
        r@.map_values(|l: Vec<char>| l@) == lines(v@),
{
    let mut out: Vec<Vec<char>> = Vec::new();
    let mut i: usize = 0;
    loop
        invariant
            i <= v@.len(),
            out@.map_values(|l: Vec<char>| l@) + lines_from(v@, i as int) == lines(v@),
        decreases v@.len() - i,
    {
        if i == v.len() {
            assert(lines_from(v@, i as int) =~= Seq::<Seq<char>>::empty());
            assert(out@.map_values(|l: Vec<char>| l@) =~= lines(v@));
            return out;
        }
        let e = find_char_from(v, '\n', i);
        proof {
            lemma_next_char_bounds(v@, '\n', i as int);
        }
        let ghost prev = out@.map_values(|l: Vec<char>| l@);
        if e == v.len() {
            let line = slice_chars(v, i, e);
            out.push(line);
            proof {
                assert(out@.map_values(|l: Vec<char>| l@) =~= prev.push(line@));
                assert(lines_from(v@, i as int) =~= seq![line@]);
                assert(out@.map_values(|l: Vec<char>| l@) =~= lines(v@));
            }
            return out;
        }
        let end = if e > i && v[e - 1] == '\r' {
            e - 1
        } else {
            e
        };
        let line = slice_chars(v, i, end);
        out.push(line);
        proof {
            assert(out@.map_values(|l: Vec<char>| l@) =~= prev.push(line@));
            assert(lines_from(v@, i as int) =~= seq![line@] + lines_from(v@, e + 1));
            assert(out@.map_values(|l: Vec<char>| l@) + lines_from(v@, e + 1) =~= prev
                + lines_from(v@, i as int));
        }
        i = e + 1;
    }
}


/// `trim_start(v)` as a new vector.
pub fn trim_start_chars(v: &Vec<char>) -> (r: Vec<char>)
    ensures
        r@ == trim_start(v@),
{
    proof {
        lemma_skip_ws_bounds(v@, 0);
    }
    let mut a: usize = 0;
    while a < v.len() && is_whitespace(v[a])
        invariant
            a <= v@.len(),
            skip_ws(v@, a as int) == skip_ws(v@, 0),
        decreases v@.len() - a,
    {
        a += 1;
    }
    slice_chars(v, a, v.len())
}


// ---------------------------------------------------------------------------
// Splitting at and removing a string pattern
// ---------------------------------------------------------------------------

/// The first index `>= i` where `p` occurs in `s` (the length when none).
pub open spec fn next_occurrence(s: Seq<char>, p: Seq<char>, i: int) -> int
    decreases s.len() + 1 - i,
{
    if i < 0 || i >= s.len() {
        s.len() as int
    } else if occurs_at(s, p, i) {
        i
    } else {
        next_occurrence(s, p, i + 1)
    }
}

pub proof fn lemma_next_occurrence_bounds(s: Seq<char>, p: Seq<char>, i: int)
    requires
        0 <= i <= s.len(),
    ensures
        i <= next_occurrence(s, p, i) <= s.len(),
        next_occurrence(s, p, i) < s.len() ==> occurs_at(s, p, next_occurrence(s, p, i)),
        forall|k: int| i <= k < next_occurrence(s, p, i) ==> !occurs_at(s, p, k),
    decreases s.len() + 1 - i,
{
    if i < s.len() && !occurs_at(s, p, i) {
        lemma_next_occurrence_bounds(s, p, i + 1);
    }
}

/// The pieces of `s[i..]` between non-overlapping occurrences of a
/// non-empty `p`, found left to right (`str::split` with a string pattern).
pub open spec fn split_str_from(s: Seq<char>, p: Seq<char>, i: int) -> Seq<Seq<char>>
    decreases s.len() + 1 - i,
{
    if i < 0 || i > s.len() || p.len() == 0 {
        Seq::empty()
    } else {
        let e = next_occurrence(s, p, i);
        if e >= s.len() || e < i || e + p.len() > s.len() {
            seq![s.subrange(i, s.len() as int)]
        } else {
            seq![s.subrange(i, e)] + split_str_from(s, p, e + p.len())
        }
    }
}

pub open spec fn split_str(s: Seq<char>, p: Seq<char>) -> Seq<Seq<char>> {
    split_str_from(s, p, 0)
}

/// `s[i..]` with every non-overlapping occurrence of a non-empty `p`,
/// found left to right, removed (`str::replace(p, "")`).
pub open spec fn remove_from(s: Seq<char>, p: Seq<char>, i: int) -> Seq<char>
    decreases s.len() + 1 - i,
{
    if i < 0 || i >= s.len() || p.len() == 0 {
        Seq::empty()
    } else if occurs_at(s, p, i) {
        remove_from(s, p, i + p.len())
    } else {
        seq![s[i]] + remove_from(s, p, i + 1)
    }
}

pub open spec fn remove_all(s: Seq<char>, p: Seq<char>) -> Seq<char> {
    if p.len() == 0 {
        s
    } else {
        remove_from(s, p, 0)
    }
}

/// The pieces of `v` between occurrences of a non-empty `p`.
pub fn split_on(v: &Vec<char>, p: &Vec<char>) -> (r: Vec<String>)
    requires
        p@.len() > 0,
    ensures
        strs(r@) == split_str(v@, p@),
        r@.len() >= 1,
{
    let mut out: Vec<String> = Vec::new();
    let mut i: usize = 0;
    loop
        invariant
            i <= v@.len(),
            p@.len() > 0,
            strs(out@) + split_str_from(v@, p@, i as int) == split_str(v@, p@),
        decreases v@.len() + 1 - i,
    {
        proof {
            lemma_next_occurrence_bounds(v@, p@, i as int);
        }
        let mut e = i;
        while e < v.len() && !occurs_at_exec(v, p, e)
            invariant
                i <= e <= v@.len(),
                next_occurrence(v@, p@, e as int) == next_occurrence(v@, p@, i as int),
            decreases v@.len() - e,
        {
            e += 1;
        }
        let ghost prev = strs(out@);
        out.push(string_from_range(v, i, e));
        if e == v.len() {
            proof {
                assert(split_str_from(v@, p@, i as int) =~= seq![v@.subrange(i as int, e as int)]);
                assert(strs(out@) =~= prev.push(v@.subrange(i as int, e as int)));
                assert(strs(out@) =~= split_str(v@, p@));
            }
            return out;
        }
        proof {
            assert(strs(out@) =~= prev.push(v@.subrange(i as int, e as int)));
            assert(split_str_from(v@, p@, i as int) =~= seq![v@.subrange(i as int, e as int)]
                + split_str_from(v@, p@, e + p@.len()));
            assert(strs(out@) + split_str_from(v@, p@, e + p@.len()) =~= prev + split_str_from(
                v@,
                p@,
                i as int,
            ));
        }
        i = e + p.len();
    }
}

/// `v` with every non-overlapping occurrence of a non-empty `p` removed.
pub fn remove_pattern(v: &Vec<char>, p: &Vec<char>) -> (r: Vec<char>)
    requires
        p@.len() > 0,
    ensures
        r@ == remove_all(v@, p@),
{
    let mut out: Vec<char> = Vec::new();
    let mut i: usize = 0;
    while i < v.len()
        invariant
            i <= v@.len(),
            p@.len() > 0,
            out@ + remove_from(v@, p@, i as int) == remove_all(v@, p@),
        decreases v@.len() - i,
    {
        if occurs_at_exec(v, p, i) {
            i = i + p.len();
        } else {
            let ghost prev = out@;
            out.push(v[i]);
            assert(out@ + remove_from(v@, p@, i + 1) =~= prev + remove_from(v@, p@, i as int));
            i += 1;
        }
    }
    assert(remove_from(v@, p@, i as int) =~= Seq::<char>::empty());
    assert(out@ =~= remove_all(v@, p@));
    out
}

} // verus!
