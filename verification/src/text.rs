//! Character-level text primitives shared by every module: the mathematical
//! meaning of `trim`, `lines`, `find`, prefixes and suffixes over `Seq<char>`,
//! and executable versions proved against them.

use vstd::prelude::*;

verus! {

broadcast use vstd::string::group_string_axioms;

// ---------------------------------------------------------------------------
// Specifications
// ---------------------------------------------------------------------------

/// Unicode `White_Space`, the set `char::is_whitespace` and `str::trim` use.
pub open spec fn is_ws(c: char) -> bool {
    let n = c as int;
    ||| (9 <= n <= 13)
    ||| n == 32
    ||| n == 0x85
    ||| n == 0xA0
    ||| n == 0x1680
    ||| (0x2000 <= n <= 0x200A)
    ||| n == 0x2028
    ||| n == 0x2029
    ||| n == 0x202F
    ||| n == 0x205F
    ||| n == 0x3000
}

pub open spec fn is_ascii_digit(c: char) -> bool {
    '0' <= c <= '9'
}

pub open spec fn is_ascii_lower(c: char) -> bool {
    'a' <= c <= 'z'
}

pub open spec fn is_ascii_upper(c: char) -> bool {
    'A' <= c <= 'Z'
}

pub open spec fn is_ascii_alnum(c: char) -> bool {
    is_ascii_digit(c) || is_ascii_lower(c) || is_ascii_upper(c)
}

/// `s` with its leading whitespace removed.
pub open spec fn trim_start(s: Seq<char>) -> Seq<char>
    decreases s.len(),
{
    if s.len() > 0 && is_ws(s[0]) {
        trim_start(s.drop_first())
    } else {
        s
    }
}

/// `s` with its trailing whitespace removed.
pub open spec fn trim_end(s: Seq<char>) -> Seq<char>
    decreases s.len(),
{
    if s.len() > 0 && is_ws(s.last()) {
        trim_end(s.drop_last())
    } else {
        s
    }
}

pub open spec fn trim(s: Seq<char>) -> Seq<char> {
    trim_end(trim_start(s))
}

pub open spec fn starts_with(s: Seq<char>, p: Seq<char>) -> bool {
    p.len() <= s.len() && s.subrange(0, p.len() as int) == p
}

pub open spec fn ends_with(s: Seq<char>, p: Seq<char>) -> bool {
    p.len() <= s.len() && s.subrange(s.len() - p.len(), s.len() as int) == p
}

/// `p` occurs in `s` starting at `i`.
pub open spec fn is_at(s: Seq<char>, p: Seq<char>, i: int) -> bool {
    0 <= i && i + p.len() <= s.len() && s.subrange(i, i + p.len()) == p
}

pub open spec fn contains(s: Seq<char>, p: Seq<char>) -> bool {
    exists|i: int| is_at(s, p, i)
}

/// The first occurrence of `p` in `s` at or after `i`.
pub open spec fn find_from(s: Seq<char>, p: Seq<char>, i: nat) -> Option<nat>
    decreases s.len() + 1 - i,
{
    if i + p.len() > s.len() {
        None
    } else if is_at(s, p, i as int) {
        Some(i)
    } else {
        find_from(s, p, i + 1)
    }
}

/// `str::find`: the first occurrence of `p` in `s`.
pub open spec fn find(s: Seq<char>, p: Seq<char>) -> Option<nat> {
    find_from(s, p, 0)
}

/// The index of the first `c` in `s`, or `s.len()` when there is none.
pub open spec fn idx_of(s: Seq<char>, c: char) -> nat
    decreases s.len(),
{
    if s.len() == 0 {
        0
    } else if s[0] == c {
        0
    } else {
        1 + idx_of(s.drop_first(), c)
    }
}

/// A line as `str::lines` yields it: the `\r` of a `\r\n` ending removed.
pub open spec fn strip_cr(l: Seq<char>) -> Seq<char> {
    if l.len() > 0 && l.last() == '\r' {
        l.drop_last()
    } else {
        l
    }
}

/// `str::lines`: split at `\n`, each `\r\n` ending removed, no empty final
/// line after a final newline.
pub open spec fn lines(s: Seq<char>) -> Seq<Seq<char>>
    decreases s.len(),
{
    if s.len() == 0 {
        seq![]
    } else {
        let k = idx_of(s, '\n');
        if k >= s.len() {
            seq![s]
        } else {
            seq![strip_cr(s.subrange(0, k as int))] + lines(s.skip(k as int + 1))
        }
    }
}

/// `str::split(c)`: the pieces between occurrences of `c`, empty ones kept.
pub open spec fn split_on(s: Seq<char>, c: char) -> Seq<Seq<char>>
    decreases s.len(),
{
    let k = idx_of(s, c);
    if k >= s.len() {
        seq![s]
    } else {
        seq![s.subrange(0, k as int)] + split_on(s.skip(k as int + 1), c)
    }
}

/// The decimal spelling of a natural number.
pub open spec fn decimal(n: nat) -> Seq<char>
    decreases n,
{
    if n < 10 {
        seq![digit_char(n)]
    } else {
        decimal(n / 10).push(digit_char(n % 10))
    }
}

pub open spec fn digit_char(d: nat) -> char {
    if d == 0 { '0' }
    else if d == 1 { '1' }
    else if d == 2 { '2' }
    else if d == 3 { '3' }
    else if d == 4 { '4' }
    else if d == 5 { '5' }
    else if d == 6 { '6' }
    else if d == 7 { '7' }
    else if d == 8 { '8' }
    else { '9' }
}

/// `str::trim_start_matches`: every leading repetition of `p` removed.
pub open spec fn strip_all_prefix(s: Seq<char>, p: Seq<char>) -> Seq<char>
    decreases s.len(),
{
    if p.len() > 0 && starts_with(s, p) {
        strip_all_prefix(s.skip(p.len() as int), p)
    } else {
        s
    }
}

/// `a` joined with the relative path `b` as `Path::join` does.
pub open spec fn path_join(a: Seq<char>, b: Seq<char>) -> Seq<char> {
    if a.len() == 0 {
        b
    } else if a.last() == '/' {
        a + b
    } else {
        a + seq!['/'] + b
    }
}

/// The character sequences a vector of character vectors holds.
pub open spec fn views(v: Seq<Vec<char>>) -> Seq<Seq<char>> {
    v.map_values(|x: Vec<char>| x@)
}

/// Concatenation of `parts` with `sep` between each adjacent pair.
pub open spec fn join(parts: Seq<Seq<char>>, sep: Seq<char>) -> Seq<char>
    decreases parts.len(),
{
    if parts.len() == 0 {
        seq![]
    } else if parts.len() == 1 {
        parts[0]
    } else {
        join(parts.drop_last(), sep) + sep + parts.last()
    }
}

/// The texts of a list of strings.
pub open spec fn strs(v: Seq<String>) -> Seq<Seq<char>> {
    v.map_values(|s: String| s@)
}

/// Lexicographic order by code point, the order of `String`'s `Ord`.
pub open spec fn lex_lt(a: Seq<char>, b: Seq<char>) -> bool
    decreases a.len(),
{
    if a.len() == 0 {
        b.len() > 0
    } else if b.len() == 0 {
        false
    } else if a[0] != b[0] {
        a[0] < b[0]
    } else {
        lex_lt(a.drop_first(), b.drop_first())
    }
}

/// Strictly increasing in `lex_lt`: sorted, and no entry twice.
pub open spec fn sorted_unique(s: Seq<Seq<char>>) -> bool {
    forall|i: int, j: int| 0 <= i < j < s.len() ==> lex_lt(#[trigger] s[i], #[trigger] s[j])
}

// ---------------------------------------------------------------------------
// Lemmas
// ---------------------------------------------------------------------------

pub proof fn lemma_lex_irreflexive(a: Seq<char>)
    ensures
        !lex_lt(a, a),
    decreases a.len(),
{
    if a.len() > 0 {
        lemma_lex_irreflexive(a.drop_first());
    }
}

pub proof fn lemma_lex_transitive(a: Seq<char>, b: Seq<char>, c: Seq<char>)
    requires
        lex_lt(a, b),
        lex_lt(b, c),
    ensures
        lex_lt(a, c),
    decreases a.len(),
{
    if a.len() > 0 && b.len() > 0 && c.len() > 0 && a[0] == b[0] && b[0] == c[0] {
        lemma_lex_transitive(a.drop_first(), b.drop_first(), c.drop_first());
    }
}

pub proof fn lemma_lex_total(a: Seq<char>, b: Seq<char>)
    ensures
        a != b ==> lex_lt(a, b) || lex_lt(b, a),
        !(lex_lt(a, b) && lex_lt(b, a)),
    decreases a.len(),
{
    if a.len() > 0 && b.len() > 0 && a[0] == b[0] {
        lemma_lex_total(a.drop_first(), b.drop_first());
        if a != b {
            assert(a =~= seq![a[0]] + a.drop_first());
            assert(b =~= seq![b[0]] + b.drop_first());
        }
    } else if a.len() == 0 && b.len() == 0 {
        assert(a =~= b);
    }
}

proof fn lemma_lex_skip(a: Seq<char>, b: Seq<char>, i: int)
    requires
        0 <= i <= a.len(),
        i <= b.len(),
        forall|j: int| 0 <= j < i ==> a[j] == b[j],
    ensures
        lex_lt(a, b) == lex_lt(a.skip(i), b.skip(i)),
    decreases i,
{
    if i > 0 {
        lemma_lex_skip(a.drop_first(), b.drop_first(), i - 1);
        assert(a.drop_first().skip(i - 1) =~= a.skip(i));
        assert(b.drop_first().skip(i - 1) =~= b.skip(i));
    } else {
        assert(a.skip(0) =~= a);
        assert(b.skip(0) =~= b);
    }
}

pub proof fn lemma_idx_of_bounds(s: Seq<char>, c: char)
    ensures
        idx_of(s, c) <= s.len(),
        idx_of(s, c) < s.len() ==> s[idx_of(s, c) as int] == c,
        forall|j: int| 0 <= j < idx_of(s, c) ==> s[j] != c,
    decreases s.len(),
{
    if s.len() > 0 && s[0] != c {
        lemma_idx_of_bounds(s.drop_first(), c);
        assert forall|j: int| 0 <= j < idx_of(s, c) implies s[j] != c by {
            if j > 0 {
                assert(s[j] == s.drop_first()[j - 1]);
            }
        }
    }
}

/// `idx_of` is characterized by its first-occurrence property.
pub proof fn lemma_idx_of_char(s: Seq<char>, c: char, k: int)
    requires
        0 <= k <= s.len(),
        k < s.len() ==> s[k] == c,
        forall|j: int| 0 <= j < k ==> s[j] != c,
    ensures
        idx_of(s, c) == k,
    decreases s.len(),
{
    if s.len() > 0 && s[0] != c {
        lemma_idx_of_char(s.drop_first(), c, k - 1);
    }
}

pub proof fn lemma_find_from_char(s: Seq<char>, p: Seq<char>, i: nat, k: int)
    requires
        i <= k,
        forall|j: int| i <= j < k ==> !is_at(s, p, j),
        k + p.len() > s.len() || is_at(s, p, k),
    ensures
        find_from(s, p, i) == (if k + p.len() > s.len() { None::<nat> } else { Some(k as nat) }),
    decreases k - i,
{
    if i + p.len() > s.len() {
    } else if is_at(s, p, i as int) {
    } else {
        lemma_find_from_char(s, p, i + 1, k);
    }
}

pub proof fn lemma_find_from_props(s: Seq<char>, p: Seq<char>, i: nat)
    ensures
        find_from(s, p, i) matches Some(k) ==> i <= k && is_at(s, p, k as int) && (forall|j: int|
            i <= j < k ==> !is_at(s, p, j)),
        find_from(s, p, i) is None ==> forall|j: int| i <= j ==> !is_at(s, p, j),
    decreases s.len() + 1 - i,
{
    if i + p.len() > s.len() {
    } else if is_at(s, p, i as int) {
    } else {
        lemma_find_from_props(s, p, i + 1);
    }
}

pub proof fn lemma_lines_step(s: Seq<char>, k: int)
    requires
        0 <= k < s.len(),
        s[k] == '\n',
        forall|j: int| 0 <= j < k ==> s[j] != '\n',
    ensures
        lines(s) == seq![strip_cr(s.subrange(0, k))] + lines(s.skip(k + 1)),
{
    lemma_idx_of_char(s, '\n', k);
}

pub proof fn lemma_lines_last(s: Seq<char>)
    requires
        s.len() > 0,
        forall|j: int| 0 <= j < s.len() ==> s[j] != '\n',
    ensures
        lines(s) == seq![s],
{
    lemma_idx_of_char(s, '\n', s.len() as int);
}

// ---------------------------------------------------------------------------
// Trusted edges of std
// ---------------------------------------------------------------------------

/// `String::push`: appends one character. Its documentation says exactly
/// this: the string afterwards is the old one followed by `c`.
#[verifier::external_body]
pub(crate) fn push_char(s: &mut String, c: char)
    ensures
        final(s)@ == old(s)@.push(c),
{
    s.push(c);
}

/// What std's `Debug` renders for a string slice: the text in double quotes
/// with escapes. Its exact escaping rests on Unicode tables; it is a function
/// of the text alone.
pub uninterp spec fn debug_str(s: Seq<char>) -> Seq<char>;

/// `<str as Debug>::fmt`, through `format!("{:?}")`. Claimed: the result is
/// `debug_str` of the argument, and nothing else about it.
#[verifier::external_body]
pub(crate) fn debug_quoted(s: &str) -> (r: String)
    ensures
        r@ == debug_str(s@),
{
    format!("{s:?}")
}

// ---------------------------------------------------------------------------
// Executable primitives
// ---------------------------------------------------------------------------

/// The characters of `s`.
pub fn chars_of(s: &str) -> (v: Vec<char>)
    ensures
        v@ == s@,
{
    let mut v: Vec<char> = Vec::new();
    for c in it: s.chars()
        invariant
            v@ == it.seq().take(it.index() as int),
            it.seq() == s@,
    {
        v.push(c);
    }
    v
}

/// A `String` holding exactly `v`.
pub fn string_of(v: &Vec<char>) -> (s: String)
    ensures
        s@ == v@,
{
    let mut s = String::new();
    let mut i: usize = 0;
    while i < v.len()
        invariant
            i <= v.len(),
            s@ == v@.take(i as int),
        decreases v.len() - i,
    {
        push_char(&mut s, v[i]);
        assert(v@.take(i + 1) == v@.take(i as int).push(v@[i as int]));
        i = i + 1;
    }
    assert(v@.take(v.len() as int) == v@);
    s
}

/// Append `v[lo..hi]` to `out`.
pub fn push_range(out: &mut Vec<char>, v: &Vec<char>, lo: usize, hi: usize)
    requires
        lo <= hi <= v.len(),
    ensures
        final(out)@ == old(out)@ + v@.subrange(lo as int, hi as int),
{
    let mut i = lo;
    while i < hi
        invariant
            lo <= i <= hi <= v.len(),
            out@ == old(out)@ + v@.subrange(lo as int, i as int),
        decreases hi - i,
    {
        out.push(v[i]);
        assert(v@.subrange(lo as int, i + 1) == v@.subrange(lo as int, i as int).push(
            v@[i as int],
        ));
        i = i + 1;
    }
}

/// Append all of `v` to `out`.
pub fn push_all(out: &mut Vec<char>, v: &Vec<char>)
    ensures
        final(out)@ == old(out)@ + v@,
{
    push_range(out, v, 0, v.len());
    assert(v@.subrange(0, v@.len() as int) == v@);
}

/// Append the characters of a string slice to `out`.
pub fn push_str(out: &mut Vec<char>, s: &str)
    ensures
        final(out)@ == old(out)@ + s@,
{
    let v = chars_of(s);
    push_all(out, &v);
}

/// `v[lo..hi]` as a fresh vector.
pub fn slice_of(v: &Vec<char>, lo: usize, hi: usize) -> (r: Vec<char>)
    requires
        lo <= hi <= v.len(),
    ensures
        r@ == v@.subrange(lo as int, hi as int),
{
    let mut r = Vec::new();
    push_range(&mut r, v, lo, hi);
    r
}

pub fn is_ws_char(c: char) -> (b: bool)
    ensures
        b == is_ws(c),
{
    let n = c as u32;
    (9 <= n && n <= 13) || n == 32 || n == 0x85 || n == 0xA0 || n == 0x1680 || (0x2000 <= n
        && n <= 0x200A) || n == 0x2028 || n == 0x2029 || n == 0x202F || n == 0x205F || n
        == 0x3000
}

pub fn is_digit_char(c: char) -> (b: bool)
    ensures
        b == is_ascii_digit(c),
{
    '0' <= c && c <= '9'
}

pub fn is_alnum_char(c: char) -> (b: bool)
    ensures
        b == is_ascii_alnum(c),
{
    ('0' <= c && c <= '9') || ('a' <= c && c <= 'z') || ('A' <= c && c <= 'Z')
}

/// Whether `v` equals `p`.
pub fn eq_chars(v: &Vec<char>, p: &Vec<char>) -> (b: bool)
    ensures
        b == (v@ == p@),
{
    if v.len() != p.len() {
        return false;
    }
    let mut i: usize = 0;
    while i < v.len()
        invariant
            v.len() == p.len(),
            i <= v.len(),
            forall|j: int| 0 <= j < i ==> v@[j] == p@[j],
        decreases v.len() - i,
    {
        if v[i] != p[i] {
            return false;
        }
        i = i + 1;
    }
    assert(v@ == p@);
    true
}

/// Whether two string slices hold the same characters.
pub fn str_eq(a: &str, b: &str) -> (r: bool)
    ensures
        r == (a@ == b@),
{
    let x = chars_of(a);
    let y = chars_of(b);
    eq_chars(&x, &y)
}

/// Whether `p` occurs in `v` at `i`.
pub fn at(v: &Vec<char>, p: &Vec<char>, i: usize) -> (b: bool)
    ensures
        b == is_at(v@, p@, i as int),
{
    if i > v.len() || p.len() > v.len() - i {
        return false;
    }
    let mut j: usize = 0;
    while j < p.len()
        invariant
            i + p.len() <= v.len(),
            j <= p.len(),
            forall|k: int| 0 <= k < j ==> v@[i + k] == p@[k],
        decreases p.len() - j,
    {
        if v[i + j] != p[j] {
            assert(v@.subrange(i as int, i + p.len())[j as int] != p@[j as int]);
            return false;
        }
        j = j + 1;
    }
    assert(v@.subrange(i as int, i + p.len()) == p@);
    true
}

pub fn has_prefix(v: &Vec<char>, p: &Vec<char>) -> (b: bool)
    ensures
        b == starts_with(v@, p@),
{
    at(v, p, 0)
}

pub fn has_suffix(v: &Vec<char>, p: &Vec<char>) -> (b: bool)
    ensures
        b == ends_with(v@, p@),
{
    if p.len() > v.len() {
        return false;
    }
    at(v, p, v.len() - p.len())
}

/// The first occurrence of `p` in `v` at or after `from`.
pub fn find_at(v: &Vec<char>, p: &Vec<char>, from: usize) -> (r: Option<usize>)
    ensures
        r matches Some(k) ==> find_from(v@, p@, from as nat) == Some(k as nat),
        r is None ==> find_from(v@, p@, from as nat) is None,
{
    let mut i = from;
    while i <= v.len() && p.len() <= v.len() - i
        invariant
            from <= i,
            forall|j: int| from <= j < i ==> !is_at(v@, p@, j),
        decreases v.len() + 1 - i,
    {
        if at(v, p, i) {
            proof {
                lemma_find_from_char(v@, p@, from as nat, i as int);
            }
            return Some(i);
        }
        proof {
            if p@.len() == 0 {
                assert(v@.subrange(i as int, i as int) =~= p@);
            }
        }
        i = i + 1;
    }
    proof {
        lemma_find_from_char(v@, p@, from as nat, i as int);
    }
    None
}

pub fn find_in(v: &Vec<char>, p: &Vec<char>) -> (r: Option<usize>)
    ensures
        r matches Some(k) ==> find(v@, p@) == Some(k as nat),
        r is None ==> find(v@, p@) is None,
{
    find_at(v, p, 0)
}

/// Whether `p` occurs anywhere in `v`.
pub fn occurs(v: &Vec<char>, p: &Vec<char>) -> (b: bool)
    ensures
        b == contains(v@, p@),
{
    let r = find_in(v, p);
    proof {
        lemma_find_from_props(v@, p@, 0);
    }
    r.is_some()
}

/// Whether the character `c` occurs in `v`.
pub fn has_char(v: &Vec<char>, c: char) -> (b: bool)
    ensures
        b == v@.contains(c),
{
    let mut i: usize = 0;
    while i < v.len()
        invariant
            i <= v.len(),
            forall|j: int| 0 <= j < i ==> v@[j] != c,
        decreases v.len() - i,
    {
        if v[i] == c {
            return true;
        }
        i = i + 1;
    }
    false
}

proof fn lemma_trim_start_skip(s: Seq<char>, k: int)
    requires
        0 <= k <= s.len(),
        forall|j: int| 0 <= j < k ==> is_ws(s[j]),
        k < s.len() ==> !is_ws(s[k]),
    ensures
        trim_start(s) == s.skip(k),
    decreases k,
{
    if k == 0 {
        assert(s.skip(0) == s);
    } else {
        lemma_trim_start_skip(s.drop_first(), k - 1);
        assert(s.drop_first().skip(k - 1) == s.skip(k));
    }
}

proof fn lemma_trim_end_take(s: Seq<char>, k: int)
    requires
        0 <= k <= s.len(),
        forall|j: int| k <= j < s.len() ==> is_ws(s[j]),
        k > 0 ==> !is_ws(s[k - 1]),
    ensures
        trim_end(s) == s.take(k),
    decreases s.len() - k,
{
    if k == s.len() {
        assert(s.take(k) == s);
    } else {
        lemma_trim_end_take(s.drop_last(), k);
        assert(s.drop_last().take(k) == s.take(k));
    }
}

/// The bounds of `trim(v[lo..hi])` within `v`.
pub fn trim_bounds(v: &Vec<char>, lo: usize, hi: usize) -> (r: (usize, usize))
    requires
        lo <= hi <= v.len(),
    ensures
        lo <= r.0 <= r.1 <= hi,
        v@.subrange(r.0 as int, r.1 as int) == trim(v@.subrange(lo as int, hi as int)),
{
    let ghost s = v@.subrange(lo as int, hi as int);
    let mut a = lo;
    while a < hi && is_ws_char(v[a])
        invariant
            lo <= a <= hi <= v.len(),
            forall|j: int| lo <= j < a ==> is_ws(v@[j]),
        decreases hi - a,
    {
        a = a + 1;
    }
    proof {
        lemma_trim_start_skip(s, a - lo);
        assert(s.skip(a - lo) == v@.subrange(a as int, hi as int));
    }
    let mut b = hi;
    while b > a && is_ws_char(v[b - 1])
        invariant
            lo <= a <= b <= hi <= v.len(),
            forall|j: int| b <= j < hi ==> is_ws(v@[j]),
        decreases b - a,
    {
        b = b - 1;
    }
    proof {
        let t = v@.subrange(a as int, hi as int);
        lemma_trim_end_take(t, b - a);
        assert(t.take(b - a) == v@.subrange(a as int, b as int));
    }
    (a, b)
}

/// `trim(v)` as a fresh vector.
pub fn trimmed(v: &Vec<char>) -> (r: Vec<char>)
    ensures
        r@ == trim(v@),
{
    let (a, b) = trim_bounds(v, 0, v.len());
    assert(v@.subrange(0, v@.len() as int) == v@);
    slice_of(v, a, b)
}

/// `trim_start(v)` as a fresh vector.
pub fn trimmed_start(v: &Vec<char>) -> (r: Vec<char>)
    ensures
        r@ == trim_start(v@),
{
    let mut a: usize = 0;
    while a < v.len() && is_ws_char(v[a])
        invariant
            a <= v.len(),
            forall|j: int| 0 <= j < a ==> is_ws(v@[j]),
        decreases v.len() - a,
    {
        a = a + 1;
    }
    proof {
        lemma_trim_start_skip(v@, a as int);
    }
    slice_of(v, a, v.len())
}

/// `str::lines` over `v`.
pub fn lines_of(v: &Vec<char>) -> (r: Vec<Vec<char>>)
    ensures
        views(r@) == lines(v@),
{
    let mut out: Vec<Vec<char>> = Vec::new();
    let mut pos: usize = 0;
    assert(v@.skip(0) =~= v@);
    assert(views(out@) + lines(v@) =~= lines(v@));
    while pos < v.len()
        invariant
            pos <= v.len(),
            views(out@) + lines(v@.skip(pos as int)) == lines(v@),
        decreases v.len() - pos,
    {
        let ghost t = v@.skip(pos as int);
        let ghost before = views(out@);
        let mut k = pos;
        while k < v.len() && v[k] != '\n'
            invariant
                pos <= k <= v.len(),
                forall|j: int| pos <= j < k ==> v@[j] != '\n',
            decreases v.len() - k,
        {
            k = k + 1;
        }
        if k < v.len() {
            let mut end = k;
            if end > pos && v[end - 1] == '\r' {
                end = end - 1;
            }
            let line = slice_of(v, pos, end);
            proof {
                lemma_lines_step(t, k - pos);
                assert(t.subrange(0, k - pos) == v@.subrange(pos as int, k as int));
                assert(strip_cr(t.subrange(0, k - pos)) == line@);
                assert(t.skip(k - pos + 1) == v@.skip(k + 1));
            }
            out.push(line);
            proof {
                assert(views(out@) =~= before.push(line@));
                assert(before + (seq![line@] + lines(v@.skip(k + 1))) =~= before.push(line@)
                    + lines(v@.skip(k + 1)));
            }
            pos = k + 1;
        } else {
            let line = slice_of(v, pos, v.len());
            proof {
                lemma_lines_last(t);
                assert(t == line@);
                assert(v@.skip(v.len() as int) == Seq::<char>::empty());
            }
            out.push(line);
            proof {
                assert(views(out@) =~= before.push(line@));
                assert(v@.skip(v.len() as int) =~= Seq::<char>::empty());
                assert(lines(Seq::<char>::empty()) =~= Seq::<Seq<char>>::empty());
                assert(before + seq![line@] =~= before.push(line@) + lines(
                    Seq::<char>::empty(),
                ));
            }
            pos = v.len();
        }
    }
    proof {
        assert(v@.skip(v.len() as int) =~= Seq::<char>::empty());
        assert(views(out@) + lines(Seq::<char>::empty()) =~= views(out@));
    }
    out
}

/// `trim_start_matches(p)` over `v`.
pub fn strip_prefixes(v: &Vec<char>, p: &Vec<char>) -> (r: Vec<char>)
    ensures
        r@ == strip_all_prefix(v@, p@),
{
    let mut a: usize = 0;
    if p.len() == 0 {
        assert(v@.subrange(0, v@.len() as int) =~= v@);
        return slice_of(v, 0, v.len());
    }
    assert(v@.skip(0) =~= v@);
    while a <= v.len() && at(v, p, a)
        invariant
            p.len() > 0,
            a <= v.len(),
            strip_all_prefix(v@.skip(a as int), p@) == strip_all_prefix(v@, p@),
        decreases v.len() - a,
    {
        proof {
            let t = v@.skip(a as int);
            assert(t.subrange(0, p.len() as int) =~= v@.subrange(a as int, a + p.len()));
            assert(t.skip(p.len() as int) =~= v@.skip(a + p.len()));
        }
        a = a + p.len();
    }
    proof {
        let t = v@.skip(a as int);
        if p.len() <= t.len() {
            assert(t.subrange(0, p.len() as int) =~= v@.subrange(a as int, a + p.len()));
        }
    }
    slice_of(v, a, v.len())
}

/// `Path::join` of a relative path.
pub fn join_path(a: &Vec<char>, b: &Vec<char>) -> (r: Vec<char>)
    ensures
        r@ == path_join(a@, b@),
{
    let mut out = slice_of(a, 0, a.len());
    assert(a@.subrange(0, a@.len() as int) =~= a@);
    if a.len() > 0 && a[a.len() - 1] != '/' {
        out.push('/');
    }
    push_all(&mut out, b);
    out
}

/// `str::split(c)` over `v`.
pub fn split_chars(v: &Vec<char>, c: char) -> (r: Vec<Vec<char>>)
    ensures
        views(r@) == split_on(v@, c),
        r@.len() >= 1,
{
    let mut out: Vec<Vec<char>> = Vec::new();
    let mut pos: usize = 0;
    assert(v@.skip(0) =~= v@);
    assert(views(out@) + split_on(v@, c) =~= split_on(v@, c));
    loop
        invariant
            pos <= v.len(),
            views(out@) + split_on(v@.skip(pos as int), c) == split_on(v@, c),
        decreases v.len() - pos,
    {
        let ghost t = v@.skip(pos as int);
        let ghost before = views(out@);
        let mut k = pos;
        while k < v.len() && v[k] != c
            invariant
                pos <= k <= v.len(),
                forall|j: int| pos <= j < k ==> v@[j] != c,
            decreases v.len() - k,
        {
            k = k + 1;
        }
        let piece = slice_of(v, pos, k);
        proof {
            lemma_idx_of_char(t, c, k - pos);
            assert(t.subrange(0, k - pos) =~= piece@);
        }
        out.push(piece);
        proof {
            assert(views(out@) =~= before.push(piece@));
        }
        if k >= v.len() {
            proof {
                assert(t =~= piece@);
                assert(views(out@) =~= before + split_on(t, c));
            }
            return out;
        }
        proof {
            assert(t.skip(k - pos + 1) =~= v@.skip(k + 1));
            assert(before + (seq![piece@] + split_on(v@.skip(k + 1), c)) =~= before.push(piece@)
                + split_on(v@.skip(k + 1), c));
        }
        pos = k + 1;
    }
}

/// Whether `v` equals the string slice `p`.
pub fn is_str(v: &Vec<char>, p: &str) -> (r: bool)
    ensures
        r == (v@ == p@),
{
    let q = chars_of(p);
    eq_chars(v, &q)
}

/// Whether `a` sorts strictly before `b`.
pub fn lex_less(a: &Vec<char>, b: &Vec<char>) -> (r: bool)
    ensures
        r == lex_lt(a@, b@),
{
    let mut i: usize = 0;
    while i < a.len() && i < b.len() && a[i] == b[i]
        invariant
            i <= a.len(),
            i <= b.len(),
            forall|j: int| 0 <= j < i ==> a@[j] == b@[j],
        decreases a.len() - i,
    {
        i = i + 1;
    }
    proof {
        lemma_lex_skip(a@, b@, i as int);
    }
    if i == a.len() {
        i < b.len()
    } else if i == b.len() {
        false
    } else {
        let ca = a[i];
        let cb = b[i];
        proof {
            assert(a@.skip(i as int)[0] == a@[i as int]);
            assert(b@.skip(i as int)[0] == b@[i as int]);
            assert(a@.skip(i as int).len() > 0);
            assert(b@.skip(i as int).len() > 0);
            assert(ca != cb);
            assert(lex_lt(a@.skip(i as int), b@.skip(i as int)) == (ca < cb));
        }
        ca < cb
    }
}

/// Insert `x` into a strictly increasing vector, keeping it so; nothing
/// changes when `x` is already present.
pub fn insert_sorted(v: &mut Vec<Vec<char>>, x: Vec<char>)
    requires
        sorted_unique(views(old(v)@)),
    ensures
        sorted_unique(views(final(v)@)),
        forall|y: Seq<char>|
            views(final(v)@).contains(y) <==> (views(old(v)@).contains(y) || y == x@),
{
    let ghost old_views = views(v@);
    let mut i: usize = 0;
    while i < v.len() && lex_less(&v[i], &x)
        invariant
            v@ == old(v)@,
            i <= v.len(),
            forall|j: int| 0 <= j < i ==> lex_lt(#[trigger] views(v@)[j], x@),
        decreases v.len() - i,
    {
        i = i + 1;
    }
    if i < v.len() && eq_chars(&v[i], &x) {
        proof {
            assert(views(v@)[i as int] == x@);
            assert forall|y: Seq<char>|
                views(v@).contains(y) <==> (old_views.contains(y) || y == x@) by {
                if y == x@ {
                    assert(views(v@)[i as int] == y);
                }
            }
        }
        return;
    }
    proof {
        if i < v.len() {
            lemma_lex_total(v@[i as int]@, x@);
            assert(lex_lt(x@, views(v@)[i as int]));
        }
    }
    v.insert(i, x);
    proof {
        let nv = views(v@);
        assert(nv =~= old_views.insert(i as int, x@));
        assert forall|a: int, b: int| 0 <= a < b < nv.len() implies lex_lt(
            #[trigger] nv[a],
            #[trigger] nv[b],
        ) by {
            if b < i {
            } else if a < i && b == i {
            } else if a < i && b > i {
                assert(nv[b] == old_views[b - 1]);
                if b - 1 > i {
                    lemma_lex_transitive(x@, old_views[i as int], old_views[b - 1]);
                }
                lemma_lex_transitive(nv[a], x@, nv[b]);
            } else if a == i {
                assert(nv[b] == old_views[b - 1]);
                if b - 1 > i {
                    lemma_lex_transitive(x@, old_views[i as int], old_views[b - 1]);
                }
            } else {
                assert(nv[a] == old_views[a - 1]);
                assert(nv[b] == old_views[b - 1]);
            }
        }
        assert forall|y: Seq<char>| nv.contains(y) <==> (old_views.contains(y) || y == x@) by {
            if nv.contains(y) {
                let k = choose|k: int| 0 <= k < nv.len() && nv[k] == y;
                if k < i {
                    assert(old_views[k] == y);
                } else if k > i {
                    assert(old_views[k - 1] == y);
                }
            }
            if old_views.contains(y) {
                let k = choose|k: int| 0 <= k < old_views.len() && old_views[k] == y;
                if k < i {
                    assert(nv[k] == y);
                } else {
                    assert(nv[k + 1] == y);
                }
            }
            if y == x@ {
                assert(nv[i as int] == y);
            }
        }
    }
}

/// Whether `v` starts with the literal `p`.
pub fn starts_lit(v: &Vec<char>, p: &str) -> (r: bool)
    ensures
        r == starts_with(v@, p@),
{
    let q = chars_of(p);
    has_prefix(v, &q)
}

/// Whether `v` ends with the literal `p`.
pub fn ends_lit(v: &Vec<char>, p: &str) -> (r: bool)
    ensures
        r == ends_with(v@, p@),
{
    let q = chars_of(p);
    has_suffix(v, &q)
}

/// Whether the literal `p` occurs in `v`.
pub fn contains_lit(v: &Vec<char>, p: &str) -> (r: bool)
    ensures
        r == contains(v@, p@),
{
    let q = chars_of(p);
    occurs(v, &q)
}

/// The decimal spelling of `n`.
pub fn decimal_of(n: u64) -> (r: Vec<char>)
    ensures
        r@ == decimal(n as nat),
    decreases n,
{
    let d = n % 10;
    let c = if d == 0 { '0' }
        else if d == 1 { '1' }
        else if d == 2 { '2' }
        else if d == 3 { '3' }
        else if d == 4 { '4' }
        else if d == 5 { '5' }
        else if d == 6 { '6' }
        else if d == 7 { '7' }
        else if d == 8 { '8' }
        else { '9' };
    if n < 10 {
        vec![c]
    } else {
        let mut r = decimal_of(n / 10);
        r.push(c);
        r
    }
}

/// Append the decimal spelling of `n` to `out`.
pub fn push_decimal(out: &mut Vec<char>, n: u64)
    ensures
        final(out)@ == old(out)@ + decimal(n as nat),
{
    let d = decimal_of(n);
    push_all(out, &d);
}


/// Append the first `n` of `parts`, with `sep` between adjacent ones.
pub fn push_join(out: &mut Vec<char>, parts: &Vec<Vec<char>>, n: usize, sep: &str)
    requires
        n <= parts.len(),
    ensures
        final(out)@ == old(out)@ + join(views(parts@).take(n as int), sep@),
{
    let mut i: usize = 0;
    while i < n
        invariant
            i <= n <= parts.len(),
            out@ == old(out)@ + join(views(parts@).take(i as int), sep@),
        decreases n - i,
    {
        let ghost before = out@;
        let ghost ps = views(parts@);
        if i > 0 {
            push_str(out, sep);
        }
        push_all(out, &parts[i]);
        proof {
            assert(ps.take(i + 1).drop_last() =~= ps.take(i as int));
            assert(ps.take(i + 1).last() == parts@[i as int]@);
            if i == 0 {
                assert(ps.take(1).len() == 1);
                assert(join(ps.take(1), sep@) == ps.take(1)[0]);
                assert(before == old(out)@ + join(ps.take(0), sep@));
                assert(join(ps.take(0), sep@) =~= seq![]);
                assert(out@ =~= old(out)@ + join(ps.take(1), sep@));
            } else {
                assert(join(ps.take(i + 1), sep@) == join(ps.take(i as int), sep@) + sep@
                    + parts@[i as int]@);
                assert(out@ =~= old(out)@ + join(ps.take(i + 1), sep@));
            }
        }
        i = i + 1;
    }
}

} // verus!
