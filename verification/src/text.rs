//! Character-level text utilities with exact specifications.
//!
//! Text is handled as sequences of `char`.  Each executable helper here is
//! proved against a spec function that states what it computes; the spec
//! functions follow the documented behaviour of the corresponding `str`
//! operations (`trim`, `lines`, `split`, `parse::<u32>`, ...).
use vstd::prelude::*;

verus! {

// ───────────────────────────── conversions ─────────────────────────────

/// Appends one character to a `String` (`String::push`).
#[verifier::external_body]
pub(crate) fn push_char(s: &mut String, c: char)
    ensures
        final(s)@ == old(s)@.push(c),
{
    s.push(c);
}

/// The characters of a string slice, in order.
pub fn chars_of(s: &str) -> (r: Vec<char>)
    ensures
        r@ == s@,
{
    let mut r: Vec<char> = Vec::new();
    for c in it: s.chars()
        invariant
            r@ == it.seq().take(it.index() as int),
            it.seq() == s@,
    {
        r.push(c);
    }
    r
}

/// Builds a `String` from a sequence of characters.
pub fn string_of(v: &[char]) -> (r: String)
    ensures
        r@ == v@,
{
    let mut r = String::new();
    let mut i: usize = 0;
    while i < v.len()
        invariant
            i <= v.len(),
            r@ == v@.take(i as int),
        decreases v.len() - i,
    {
        push_char(&mut r, v[i]);
        assert(v@.take(i as int).push(v@[i as int]) =~= v@.take(i + 1));
        i += 1;
    }
    assert(v@.take(v.len() as int) =~= v@);
    r
}

/// Appends the characters of `v` to `s`.
pub fn append_chars(s: &mut String, v: &[char])
    ensures
        final(s)@ == old(s)@ + v@,
{
    let mut i: usize = 0;
    while i < v.len()
        invariant
            i <= v.len(),
            s@ == old(s)@ + v@.take(i as int),
        decreases v.len() - i,
    {
        push_char(s, v[i]);
        assert(old(s)@ + v@.take(i as int).push(v@[i as int]) =~= old(s)@ + v@.take(i + 1));
        i += 1;
    }
    assert(v@.take(v.len() as int) =~= v@);
}

/// Appends the characters of `s` to `v`.
pub fn extend_chars(v: &mut Vec<char>, s: &[char])
    ensures
        final(v)@ == old(v)@ + s@,
{
    let mut j: usize = 0;
    while j < s.len()
        invariant
            j <= s.len(),
            v@ == old(v)@ + s@.take(j as int),
        decreases s.len() - j,
    {
        v.push(s[j]);
        assert(old(v)@ + s@.take(j + 1) =~= (old(v)@ + s@.take(j as int)).push(s@[j as int]));
        j += 1;
    }
    assert(s@.take(j as int) =~= s@);
}

/// Copies `v[a..b]`.
pub fn slice_of(v: &[char], a: usize, b: usize) -> (r: Vec<char>)
    requires
        a <= b <= v.len(),
    ensures
        r@ == v@.subrange(a as int, b as int),
{
    let mut r: Vec<char> = Vec::new();
    let mut i: usize = a;
    while i < b
        invariant
            a <= i <= b <= v.len(),
            r@ == v@.subrange(a as int, i as int),
        decreases b - i,
    {
        r.push(v[i]);
        assert(v@.subrange(a as int, i as int).push(v@[i as int]) =~= v@.subrange(
            a as int,
            i + 1,
        ));
        i += 1;
    }
    r
}

/// Copies a whole slice.
pub fn copy(v: &[char]) -> (r: Vec<char>)
    ensures
        r@ == v@,
{
    let r = slice_of(v, 0, v.len());
    assert(v@.subrange(0, v@.len() as int) =~= v@);
    r
}

/// Character-wise equality of two slices.
pub fn eq(a: &[char], b: &[char]) -> (r: bool)
    ensures
        r == (a@ == b@),
{
    if a.len() != b.len() {
        return false;
    }
    let mut i: usize = 0;
    while i < a.len()
        invariant
            i <= a.len() == b.len(),
            forall|j: int| 0 <= j < i ==> a@[j] == b@[j],
        decreases a.len() - i,
    {
        if a[i] != b[i] {
            return false;
        }
        i += 1;
    }
    assert(a@ =~= b@);
    true
}

/// Whether a string slice is exactly `lit`.
pub fn str_is(s: &str, lit: &str) -> (r: bool)
    ensures
        r == (s@ == lit@),
{
    let a = chars_of(s);
    let b = chars_of(lit);
    eq(&a, &b)
}

/// Whether an optional string is present and exactly `lit`.
pub fn opt_is(s: &Option<String>, lit: &str) -> (r: bool)
    ensures
        r == (s matches Some(x) && x@ == lit@),
{
    match s {
        Some(x) => str_is(x.as_str(), lit),
        None => false,
    }
}

// ───────────────────────────── whitespace ──────────────────────────────

/// Unicode `White_Space`, the property that `char::is_whitespace` tests.
pub open spec fn is_ws(c: char) -> bool {
    ||| ('\u{9}' <= c && c <= '\u{d}')
    ||| c == ' '
    ||| c == '\u{85}'
    ||| c == '\u{a0}'
    ||| c == '\u{1680}'
    ||| ('\u{2000}' <= c && c <= '\u{200a}')
    ||| c == '\u{2028}'
    ||| c == '\u{2029}'
    ||| c == '\u{202f}'
    ||| c == '\u{205f}'
    ||| c == '\u{3000}'
}

pub fn is_whitespace(c: char) -> (r: bool)
    ensures
        r == is_ws(c),
{
    ('\u{9}' <= c && c <= '\u{d}') || c == ' ' || c == '\u{85}' || c == '\u{a0}' || c
        == '\u{1680}' || ('\u{2000}' <= c && c <= '\u{200a}') || c == '\u{2028}' || c
        == '\u{2029}' || c == '\u{202f}' || c == '\u{205f}' || c == '\u{3000}'
}

/// Index of the first non-whitespace character at or after `k`.
pub open spec fn skip_ws(s: Seq<char>, k: int) -> int
    decreases s.len() - k,
{
    if k >= s.len() {
        s.len() as int
    } else if is_ws(s[k]) {
        skip_ws(s, k + 1)
    } else {
        k
    }
}

/// One past the last non-whitespace character before `e`.
pub open spec fn back_ws(s: Seq<char>, e: int) -> int
    decreases e,
{
    if e <= 0 {
        0
    } else if is_ws(s[e - 1]) {
        back_ws(s, e - 1)
    } else {
        e
    }
}

pub open spec fn trim_start(s: Seq<char>) -> Seq<char> {
    s.skip(skip_ws(s, 0))
}

pub open spec fn trim_end(s: Seq<char>) -> Seq<char> {
    s.take(back_ws(s, s.len() as int))
}

/// What `str::trim` gives: leading and trailing whitespace removed.
pub open spec fn trim(s: Seq<char>) -> Seq<char> {
    trim_end(trim_start(s))
}

/// Text that starts and ends with a non-space is its own trim, also with a
/// line break after it.
pub proof fn lemma_trim_edges(x: Seq<char>)
    requires
        x.len() > 0,
        !is_ws(x[0]),
        !is_ws(x.last()),
    ensures
        trim(x) == x,
        trim(x + seq!['\n']) == x,
{
    let y = x + seq!['\n'];
    assert(skip_ws(x, 0) == 0);
    assert(x.skip(0) =~= x);
    assert(back_ws(x, x.len() as int) == x.len());
    assert(x.take(x.len() as int) =~= x);
    assert(y[0] == x[0]);
    assert(skip_ws(y, 0) == 0);
    assert(y.skip(0) =~= y);
    assert(y[y.len() - 2] == x.last());
    assert(back_ws(y, y.len() - 1) == y.len() - 1);
    assert(back_ws(y, y.len() as int) == y.len() - 1);
    assert(y.take(y.len() - 1) =~= x);
}

proof fn lemma_skip_ws_shift(w: Seq<char>, l: Seq<char>, m: int)
    requires
        0 <= m <= l.len(),
    ensures
        skip_ws(w + l, w.len() + m) == w.len() + skip_ws(l, m),
    decreases l.len() - m,
{
    if m < l.len() {
        assert((w + l)[w.len() + m] == l[m]);
        lemma_skip_ws_shift(w, l, m + 1);
    }
}

proof fn lemma_skip_ws_prefix(w: Seq<char>, l: Seq<char>, k: int)
    requires
        0 <= k <= w.len(),
        forall|i: int| 0 <= i < w.len() ==> is_ws(#[trigger] w[i]),
    ensures
        skip_ws(w + l, k) == w.len() + skip_ws(l, 0),
    decreases w.len() - k,
{
    if k < w.len() {
        assert((w + l)[k] == w[k]);
        lemma_skip_ws_prefix(w, l, k + 1);
    } else {
        lemma_skip_ws_shift(w, l, 0);
    }
}

/// Leading whitespace does not change what a line trims to.
pub proof fn lemma_trim_indent(w: Seq<char>, l: Seq<char>)
    requires
        forall|i: int| 0 <= i < w.len() ==> is_ws(#[trigger] w[i]),
    ensures
        trim(w + l) == trim(l),
{
    lemma_skip_ws_prefix(w, l, 0);
    lemma_skip_ws_bounds(l, 0);
    assert(trim_start(w + l) =~= trim_start(l));
}

/// Digits are not whitespace.
pub proof fn lemma_digit_not_ws(c: char)
    requires
        is_digit(c),
    ensures
        !is_ws(c),
{
}

pub proof fn lemma_skip_ws_bounds(s: Seq<char>, k: int)
    requires
        0 <= k <= s.len(),
    ensures
        k <= skip_ws(s, k) <= s.len(),
    decreases s.len() - k,
{
    if k < s.len() && is_ws(s[k]) {
        lemma_skip_ws_bounds(s, k + 1);
    }
}

pub proof fn lemma_back_ws_bounds(s: Seq<char>, e: int)
    requires
        0 <= e <= s.len(),
    ensures
        0 <= back_ws(s, e) <= e,
    decreases e,
{
    if e > 0 && is_ws(s[e - 1]) {
        lemma_back_ws_bounds(s, e - 1);
    }
}

pub fn trim_start_chars(s: &[char]) -> (r: Vec<char>)
    ensures
        r@ == trim_start(s@),
{
    let mut k: usize = 0;
    while k < s.len() && is_whitespace(s[k])
        invariant
            k <= s.len(),
            skip_ws(s@, 0) == skip_ws(s@, k as int),
        decreases s.len() - k,
    {
        k += 1;
    }
    slice_of(s, k, s.len())
}

pub fn trim_end_chars(s: &[char]) -> (r: Vec<char>)
    ensures
        r@ == trim_end(s@),
{
    let mut e: usize = s.len();
    while e > 0 && is_whitespace(s[e - 1])
        invariant
            e <= s.len(),
            back_ws(s@, s.len() as int) == back_ws(s@, e as int),
        decreases e,
    {
        e -= 1;
    }
    slice_of(s, 0, e)
}

/// `str::trim` on characters.
pub fn trim_chars(s: &[char]) -> (r: Vec<char>)
    ensures
        r@ == trim(s@),
{
    let t = trim_start_chars(s);
    trim_end_chars(&t)
}

/// `str::trim` on a string slice, as characters.
pub fn trimmed(s: &str) -> (r: Vec<char>)
    ensures
        r@ == trim(s@),
{
    let v = chars_of(s);
    trim_chars(&v)
}

/// Index of the first whitespace character at or after `k` (the length when
/// there is none).
pub open spec fn next_ws(s: Seq<char>, k: int) -> int
    decreases s.len() - k,
{
    if k >= s.len() {
        s.len() as int
    } else if is_ws(s[k]) {
        k
    } else {
        next_ws(s, k + 1)
    }
}

/// The words of `s[k..]`: maximal runs of non-whitespace characters
/// (`str::split_whitespace`).
pub open spec fn words_from(s: Seq<char>, k: int) -> Seq<Seq<char>>
    decreases s.len() - k,
{
    if k < 0 || k >= s.len() {
        Seq::empty()
    } else if is_ws(s[k]) {
        words_from(s, k + 1)
    } else {
        let e = next_ws(s, k);
        if e <= k || e > s.len() {
            Seq::empty()
        } else {
            seq![s.subrange(k, e)] + words_from(s, e)
        }
    }
}

pub open spec fn words(s: Seq<char>) -> Seq<Seq<char>> {
    words_from(s, 0)
}

proof fn lemma_next_ws(s: Seq<char>, k: int)
    requires
        0 <= k <= s.len(),
    ensures
        k <= next_ws(s, k) <= s.len(),
        k < s.len() && !is_ws(s[k]) ==> next_ws(s, k) > k,
    decreases s.len() - k,
{
    if k < s.len() && !is_ws(s[k]) {
        lemma_next_ws(s, k + 1);
    }
}

/// `str::split_whitespace` on characters.
pub fn words_chars(s: &[char]) -> (r: Vec<Vec<char>>)
    ensures
        r.deep_view() == words(s@),
{
    let mut out: Vec<Vec<char>> = Vec::new();
    let mut k: usize = 0;
    while k < s.len()
        invariant
            k <= s.len(),
            out.deep_view() + words_from(s@, k as int) == words(s@),
        decreases s.len() - k,
    {
        if is_whitespace(s[k]) {
            k += 1;
        } else {
            let mut e: usize = k;
            while e < s.len() && !is_whitespace(s[e])
                invariant
                    k <= e <= s.len(),
                    next_ws(s@, k as int) == next_ws(s@, e as int),
                decreases s.len() - e,
            {
                e += 1;
            }
            proof {
                lemma_next_ws(s@, k as int);
            }
            let w = slice_of(s, k, e);
            assert(w.deep_view() =~= w@);
            let ghost before = out.deep_view();
            out.push(w);
            proof {
                assert(out.deep_view() =~= before.push(s@.subrange(k as int, e as int)));
                assert(before + (seq![s@.subrange(k as int, e as int)] + words_from(s@, e as int))
                    =~= out.deep_view() + words_from(s@, e as int));
            }
            k = e;
        }
    }
    assert(out.deep_view() + Seq::<Seq<char>>::empty() =~= out.deep_view());
    out
}

// ─────────────────────────── prefixes / suffixes ───────────────────────

pub open spec fn starts_with(s: Seq<char>, p: Seq<char>) -> bool {
    p.len() <= s.len() && s.take(p.len() as int) == p
}

pub open spec fn ends_with(s: Seq<char>, p: Seq<char>) -> bool {
    p.len() <= s.len() && s.skip(s.len() - p.len()) == p
}

/// Whether `p` occurs in `s` starting at position `i`.
pub open spec fn occurs_at(s: Seq<char>, p: Seq<char>, i: int) -> bool {
    0 <= i && i + p.len() <= s.len() && s.subrange(i, i + p.len()) == p
}

/// `str::contains` with a string pattern.
pub open spec fn contains(s: Seq<char>, p: Seq<char>) -> bool {
    exists|i: int| occurs_at(s, p, i)
}

/// Whether `p` occurs at position `i` (executable).
pub fn matches_at(s: &[char], p: &[char], i: usize) -> (r: bool)
    ensures
        r == occurs_at(s@, p@, i as int),
{
    if i > s.len() || p.len() > s.len() - i {
        return false;
    }
    let mut j: usize = 0;
    while j < p.len()
        invariant
            i + p.len() <= s.len(),
            j <= p.len(),
            forall|k: int| 0 <= k < j ==> s@[i + k] == p@[k],
        decreases p.len() - j,
    {
        if s[i + j] != p[j] {
            assert(s@.subrange(i as int, i + p.len())[j as int] != p@[j as int]);
            return false;
        }
        j += 1;
    }
    assert(s@.subrange(i as int, i + p.len()) =~= p@);
    true
}

pub fn starts_with_chars(s: &[char], p: &[char]) -> (r: bool)
    ensures
        r == starts_with(s@, p@),
{
    let r = matches_at(s, p, 0);
    proof {
        if p@.len() <= s@.len() {
            assert(s@.subrange(0, p@.len() as int) =~= s@.take(p@.len() as int));
        }
    }
    r
}

pub fn ends_with_chars(s: &[char], p: &[char]) -> (r: bool)
    ensures
        r == ends_with(s@, p@),
{
    if p.len() > s.len() {
        return false;
    }
    let r = matches_at(s, p, s.len() - p.len());
    assert(s@.subrange(s@.len() - p@.len(), s@.len() as int) =~= s@.skip(s@.len() - p@.len()));
    r
}

pub fn contains_chars(s: &[char], p: &[char]) -> (r: bool)
    ensures
        r == contains(s@, p@),
{
    if p.len() > s.len() {
        return false;
    }
    let mut i: usize = 0;
    let last = s.len() - p.len();
    loop
        invariant
            p.len() <= s.len(),
            last == s.len() - p.len(),
            i <= last,
            forall|k: int| 0 <= k < i ==> !occurs_at(s@, p@, k),
        decreases last - i,
    {
        if matches_at(s, p, i) {
            return true;
        }
        if i == last {
            assert forall|k: int| !occurs_at(s@, p@, k) by {
                if 0 <= k <= i {
                }
            }
            return false;
        }
        i += 1;
    }
}

/// `str::contains` with a single character.
pub open spec fn has_char(s: Seq<char>, c: char) -> bool {
    exists|i: int| 0 <= i < s.len() && s[i] == c
}

/// Index of the first `c` at or after `k`, if any.
pub open spec fn find_from(s: Seq<char>, c: char, k: int) -> Option<int>
    decreases s.len() - k,
{
    if k < 0 || k >= s.len() {
        None
    } else if s[k] == c {
        Some(k)
    } else {
        find_from(s, c, k + 1)
    }
}

pub proof fn lemma_find_from(s: Seq<char>, c: char, k: int)
    requires
        0 <= k <= s.len(),
    ensures
        match find_from(s, c, k) {
            Some(j) => k <= j < s.len() && s[j] == c && forall|m: int| k <= m < j ==> s[m] != c,
            None => forall|m: int| k <= m < s.len() ==> s[m] != c,
        },
    decreases s.len() - k,
{
    if k < s.len() && s[k] != c {
        lemma_find_from(s, c, k + 1);
    }
}

pub fn find_char_from(s: &[char], c: char, k: usize) -> (r: Option<usize>)
    requires
        k <= s.len(),
    ensures
        match r {
            Some(j) => find_from(s@, c, k as int) == Some(j as int),
            None => find_from(s@, c, k as int) is None,
        },
{
    let mut i: usize = k;
    while i < s.len()
        invariant
            k <= i <= s.len(),
            find_from(s@, c, k as int) == find_from(s@, c, i as int),
        decreases s.len() - i,
    {
        if s[i] == c {
            return Some(i);
        }
        i += 1;
    }
    None
}

pub fn has_char_exec(s: &[char], c: char) -> (r: bool)
    ensures
        r == has_char(s@, c),
{
    let f = find_char_from(s, c, 0);
    proof {
        lemma_find_from(s@, c, 0);
    }
    f.is_some()
}

/// Removes a leading pattern repeatedly (`str::trim_start_matches` with a string).
pub open spec fn trim_start_matches(s: Seq<char>, p: Seq<char>) -> Seq<char>
    decreases s.len(),
{
    if p.len() > 0 && starts_with(s, p) {
        trim_start_matches(s.skip(p.len() as int), p)
    } else {
        s
    }
}

/// Removes a trailing pattern repeatedly (`str::trim_end_matches` with a string).
pub open spec fn trim_end_matches(s: Seq<char>, p: Seq<char>) -> Seq<char>
    decreases s.len(),
{
    if p.len() > 0 && ends_with(s, p) {
        trim_end_matches(s.take(s.len() - p.len()), p)
    } else {
        s
    }
}

pub fn trim_start_matches_chars(s: &[char], p: &[char]) -> (r: Vec<char>)
    ensures
        r@ == trim_start_matches(s@, p@),
{
    let mut k: usize = 0;
    if p.len() == 0 {
        return copy(s);
    }
    assert(s@.skip(0) =~= s@);
    while k <= s.len() && starts_with_at(s, p, k)
        invariant
            k <= s.len(),
            p@.len() > 0,
            trim_start_matches(s@, p@) == trim_start_matches(s@.skip(k as int), p@),
        decreases s.len() - k,
    {
        proof {
            assert(s@.skip(k as int).skip(p@.len() as int) =~= s@.skip(k + p@.len()));
        }
        k = k + p.len();
    }
    slice_of(s, k, s.len())
}

/// Whether `p` is a prefix of `s[k..]` (executable helper).
fn starts_with_at(s: &[char], p: &[char], k: usize) -> (r: bool)
    requires
        k <= s.len(),
    ensures
        r == starts_with(s@.skip(k as int), p@),
        r ==> k + p.len() <= s.len(),
{
    let r = matches_at(s, p, k);
    proof {
        if p@.len() <= s@.len() - k {
            assert(s@.subrange(k as int, k + p@.len()) =~= s@.skip(k as int).take(
                p@.len() as int,
            ));
        }
    }
    r
}

pub fn trim_end_matches_chars(s: &[char], p: &[char]) -> (r: Vec<char>)
    ensures
        r@ == trim_end_matches(s@, p@),
{
    if p.len() == 0 {
        return copy(s);
    }
    let mut e: usize = s.len();
    assert(s@.take(s@.len() as int) =~= s@);
    while p.len() <= e && matches_at(s, p, e - p.len())
        invariant
            e <= s.len(),
            p@.len() > 0,
            trim_end_matches(s@, p@) == trim_end_matches(s@.take(e as int), p@),
        decreases e,
    {
        proof {
            let t = s@.take(e as int);
            assert(t.skip(t.len() - p@.len()) =~= s@.subrange(e - p@.len(), e as int));
            assert(t.take(t.len() - p@.len()) =~= s@.take(e - p@.len()));
        }
        e = e - p.len();
    }
    proof {
        let t = s@.take(e as int);
        if p@.len() <= e {
            assert(t.skip(t.len() - p@.len()) =~= s@.subrange(e - p@.len(), e as int));
        }
    }
    slice_of(s, 0, e)
}

/// `str::strip_prefix` on characters.
pub fn strip_prefix_chars(s: &[char], p: &[char]) -> (r: Option<Vec<char>>)
    ensures
        match r {
            Some(t) => starts_with(s@, p@) && t@ == s@.skip(p@.len() as int),
            None => !starts_with(s@, p@),
        },
{
    if starts_with_chars(s, p) {
        Some(slice_of(s, p.len(), s.len()))
    } else {
        None
    }
}

// ───────────────────────────── lines / split ───────────────────────────

/// A line without its `\r`, if it ends with one.
pub open spec fn strip_cr(l: Seq<char>) -> Seq<char> {
    if l.len() > 0 && l[l.len() - 1] == '\r' {
        l.drop_last()
    } else {
        l
    }
}

/// The lines of `s[k..]`, as `str::lines` yields them.
pub open spec fn lines_from(s: Seq<char>, k: int) -> Seq<Seq<char>>
    decreases s.len() - k,
{
    if k < 0 || k >= s.len() {
        Seq::empty()
    } else {
        match find_from(s, '\n', k) {
            None => seq![s.subrange(k, s.len() as int)],
            Some(j) => if j < k || j >= s.len() {
                Seq::empty()
            } else {
                seq![strip_cr(s.subrange(k, j))] + lines_from(s, j + 1)
            },
        }
    }
}

/// `str::lines`: split at `\n`, a `\r` before the `\n` dropped, no empty
/// last line for a trailing newline.
pub open spec fn lines(s: Seq<char>) -> Seq<Seq<char>> {
    lines_from(s, 0)
}

pub fn strip_cr_chars(l: Vec<char>) -> (r: Vec<char>)
    ensures
        r@ == strip_cr(l@),
{
    let mut l = l;
    if l.len() > 0 && l[l.len() - 1] == '\r' {
        l.pop();
    }
    l
}

/// `str::lines` on characters.
pub fn lines_chars(s: &[char]) -> (r: Vec<Vec<char>>)
    ensures
        r.deep_view() == lines(s@),
{
    let mut out: Vec<Vec<char>> = Vec::new();
    let mut k: usize = 0;
    while k < s.len()
        invariant
            k <= s.len(),
            out.deep_view() + lines_from(s@, k as int) == lines(s@),
        decreases s.len() - k,
    {
        match find_char_from(s, '\n', k) {
            None => {
                let piece = slice_of(s, k, s.len());
                proof {
                    assert(lines_from(s@, k as int) == seq![s@.subrange(k as int, s@.len() as int)]);
                    assert(piece.deep_view() =~= piece@);
                }
                let ghost before = out.deep_view();
                out.push(piece);
                proof {
                    assert(out.deep_view() =~= before.push(s@.subrange(k as int, s@.len() as int)));
                    assert(lines_from(s@, s@.len() as int) == Seq::<Seq<char>>::empty());
                    assert(out.deep_view() + lines_from(s@, s@.len() as int) =~= before
                        + lines_from(s@, k as int));
                }
                k = s.len();
            },
            Some(j) => {
                proof {
                    lemma_find_from(s@, '\n', k as int);
                }
                let piece = strip_cr_chars(slice_of(s, k, j));
                assert(piece.deep_view() =~= piece@);
                let ghost before = out.deep_view();
                let ghost p = strip_cr(s@.subrange(k as int, j as int));
                out.push(piece);
                proof {
                    assert(out.deep_view() =~= before.push(p));
                    assert(lines_from(s@, k as int) == seq![p] + lines_from(s@, j + 1));
                    assert(out.deep_view() + lines_from(s@, j + 1) =~= before + lines_from(
                        s@,
                        k as int,
                    ));
                }
                k = j + 1;
            },
        }
    }
    proof {
        assert(lines_from(s@, k as int) == Seq::<Seq<char>>::empty());
        assert(out.deep_view() + Seq::<Seq<char>>::empty() =~= out.deep_view());
    }
    out
}

/// The pieces of `s[k..]` separated by `c` (`str::split` with a character).
pub open spec fn split_from(s: Seq<char>, c: char, k: int) -> Seq<Seq<char>>
    decreases s.len() - k,
{
    if k < 0 || k > s.len() {
        Seq::empty()
    } else {
        match find_from(s, c, k) {
            None => seq![s.subrange(k, s.len() as int)],
            Some(j) => if j < k || j >= s.len() {
                Seq::empty()
            } else {
                seq![s.subrange(k, j)] + split_from(s, c, j + 1)
            },
        }
    }
}

/// `str::split` with a character pattern: always one more piece than separators.
pub open spec fn split(s: Seq<char>, c: char) -> Seq<Seq<char>> {
    split_from(s, c, 0)
}

pub fn split_chars(s: &[char], c: char) -> (r: Vec<Vec<char>>)
    ensures
        r.deep_view() == split(s@, c),
        r.len() >= 1,
{
    let mut out: Vec<Vec<char>> = Vec::new();
    let mut k: usize = 0;
    loop
        invariant
            k <= s.len(),
            out.deep_view() + split_from(s@, c, k as int) == split(s@, c),
        decreases s.len() - k,
    {
        match find_char_from(s, c, k) {
            None => {
                let piece = slice_of(s, k, s.len());
                assert(piece.deep_view() =~= piece@);
                let ghost before = out.deep_view();
                out.push(piece);
                proof {
                    assert(out.deep_view() =~= before.push(s@.subrange(k as int, s@.len() as int)));
                    assert(out.deep_view() =~= before + split_from(s@, c, k as int));
                }
                return out;
            },
            Some(j) => {
                proof {
                    lemma_find_from(s@, c, k as int);
                }
                let piece = slice_of(s, k, j);
                assert(piece.deep_view() =~= piece@);
                let ghost before = out.deep_view();
                out.push(piece);
                proof {
                    assert(out.deep_view() =~= before.push(s@.subrange(k as int, j as int)));
                    assert(out.deep_view() + split_from(s@, c, j + 1) =~= before + split_from(
                        s@,
                        c,
                        k as int,
                    ));
                }
                k = j + 1;
            },
        }
    }
}

/// `str::split_once` with a character pattern.
pub open spec fn split_once(s: Seq<char>, c: char) -> Option<(Seq<char>, Seq<char>)> {
    match find_from(s, c, 0) {
        Some(j) => Some((s.take(j), s.skip(j + 1))),
        None => None,
    }
}

pub fn split_once_chars(s: &[char], c: char) -> (r: Option<(Vec<char>, Vec<char>)>)
    ensures
        match r {
            Some((a, b)) => split_once(s@, c) == Some((a@, b@)),
            None => split_once(s@, c) is None,
        },
{
    match find_char_from(s, c, 0) {
        Some(j) => {
            proof {
                lemma_find_from(s@, c, 0);
            }
            assert(j < s.len());
            let a = slice_of(s, 0, j);
            let b = slice_of(s, j + 1, s.len());
            assert(a@ =~= s@.take(j as int));
            assert(b@ =~= s@.skip(j + 1));
            Some((a, b))
        },
        None => None,
    }
}

/// Index of the last `c` before `e`, if any.
pub open spec fn rfind_before(s: Seq<char>, c: char, e: int) -> Option<int>
    decreases e,
{
    if e <= 0 || e > s.len() {
        None
    } else if s[e - 1] == c {
        Some(e - 1)
    } else {
        rfind_before(s, c, e - 1)
    }
}

/// `str::rsplit_once` with a character pattern.
pub open spec fn rsplit_once(s: Seq<char>, c: char) -> Option<(Seq<char>, Seq<char>)> {
    match rfind_before(s, c, s.len() as int) {
        Some(j) => Some((s.take(j), s.skip(j + 1))),
        None => None,
    }
}

pub proof fn lemma_rfind_before(s: Seq<char>, c: char, e: int)
    requires
        0 <= e <= s.len(),
    ensures
        match rfind_before(s, c, e) {
            Some(j) => 0 <= j < e && s[j] == c,
            None => true,
        },
    decreases e,
{
    if e > 0 && s[e - 1] != c {
        lemma_rfind_before(s, c, e - 1);
    }
}

pub fn rsplit_once_chars(s: &[char], c: char) -> (r: Option<(Vec<char>, Vec<char>)>)
    ensures
        match r {
            Some((a, b)) => rsplit_once(s@, c) == Some((a@, b@)),
            None => rsplit_once(s@, c) is None,
        },
{
    let mut e: usize = s.len();
    while e > 0 && s[e - 1] != c
        invariant
            e <= s.len(),
            rfind_before(s@, c, s.len() as int) == rfind_before(s@, c, e as int),
        decreases e,
    {
        e -= 1;
    }
    if e == 0 {
        None
    } else {
        let a = slice_of(s, 0, e - 1);
        let b = slice_of(s, e, s.len());
        assert(a@ =~= s@.take(e - 1));
        assert(b@ =~= s@.skip(e as int));
        Some((a, b))
    }
}

// ─────────────────────────────── numbers ───────────────────────────────

pub open spec fn is_digit(c: char) -> bool {
    '0' <= c && c <= '9'
}

pub open spec fn digit_value(c: char) -> nat {
    (c as int - '0' as int) as nat
}

/// The number that a run of decimal digits denotes.
pub open spec fn digits_value(s: Seq<char>) -> nat
    decreases s.len(),
{
    if s.len() == 0 {
        0
    } else {
        digits_value(s.drop_last()) * 10 + digit_value(s.last())
    }
}

pub open spec fn all_digits(s: Seq<char>) -> bool {
    forall|i: int| 0 <= i < s.len() ==> is_digit(s[i])
}

/// What `str::parse` gives for an unsigned integer type whose largest value is
/// `max`: an optional `+`, then one or more decimal digits, no overflow.
pub open spec fn parse_uint(s: Seq<char>, max: nat) -> Option<nat> {
    let body = if s.len() > 0 && s[0] == '+' {
        s.drop_first()
    } else {
        s
    };
    if body.len() > 0 && all_digits(body) && digits_value(body) <= max {
        Some(digits_value(body))
    } else {
        None
    }
}

pub proof fn lemma_digits_value_monotone(s: Seq<char>, i: int, j: int)
    requires
        0 <= i <= j <= s.len(),
        all_digits(s),
    ensures
        digits_value(s.take(i)) <= digits_value(s.take(j)),
    decreases j - i,
{
    if i < j {
        lemma_digits_value_monotone(s, i, j - 1);
        assert(s.take(j).drop_last() =~= s.take(j - 1));
    }
}

/// `str::parse::<uN>` for an unsigned type bounded by `max`.
pub fn parse_uint_chars(s: &[char], max: u64) -> (r: Option<u64>)
    ensures
        match r {
            Some(v) => parse_uint(s@, max as nat) == Some(v as nat),
            None => parse_uint(s@, max as nat) is None,
        },
{
    let start: usize = if s.len() > 0 && s[0] == '+' {
        1
    } else {
        0
    };
    let ghost body = if s@.len() > 0 && s@[0] == '+' {
        s@.drop_first()
    } else {
        s@
    };
    assert(body =~= s@.skip(start as int));
    if start >= s.len() {
        assert(body.len() == 0);
        return None;
    }
    let mut acc: u64 = 0;
    let mut i: usize = start;
    while i < s.len()
        invariant
            start <= i <= s.len(),
            body == s@.skip(start as int),
            body == (if s@.len() > 0 && s@[0] == '+' {
                s@.drop_first()
            } else {
                s@
            }),
            acc as nat == digits_value(body.take(i - start)),
            acc <= max,
            forall|k: int| 0 <= k < i - start ==> is_digit(body[k]),
        decreases s.len() - i,
    {
        let c = s[i];
        if !('0' <= c && c <= '9') {
            assert(body[i - start] == c);
            assert(!is_digit(body[i - start]));
            assert(!all_digits(body));
            assert(parse_uint(s@, max as nat) is None);
            return None;
        }
        let d: u64 = (c as u64) - ('0' as u64);
        let next: u128 = (acc as u128) * 10 + (d as u128);
        proof {
            assert(body.take(i - start + 1).drop_last() =~= body.take(i - start));
            assert(body.take(i - start + 1).last() == c);
            assert(next == digits_value(body.take(i - start + 1)));
        }
        if next > max as u128 {
            proof {
                if all_digits(body) {
                    lemma_digits_value_monotone(body, i - start + 1, body.len() as int);
                    assert(body.take(body.len() as int) =~= body);
                }
                assert(parse_uint(s@, max as nat) is None);
            }
            return None;
        }
        acc = next as u64;
        i += 1;
    }
    assert(body.take(i - start) =~= body);
    Some(acc)
}

/// The decimal digits of `n` (no sign, no leading zeros), as `Display` writes them.
pub open spec fn decimal(n: nat) -> Seq<char>
    decreases n,
{
    if n < 10 {
        seq![digit_char(n)]
    } else {
        decimal(n / 10).push(digit_char(n % 10))
    }
}

pub open spec fn digit_char(d: nat) -> char {
    if d == 0 {
        '0'
    } else if d == 1 {
        '1'
    } else if d == 2 {
        '2'
    } else if d == 3 {
        '3'
    } else if d == 4 {
        '4'
    } else if d == 5 {
        '5'
    } else if d == 6 {
        '6'
    } else if d == 7 {
        '7'
    } else if d == 8 {
        '8'
    } else {
        '9'
    }
}

proof fn lemma_digit_char(d: nat)
    requires
        d < 10,
    ensures
        is_digit(digit_char(d)),
        digit_value(digit_char(d)) == d,
{
}

/// The decimal text of a number is a non-empty run of digits that reads
/// back as the number.
pub proof fn lemma_decimal_digits(n: nat)
    ensures
        decimal(n).len() > 0,
        all_digits(decimal(n)),
        digits_value(decimal(n)) == n,
    decreases n,
{
    if n >= 10 {
        lemma_decimal_digits(n / 10);
        lemma_digit_char((n % 10) as nat);
        let s = decimal(n);
        assert(s.drop_last() =~= decimal(n / 10));
        assert(s.last() == digit_char((n % 10) as nat));
        assert(n == (n / 10) * 10 + n % 10);
        assert(digits_value(s) == digits_value(s.drop_last()) * 10 + digit_value(s.last()));
        assert(digits_value(s.drop_last()) == n / 10);
        assert forall|i: int| 0 <= i < s.len() implies is_digit(s[i]) by {
            if i < s.len() - 1 {
                assert(s[i] == decimal(n / 10)[i]);
            }
        }
    } else {
        lemma_digit_char(n);
        assert(decimal(n).drop_last() =~= Seq::<char>::empty());
        assert(digits_value(Seq::<char>::empty()) == 0);
        assert(digits_value(decimal(n)) == digits_value(decimal(n).drop_last()) * 10 + digit_value(decimal(n).last()));
    }
}

/// `str::parse` reads the decimal text of a number that fits back as it.
pub proof fn lemma_parse_uint_decimal(n: nat, max: nat)
    requires
        n <= max,
    ensures
        parse_uint(decimal(n), max) == Some(n),
{
    lemma_decimal_digits(n);
}

/// A run of digits holds no `c` that is not a digit.
pub proof fn lemma_digits_lack(s: Seq<char>, c: char)
    requires
        all_digits(s),
        !is_digit(c),
    ensures
        !s.contains(c),
{
    if s.contains(c) {
        let i = choose|i: int| 0 <= i < s.len() && s[i] == c;
        assert(is_digit(s[i]));
    }
}

proof fn lemma_find_first(s: Seq<char>, c: char, k: int, j: int)
    requires
        0 <= k <= j < s.len(),
        s[j] == c,
        forall|m: int| k <= m < j ==> s[m] != c,
    ensures
        find_from(s, c, k) == Some(j),
{
    lemma_find_from(s, c, k);
}

proof fn lemma_find_none(s: Seq<char>, c: char, k: int)
    requires
        0 <= k <= s.len(),
        forall|m: int| k <= m < s.len() ==> s[m] != c,
    ensures
        find_from(s, c, k) is None,
{
    lemma_find_from(s, c, k);
}

/// Two texts without `c` joined hold no `c` either.
pub proof fn lemma_concat_lacks(a: Seq<char>, b: Seq<char>, c: char)
    requires
        !a.contains(c),
        !b.contains(c),
    ensures
        !(a + b).contains(c),
{
    if (a + b).contains(c) {
        let i = choose|i: int| 0 <= i < (a + b).len() && (a + b)[i] == c;
        if i < a.len() {
            assert(a[i] == c);
        } else {
            assert(b[i - a.len()] == c);
        }
    }
}

/// `split_once` finds nothing in text without `c`, and splits `a c b` into
/// `a` and `b` when `a` holds no `c`.
pub proof fn lemma_split_once_parts(a: Seq<char>, b: Seq<char>, c: char)
    requires
        !a.contains(c),
    ensures
        split_once(a, c) is None,
        split_once(a + seq![c] + b, c) == Some((a, b)),
{
    let s = a + seq![c] + b;
    let p = a.len() as int;
    assert forall|m: int| 0 <= m < p implies s[m] != c && a[m] != c by {
        assert(s[m] == a[m]);
        if a[m] == c {
            assert(a.contains(c));
        }
    }
    lemma_find_none(a, c, 0);
    lemma_find_first(s, c, 0, p);
    assert(s.take(p) =~= a);
    assert(s.skip(p + 1) =~= b);
}

/// Text without `c` splits at `c` into itself.
pub proof fn lemma_split_one(a: Seq<char>, c: char)
    requires
        !a.contains(c),
    ensures
        split(a, c) == seq![a],
{
    assert forall|m: int| 0 <= m < a.len() implies a[m] != c by {
        if a[m] == c {
            assert(a.contains(c));
        }
    }
    lemma_find_none(a, c, 0);
    assert(a.subrange(0, a.len() as int) =~= a);
}

/// `a c b` splits at `c` into `a` and `b` when neither holds `c`.
pub proof fn lemma_split_two(a: Seq<char>, b: Seq<char>, c: char)
    requires
        !a.contains(c),
        !b.contains(c),
    ensures
        split(a + seq![c] + b, c) == seq![a, b],
{
    let s = a + seq![c] + b;
    let p = a.len() as int;
    assert forall|m: int| 0 <= m < p implies s[m] != c by {
        assert(s[m] == a[m]);
        if a[m] == c {
            assert(a.contains(c));
        }
    }
    lemma_find_first(s, c, 0, p);
    assert forall|m: int| p + 1 <= m < s.len() implies s[m] != c by {
        assert(s[m] == b[m - p - 1]);
        if b[m - p - 1] == c {
            assert(b.contains(c));
        }
    }
    lemma_find_none(s, c, p + 1);
    assert(s.subrange(0, p) =~= a);
    assert(s.subrange(p + 1, s.len() as int) =~= b);
    assert(split_from(s, c, p + 1) == seq![b]);
    assert(split(s, c) =~= seq![a, b]);
}

/// `a c b c d` splits at `c` into `a`, `b` and `d` when none of them holds `c`.
pub proof fn lemma_split_three(a: Seq<char>, b: Seq<char>, d: Seq<char>, c: char)
    requires
        !a.contains(c),
        !b.contains(c),
        !d.contains(c),
    ensures
        split(a + seq![c] + b + seq![c] + d, c) == seq![a, b, d],
{
    let s = a + seq![c] + b + seq![c] + d;
    let p = a.len() as int;
    let q = p + 1 + b.len();
    assert forall|m: int| 0 <= m < p implies s[m] != c by {
        assert(s[m] == a[m]);
        if a[m] == c {
            assert(a.contains(c));
        }
    }
    lemma_find_first(s, c, 0, p);
    assert forall|m: int| p + 1 <= m < q implies s[m] != c by {
        assert(s[m] == b[m - p - 1]);
        if b[m - p - 1] == c {
            assert(b.contains(c));
        }
    }
    lemma_find_first(s, c, p + 1, q);
    assert forall|m: int| q + 1 <= m < s.len() implies s[m] != c by {
        assert(s[m] == d[m - q - 1]);
        if d[m - q - 1] == c {
            assert(d.contains(c));
        }
    }
    lemma_find_none(s, c, q + 1);
    assert(s.subrange(0, p) =~= a);
    assert(s.subrange(p + 1, q) =~= b);
    assert(s.subrange(q + 1, s.len() as int) =~= d);
    assert(split_from(s, c, q + 1) == seq![d]);
    assert(split_from(s, c, p + 1) =~= seq![b, d]);
    assert(split(s, c) =~= seq![a, b, d]);
}

fn digit_char_exec(d: u64) -> (c: char)
    requires
        d < 10,
    ensures
        c == digit_char(d as nat),
{
    if d == 0 {
        '0'
    } else if d == 1 {
        '1'
    } else if d == 2 {
        '2'
    } else if d == 3 {
        '3'
    } else if d == 4 {
        '4'
    } else if d == 5 {
        '5'
    } else if d == 6 {
        '6'
    } else if d == 7 {
        '7'
    } else if d == 8 {
        '8'
    } else {
        '9'
    }
}

/// Appends the decimal form of `n` to `s`.
pub fn push_decimal(s: &mut String, n: u64)
    ensures
        final(s)@ == old(s)@ + decimal(n as nat),
    decreases n,
{
    if n < 10 {
        push_char(s, digit_char_exec(n));
        assert(old(s)@.push(digit_char(n as nat)) =~= old(s)@ + decimal(n as nat));
    } else {
        push_decimal(s, n / 10);
        push_char(s, digit_char_exec(n % 10));
        assert(old(s)@ + decimal((n / 10) as nat) + seq![digit_char((n % 10) as nat)] =~= old(
            s,
        )@ + decimal(n as nat));
    }
}

/// The decimal form of `n` as a `String`.
pub fn decimal_string(n: u64) -> (r: String)
    ensures
        r@ == decimal(n as nat),
{
    let mut s = String::new();
    push_decimal(&mut s, n);
    assert(Seq::<char>::empty() + decimal(n as nat) =~= decimal(n as nat));
    s
}


// ───────────────────────────── lowercase ───────────────────────────────

/// What `str::to_lowercase` gives: the Unicode lowercase mapping of each
/// character, concatenated.
pub uninterp spec fn lowercase(s: Seq<char>) -> Seq<char>;

/// `str::to_lowercase`.  The result is named, not described.
#[verifier::external_body]
pub(crate) fn to_lowercase(s: &str) -> (r: String)
    ensures
        r@ == lowercase(s@),
{
    s.to_lowercase()
}

/// ASCII lowercase of one character.
pub open spec fn ascii_lower(c: char) -> char {
    if 'A' <= c && c <= 'Z' {
        ((c as u32) + 32) as char
    } else {
        c
    }
}

/// `str::eq_ignore_ascii_case`: same length, equal after ASCII lowercasing.
pub open spec fn eq_ignore_ascii_case(a: Seq<char>, b: Seq<char>) -> bool {
    a.len() == b.len() && forall|i: int| 0 <= i < a.len() ==> ascii_lower(a[i]) == ascii_lower(b[i])
}

fn ascii_lower_exec(c: char) -> (r: char)
    ensures
        r == ascii_lower(c),
{
    if 'A' <= c && c <= 'Z' {
        let u: u32 = (c as u32) + 32;
        assert(u == (c as u32) + 32);
        char_from_ascii_upper(c)
    } else {
        c
    }
}

fn char_from_ascii_upper(c: char) -> (r: char)
    requires
        'A' <= c <= 'Z',
    ensures
        r == ((c as u32) + 32) as char,
{
    if c == 'A' { 'a' } else if c == 'B' { 'b' } else if c == 'C' { 'c' } else if c == 'D' { 'd' }
    else if c == 'E' { 'e' } else if c == 'F' { 'f' } else if c == 'G' { 'g' } else if c == 'H' { 'h' }
    else if c == 'I' { 'i' } else if c == 'J' { 'j' } else if c == 'K' { 'k' } else if c == 'L' { 'l' }
    else if c == 'M' { 'm' } else if c == 'N' { 'n' } else if c == 'O' { 'o' } else if c == 'P' { 'p' }
    else if c == 'Q' { 'q' } else if c == 'R' { 'r' } else if c == 'S' { 's' } else if c == 'T' { 't' }
    else if c == 'U' { 'u' } else if c == 'V' { 'v' } else if c == 'W' { 'w' } else if c == 'X' { 'x' }
    else if c == 'Y' { 'y' } else { 'z' }
}

pub fn eq_ignore_ascii_case_chars(a: &[char], b: &[char]) -> (r: bool)
    ensures
        r == eq_ignore_ascii_case(a@, b@),
{
    if a.len() != b.len() {
        return false;
    }
    let mut i: usize = 0;
    while i < a.len()
        invariant
            i <= a.len() == b.len(),
            forall|j: int| 0 <= j < i ==> ascii_lower(a@[j]) == ascii_lower(b@[j]),
        decreases a.len() - i,
    {
        if ascii_lower_exec(a[i]) != ascii_lower_exec(b[i]) {
            return false;
        }
        i += 1;
    }
    true
}

// ──────────────────────────── lexicographic order ──────────────────────

/// `a < b` in the order of `str`'s `Ord`: by code points, a proper prefix first.
pub open spec fn lex_lt(a: Seq<char>, b: Seq<char>) -> bool
    decreases a.len(),
{
    if b.len() == 0 {
        false
    } else if a.len() == 0 {
        true
    } else if a[0] != b[0] {
        a[0] < b[0]
    } else {
        lex_lt(a.drop_first(), b.drop_first())
    }
}

pub fn lex_lt_chars(a: &[char], b: &[char]) -> (r: bool)
    ensures
        r == lex_lt(a@, b@),
{
    let mut i: usize = 0;
    proof {
        assert(a@.skip(0) =~= a@);
        assert(b@.skip(0) =~= b@);
    }
    while i < a.len() && i < b.len() && a[i] == b[i]
        invariant
            i <= a.len(),
            i <= b.len(),
            lex_lt(a@, b@) == lex_lt(a@.skip(i as int), b@.skip(i as int)),
        decreases a.len() - i,
    {
        proof {
            assert(a@.skip(i as int).drop_first() =~= a@.skip(i + 1));
            assert(b@.skip(i as int).drop_first() =~= b@.skip(i + 1));
        }
        i += 1;
    }
    if i == b.len() {
        false
    } else if i == a.len() {
        true
    } else {
        a[i] < b[i]
    }
}

pub proof fn lemma_lex_lt_irreflexive(a: Seq<char>)
    ensures
        !lex_lt(a, a),
    decreases a.len(),
{
    if a.len() > 0 {
        lemma_lex_lt_irreflexive(a.drop_first());
    }
}

pub proof fn lemma_lex_lt_total(a: Seq<char>, b: Seq<char>)
    ensures
        a == b || lex_lt(a, b) || lex_lt(b, a),
        !(lex_lt(a, b) && lex_lt(b, a)),
    decreases a.len(),
{
    if a.len() > 0 && b.len() > 0 && a[0] == b[0] {
        lemma_lex_lt_total(a.drop_first(), b.drop_first());
        if a.drop_first() == b.drop_first() {
            assert forall|i: int| 0 <= i < a.len() implies a[i] == b[i] by {
                if i > 0 {
                    assert(a[i] == a.drop_first()[i - 1]);
                    assert(b[i] == b.drop_first()[i - 1]);
                }
            }
            assert(a =~= b);
        }
    }
    if a.len() == 0 && b.len() == 0 {
        assert(a =~= b);
    }
}

pub proof fn lemma_lex_lt_transitive(a: Seq<char>, b: Seq<char>, c: Seq<char>)
    requires
        lex_lt(a, b),
        lex_lt(b, c),
    ensures
        lex_lt(a, c),
    decreases a.len(),
{
    if a.len() > 0 && b.len() > 0 && c.len() > 0 && a[0] == b[0] && b[0] == c[0] {
        lemma_lex_lt_transitive(a.drop_first(), b.drop_first(), c.drop_first());
    }
}

} // verus!
