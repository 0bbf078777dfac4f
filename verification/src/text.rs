//! Character-level building blocks shared by the parsers: ASCII case
//! folding, Unicode whitespace trimming, searching, and decimal numbers.
//!
//! Text is modelled as `Seq<char>`; `&str` and `String` are viewed through
//! their `@` view, which is the sequence of their characters.

use vstd::prelude::*;

verus! {

/// Rust's `char::is_whitespace`: the Unicode `White_Space` property.
pub open spec fn is_ws(c: char) -> bool {
    ||| ('\u{9}' <= c && c <= '\u{d}')
    ||| c == ' '
    ||| c == '\u{85}'
    ||| c == '\u{a0}'
    ||| c == '\u{1680}'
    ||| ('\u{2000}' <= c && c <= '\u{200a}')
    ||| c == '\u{2028}'
    ||| c == '\u{2029}'
    ||| c == '\u{202f}'
    ||| c == '\u{205f}'
    ||| c == '\u{3000}'
}

pub fn is_whitespace(c: char) -> (r: bool)
    ensures
        r == is_ws(c),
{
    ('\u{9}' <= c && c <= '\u{d}') || c == ' ' || c == '\u{85}' || c == '\u{a0}' || c == '\u{1680}'
        || ('\u{2000}' <= c && c <= '\u{200a}') || c == '\u{2028}' || c == '\u{2029}' || c
        == '\u{202f}' || c == '\u{205f}' || c == '\u{3000}'
}

pub open spec fn is_upper(c: char) -> bool {
    'A' <= c && c <= 'Z'
}

/// ASCII lower-casing of one character (other characters are unchanged).
pub open spec fn lower(c: char) -> char {
    if is_upper(c) {
        ((c as u32) + 32) as char
    } else {
        c
    }
}

/// ASCII upper-casing of one character.
pub open spec fn upper(c: char) -> char {
    if 'a' <= c && c <= 'z' {
        ((c as u32) - 32) as char
    } else {
        c
    }
}

pub open spec fn lower_seq(s: Seq<char>) -> Seq<char> {
    Seq::new(s.len(), |i: int| lower(s[i]))
}

pub open spec fn upper_seq(s: Seq<char>) -> Seq<char> {
    Seq::new(s.len(), |i: int| upper(s[i]))
}

/// `eq_ignore_ascii_case` of two texts.
pub open spec fn eq_ignore_case(a: Seq<char>, b: Seq<char>) -> bool {
    lower_seq(a) == lower_seq(b)
}

pub fn to_lower(c: char) -> (r: char)
    ensures
        r == lower(c),
{
    if 'A' <= c && c <= 'Z' {
        ((c as u8) + 32) as char
    } else {
        c
    }
}

pub fn to_upper(c: char) -> (r: char)
    ensures
        r == upper(c),
{
    if 'a' <= c && c <= 'z' {
        ((c as u8) - 32) as char
    } else {
        c
    }
}

pub fn is_digit_char(c: char) -> (r: bool)
    ensures
        r == is_digit(c),
{
    '0' <= c && c <= '9'
}

/// The characters of a string slice, one by one.
pub fn chars_of(s: &str) -> (v: Vec<char>)
    ensures
        v@ == s@,
{
    let mut v: Vec<char> = Vec::new();
    for c in it: s.chars()
        invariant
            v@ == it.seq().take(it.index() as int),
    {
        v.push(c);
    }
    v
}

/// Builds a `String` from its characters (`String: FromIterator<&char>`).
#[verifier::external_body]
pub fn string_of(v: &[char]) -> (s: String)
    ensures
        s@ == v@,
{
    v.iter().collect()
}

pub fn lower_vec(v: &Vec<char>) -> (r: Vec<char>)
    ensures
        r@ == lower_seq(v@),
{
    let mut r: Vec<char> = Vec::new();
    let mut i: usize = 0;
    while i < v.len()
        invariant
            i <= v.len(),
            r@ == lower_seq(v@.take(i as int)),
        decreases v.len() - i,
    {
        r.push(to_lower(v[i]));
        i = i + 1;
        assert(r@ =~= lower_seq(v@.take(i as int)));
    }
    assert(v@.take(i as int) =~= v@);
    r
}

pub fn upper_vec(v: &Vec<char>) -> (r: Vec<char>)
    ensures
        r@ == upper_seq(v@),
{
    let mut r: Vec<char> = Vec::new();
    let mut i: usize = 0;
    while i < v.len()
        invariant
            i <= v.len(),
            r@ == upper_seq(v@.take(i as int)),
        decreases v.len() - i,
    {
        r.push(to_upper(v[i]));
        i = i + 1;
        assert(r@ =~= upper_seq(v@.take(i as int)));
    }
    assert(v@.take(i as int) =~= v@);
    r
}

/// Copy of `v[lo..hi]`.
pub fn slice_vec(v: &Vec<char>, lo: usize, hi: usize) -> (r: Vec<char>)
    requires
        lo <= hi <= v.len(),
    ensures
        r@ == v@.subrange(lo as int, hi as int),
{
    let mut r: Vec<char> = Vec::new();
    let mut i: usize = lo;
    while i < hi
        invariant
            lo <= i <= hi <= v.len(),
            r@ == v@.subrange(lo as int, i as int),
        decreases hi - i,
    {
        r.push(v[i]);
        i = i + 1;
        assert(r@ =~= v@.subrange(lo as int, i as int));
    }
    r
}

/// Appends all of `src` to `dst`.
pub fn append_chars(dst: &mut Vec<char>, src: &Vec<char>)
    ensures
        final(dst)@ == old(dst)@ + src@,
{
    let mut i: usize = 0;
    while i < src.len()
        invariant
            i <= src.len(),
            dst@ == old(dst)@ + src@.take(i as int),
        decreases src.len() - i,
    {
        dst.push(src[i]);
        i = i + 1;
        assert(dst@ =~= old(dst)@ + src@.take(i as int));
    }
    assert(src@.take(i as int) =~= src@);
}

/// Exact equality of two character vectors.
pub fn vec_eq(a: &Vec<char>, b: &Vec<char>) -> (r: bool)
    ensures
        r == (a@ == b@),
{
    if a.len() != b.len() {
        return false;
    }
    let mut i: usize = 0;
    while i < a.len()
        invariant
            i <= a.len() == b.len(),
            forall|j: int| 0 <= j < i ==> a@[j] == b@[j],
        decreases a.len() - i,
    {
        if a[i] != b[i] {
            return false;
        }
        i = i + 1;
    }
    assert(a@ =~= b@);
    true
}

/// The character views of a sequence of character vectors.
pub open spec fn views(s: Seq<Vec<char>>) -> Seq<Seq<char>> {
    s.map_values(|v: Vec<char>| v@)
}

/// The character views of a sequence of strings.
pub open spec fn string_views(s: Seq<String>) -> Seq<Seq<char>> {
    s.map_values(|v: String| v@)
}

pub fn strings_of(v: &Vec<Vec<char>>) -> (r: Vec<String>)
    ensures
        string_views(r@) == views(v@),
{
    let mut r: Vec<String> = Vec::new();
    let mut i: usize = 0;
    while i < v.len()
        invariant
            i <= v.len(),
            r@.len() == i,
            string_views(r@) == views(v@.take(i as int)),
        decreases v.len() - i,
    {
        let s = string_of(v[i].as_slice());
        assert(s@ == v@[i as int]@);
        let ghost old_r = r@;
        r.push(s);
        i = i + 1;
        assert forall|j: int| 0 <= j < i implies #[trigger] string_views(r@)[j] == views(
            v@.take(i as int),
        )[j] by {
            if j < i - 1 {
                assert(string_views(old_r)[j] == views(v@.take(i - 1))[j]);
            }
        }
        assert(string_views(r@) =~= views(v@.take(i as int)));
    }
    assert(v@.take(i as int) =~= v@);
    r
}

/// Whether `t` is among the vectors of `out`.
pub fn contains_vec(out: &Vec<Vec<char>>, t: &Vec<char>) -> (r: bool)
    ensures
        r == views(out@).contains(t@),
{
    let mut i: usize = 0;
    while i < out.len()
        invariant
            i <= out.len(),
            forall|j: int| 0 <= j < i ==> out@[j]@ != t@,
        decreases out.len() - i,
    {
        if vec_eq(&out[i], t) {
            assert(views(out@)[i as int] == t@);
            return true;
        }
        i = i + 1;
    }
    assert forall|j: int| 0 <= j < views(out@).len() implies views(out@)[j] != t@ by {
        assert(views(out@)[j] == out@[j]@);
    }
    false
}

// ------------------------------------------------------------------
// Trimming
// ------------------------------------------------------------------

/// `str::trim_start`.
pub open spec fn trim_start(s: Seq<char>) -> Seq<char>
    decreases s.len(),
{
    if s.len() > 0 && is_ws(s[0]) {
        trim_start(s.drop_first())
    } else {
        s
    }
}

/// `str::trim_end`.
pub open spec fn trim_end(s: Seq<char>) -> Seq<char>
    decreases s.len(),
{
    if s.len() > 0 && is_ws(s.last()) {
        trim_end(s.drop_last())
    } else {
        s
    }
}

/// `str::trim`.
pub open spec fn trim(s: Seq<char>) -> Seq<char> {
    trim_end(trim_start(s))
}

/// Bounds of the trimmed part of `v[lo..hi]`.
pub fn trim_range(v: &Vec<char>, lo: usize, hi: usize) -> (r: (usize, usize))
    requires
        lo <= hi <= v.len(),
    ensures
        lo <= r.0 <= r.1 <= hi,
        v@.subrange(r.0 as int, r.1 as int) == trim(v@.subrange(lo as int, hi as int)),
        v@.subrange(r.0 as int, hi as int) == trim_start(v@.subrange(lo as int, hi as int)),
{
    let mut a: usize = lo;
    while a < hi && is_whitespace(v[a])
        invariant
            lo <= a <= hi <= v.len(),
            trim_start(v@.subrange(lo as int, hi as int)) == trim_start(
                v@.subrange(a as int, hi as int),
            ),
        decreases hi - a,
    {
        assert(v@.subrange(a as int, hi as int).drop_first() =~= v@.subrange(
            a + 1,
            hi as int,
        ));
        a = a + 1;
    }
    assert(trim_start(v@.subrange(a as int, hi as int)) == v@.subrange(a as int, hi as int));
    let mut b: usize = hi;
    while b > a && is_whitespace(v[b - 1])
        invariant
            lo <= a <= b <= hi <= v.len(),
            trim_end(v@.subrange(a as int, hi as int)) == trim_end(v@.subrange(a as int, b as int)),
        decreases b - a,
    {
        assert(v@.subrange(a as int, b as int).drop_last() =~= v@.subrange(a as int, b - 1));
        b = b - 1;
    }
    (a, b)
}

pub fn trim_vec(v: &Vec<char>) -> (r: Vec<char>)
    ensures
        r@ == trim(v@),
{
    let (a, b) = trim_range(v, 0, v.len());
    assert(v@.subrange(0, v@.len() as int) =~= v@);
    slice_vec(v, a, b)
}

// ------------------------------------------------------------------
// Searching
// ------------------------------------------------------------------

pub open spec fn occurs_at(h: Seq<char>, n: Seq<char>, i: int) -> bool {
    0 <= i && i + n.len() <= h.len() && h.subrange(i, i + n.len()) == n
}

/// Position of the first occurrence of `n` in `h` at or after `from`.
pub open spec fn first_occ(h: Seq<char>, n: Seq<char>, from: int) -> Option<int>
    decreases h.len() + 1 - from,
{
    if from < 0 || from + n.len() > h.len() {
        None
    } else if occurs_at(h, n, from) {
        Some(from)
    } else {
        first_occ(h, n, from + 1)
    }
}

pub proof fn lemma_first_occ(h: Seq<char>, n: Seq<char>, from: int)
    requires
        from >= 0,
    ensures
        first_occ(h, n, from) matches Some(i) ==> from <= i && occurs_at(h, n, i) && forall|j: int|
            from <= j < i ==> !occurs_at(h, n, j),
        first_occ(h, n, from) is None ==> forall|j: int| from <= j ==> !occurs_at(h, n, j),
    decreases h.len() + 1 - from,
{
    if from + n.len() > h.len() {
    } else if occurs_at(h, n, from) {
    } else {
        lemma_first_occ(h, n, from + 1);
    }
}

pub fn occurs_at_exec(h: &Vec<char>, n: &Vec<char>, i: usize) -> (r: bool)
    ensures
        r == occurs_at(h@, n@, i as int),
{
    if i > h.len() || n.len() > h.len() - i {
        return false;
    }
    let mut k: usize = 0;
    while k < n.len()
        invariant
            i + n.len() <= h.len(),
            k <= n.len(),
            forall|j: int| 0 <= j < k ==> h@[i + j] == n@[j],
        decreases n.len() - k,
    {
        if h[i + k] != n[k] {
            assert(h@.subrange(i as int, i + n.len())[k as int] != n@[k as int]);
            return false;
        }
        k = k + 1;
    }
    assert(h@.subrange(i as int, i + n.len()) =~= n@);
    true
}

/// `h[from..].find(n)`, as an absolute position.
pub fn find_from(h: &Vec<char>, n: &Vec<char>, from: usize) -> (r: Option<usize>)
    ensures
        r matches Some(i) ==> first_occ(h@, n@, from as int) == Some(i as int),
        r is None ==> first_occ(h@, n@, from as int) is None,
{
    let mut i: usize = from;
    if i > h.len() || n.len() > h.len() - i {
        return None;
    }
    if n.len() == 0 {
        assert(h@.subrange(i as int, i as int) =~= n@);
        return Some(i);
    }
    while i <= h.len() - n.len()
        invariant
            from <= i,
            1 <= n.len() <= h.len(),
            i <= h.len() - n.len() + 1,
            first_occ(h@, n@, from as int) == first_occ(h@, n@, i as int),
        decreases h.len() - i,
    {
        if occurs_at_exec(h, n, i) {
            return Some(i);
        }
        i = i + 1;
    }
    None
}

/// Last position in `s` holding `a` or `b`, or -1.
pub open spec fn last_pos2(s: Seq<char>, a: char, b: char) -> int
    decreases s.len(),
{
    if s.len() == 0 {
        -1
    } else if s.last() == a || s.last() == b {
        s.len() - 1
    } else {
        last_pos2(s.drop_last(), a, b)
    }
}

/// Whether the lower-cased text ends in `.` followed by `ext`.
pub open spec fn ends_with_ext(name: Seq<char>, ext: Seq<char>) -> bool {
    let l = lower_seq(name);
    &&& l.len() > ext.len()
    &&& l[l.len() - ext.len() - 1] == '.'
    &&& l.skip(l.len() - ext.len()) == ext
}

/// The text after the last `.` of a text that ends in `.` and a suffix
/// without `.` is that suffix.
pub proof fn lemma_after_last_dot(s: Seq<char>, e: Seq<char>)
    requires
        s.len() > e.len(),
        s[s.len() - e.len() - 1] == '.',
        s.skip(s.len() - e.len()) == e,
        !e.contains('.'),
    ensures
        after_last2(s, '.', '.') == e,
        s.contains('.'),
{
    lemma_last_pos2(s, '.', '.');
    let i = s.len() - e.len() - 1;
    let p = last_pos2(s, '.', '.');
    if p < i {
        assert(s[i] == '.');
    }
    if p > i {
        assert(s[p] == s.skip(i + 1)[p - i - 1]);
        assert(e[p - i - 1] == '.');
        assert(e.contains('.'));
    }
    assert(s.contains('.')) by {
        assert(s[i] == '.');
    }
}

/// Lower-casing keeps every `.` where it is and makes none.
pub proof fn lemma_lower_dot(c: char)
    ensures
        (lower(c) == '.') == (c == '.'),
{
}

/// Finding the last `.` commutes with lower-casing.
pub proof fn lemma_lower_after_last_dot(s: Seq<char>)
    ensures
        after_last2(lower_seq(s), '.', '.') == lower_seq(after_last2(s, '.', '.')),
        lower_seq(s).contains('.') ==> s.contains('.'),
    decreases s.len(),
{
    if s.len() > 0 {
        lemma_lower_after_last_dot(s.drop_last());
        assert(lower_seq(s).drop_last() =~= lower_seq(s.drop_last()));
        lemma_lower_dot(s.last());
        assert(lower_seq(s).last() == lower(s.last()));
    }
    assert(after_last2(lower_seq(s), '.', '.') =~= lower_seq(after_last2(s, '.', '.'))) by {
        lemma_lower_last_pos2(s);
        lemma_last_pos2(s, '.', '.');
        let p = last_pos2(s, '.', '.');
        let a = after_last2(lower_seq(s), '.', '.');
        let b = lower_seq(after_last2(s, '.', '.'));
        assert(a.len() == b.len());
        assert forall|i: int| 0 <= i < a.len() implies a[i] == b[i] by {
            assert(a[i] == lower_seq(s)[p + 1 + i]);
            assert(b[i] == lower(s.skip(p + 1)[i]));
        }
    }
    if lower_seq(s).contains('.') {
        let k = choose|k: int| 0 <= k < lower_seq(s).len() && lower_seq(s)[k] == '.';
        lemma_lower_dot(s[k]);
    }
}

proof fn lemma_lower_last_pos2(s: Seq<char>)
    ensures
        last_pos2(lower_seq(s), '.', '.') == last_pos2(s, '.', '.'),
    decreases s.len(),
{
    if s.len() > 0 {
        assert(lower_seq(s).drop_last() =~= lower_seq(s.drop_last()));
        lemma_lower_dot(s.last());
        lemma_lower_last_pos2(s.drop_last());
    }
}

/// First position in `s` holding `a` or `b`, or `s.len()`.
pub open spec fn first_pos2(s: Seq<char>, a: char, b: char) -> int
    decreases s.len(),
{
    if s.len() == 0 {
        0
    } else if s[0] == a || s[0] == b {
        0
    } else {
        1 + first_pos2(s.drop_first(), a, b)
    }
}

/// `s.rsplit([a, b]).next()`: the text after the last `a` or `b`.
pub open spec fn after_last2(s: Seq<char>, a: char, b: char) -> Seq<char> {
    s.skip(last_pos2(s, a, b) + 1)
}

/// `s.split([a, b]).next()`: the text before the first `a` or `b`.
pub open spec fn before_first2(s: Seq<char>, a: char, b: char) -> Seq<char> {
    s.take(first_pos2(s, a, b))
}

pub proof fn lemma_last_pos2(s: Seq<char>, a: char, b: char)
    ensures
        -1 <= last_pos2(s, a, b) < s.len(),
        last_pos2(s, a, b) >= 0 ==> (s[last_pos2(s, a, b)] == a || s[last_pos2(s, a, b)] == b),
        forall|j: int| last_pos2(s, a, b) < j < s.len() ==> s[j] != a && s[j] != b,
    decreases s.len(),
{
    if s.len() > 0 && !(s.last() == a || s.last() == b) {
        lemma_last_pos2(s.drop_last(), a, b);
        assert forall|j: int| last_pos2(s, a, b) < j < s.len() implies s[j] != a && s[j] != b by {
            if j < s.len() - 1 {
                assert(s[j] == s.drop_last()[j]);
            }
        }
    }
}

pub proof fn lemma_first_pos2(s: Seq<char>, a: char, b: char)
    ensures
        0 <= first_pos2(s, a, b) <= s.len(),
        first_pos2(s, a, b) < s.len() ==> (s[first_pos2(s, a, b)] == a || s[first_pos2(
            s,
            a,
            b,
        )] == b),
        forall|j: int| 0 <= j < first_pos2(s, a, b) ==> s[j] != a && s[j] != b,
    decreases s.len(),
{
    if s.len() > 0 && !(s[0] == a || s[0] == b) {
        lemma_first_pos2(s.drop_first(), a, b);
        assert forall|j: int| 0 <= j < first_pos2(s, a, b) implies s[j] != a && s[j] != b by {
            if j > 0 {
                assert(s[j] == s.drop_first()[j - 1]);
            }
        }
    }
}

/// Index just after the last `a` or `b` in `v[lo..hi]` (or `lo` when none).
pub fn after_last2_start(v: &Vec<char>, lo: usize, hi: usize, a: char, b: char) -> (r: usize)
    requires
        lo <= hi <= v.len(),
    ensures
        lo <= r <= hi,
        r == lo + last_pos2(v@.subrange(lo as int, hi as int), a, b) + 1,
{
    let mut i: usize = hi;
    while i > lo && v[i - 1] != a && v[i - 1] != b
        invariant
            lo <= i <= hi <= v.len(),
            last_pos2(v@.subrange(lo as int, hi as int), a, b) == last_pos2(
                v@.subrange(lo as int, i as int),
                a,
                b,
            ),
        decreases i - lo,
    {
        assert(v@.subrange(lo as int, i as int).drop_last() =~= v@.subrange(lo as int, i - 1));
        i = i - 1;
    }
    i
}

/// Index of the first `a` or `b` in `v[lo..hi]` (or `hi` when none).
pub fn before_first2_end(v: &Vec<char>, lo: usize, hi: usize, a: char, b: char) -> (r: usize)
    requires
        lo <= hi <= v.len(),
    ensures
        lo <= r <= hi,
        r == lo + first_pos2(v@.subrange(lo as int, hi as int), a, b),
{
    let mut i: usize = lo;
    while i < hi && v[i] != a && v[i] != b
        invariant
            lo <= i <= hi <= v.len(),
            first_pos2(v@.subrange(lo as int, hi as int), a, b) == (i - lo) + first_pos2(
                v@.subrange(i as int, hi as int),
                a,
                b,
            ),
        decreases hi - i,
    {
        assert(v@.subrange(i as int, hi as int).drop_first() =~= v@.subrange(i + 1, hi as int));
        i = i + 1;
    }
    i
}

/// `s.contains(c)` for a single character.
pub fn contains_char(v: &Vec<char>, c: char) -> (r: bool)
    ensures
        r == v@.contains(c),
{
    let mut i: usize = 0;
    while i < v.len()
        invariant
            i <= v.len(),
            forall|j: int| 0 <= j < i ==> v@[j] != c,
        decreases v.len() - i,
    {
        if v[i] == c {
            return true;
        }
        i = i + 1;
    }
    false
}

/// Whether the literal `lit` occurs in `v`.
pub fn contains_vec_sub(v: &Vec<char>, lit: &str) -> (r: bool)
    ensures
        r == (first_occ(v@, lit@, 0) is Some),
{
    let n = chars_of(lit);
    find_from(v, &n, 0).is_some()
}

pub fn starts_with(v: &Vec<char>, p: &Vec<char>) -> (r: bool)
    ensures
        r == (p@.len() <= v@.len() && v@.take(p@.len() as int) == p@),
{
    let r = occurs_at_exec(v, p, 0);
    assert(v@.subrange(0, p@.len() as int) =~= v@.take(p@.len() as int));
    r
}

pub fn ends_with(v: &Vec<char>, p: &Vec<char>) -> (r: bool)
    ensures
        r == (p@.len() <= v@.len() && v@.skip(v@.len() - p@.len()) == p@),
{
    if p.len() > v.len() {
        return false;
    }
    let r = occurs_at_exec(v, p, v.len() - p.len());
    assert(v@.subrange(v@.len() - p@.len(), v@.len() as int) =~= v@.skip(
        v@.len() - p@.len(),
    ));
    r
}

// ------------------------------------------------------------------
// Decimal numbers
// ------------------------------------------------------------------

pub open spec fn is_digit(c: char) -> bool {
    '0' <= c && c <= '9'
}

pub open spec fn all_digits(s: Seq<char>) -> bool {
    forall|i: int| 0 <= i < s.len() ==> is_digit(#[trigger] s[i])
}

pub open spec fn digit_val(c: char) -> nat {
    ((c as u32) - ('0' as u32)) as nat
}

pub open spec fn digit_char(d: nat) -> char {
    (d + ('0' as u32)) as char
}

/// Value of a string of decimal digits.
pub open spec fn digits_value(s: Seq<char>) -> nat
    decreases s.len(),
{
    if s.len() == 0 {
        0
    } else {
        digits_value(s.drop_last()) * 10 + digit_val(s.last())
    }
}

/// `u64::from_str`: an optional `+`, then one or more digits, no overflow.
pub open spec fn parse_u64(s: Seq<char>) -> Option<u64> {
    if s.len() > 0 && s[0] == '+' {
        parse_digits(s.drop_first())
    } else {
        parse_digits(s)
    }
}

/// One or more decimal digits whose value fits in a `u64`.
pub open spec fn parse_digits(d: Seq<char>) -> Option<u64> {
    if d.len() > 0 && all_digits(d) && digits_value(d) <= u64::MAX {
        Some(digits_value(d) as u64)
    } else {
        None
    }
}

/// Decimal text of `n`, without leading zeros.
pub open spec fn decimal(n: nat) -> Seq<char>
    decreases n,
{
    if n < 10 {
        seq![digit_char(n)]
    } else {
        decimal(n / 10).push(digit_char(n % 10))
    }
}

/// `format!("{:0width$}", n)`.
pub open spec fn zero_pad(s: Seq<char>, width: nat) -> Seq<char> {
    if s.len() >= width {
        s
    } else {
        Seq::new((width - s.len()) as nat, |i: int| '0') + s
    }
}

pub proof fn lemma_digits_value_prefix(s: Seq<char>, k: int)
    requires
        0 <= k <= s.len(),
    ensures
        digits_value(s.take(k)) <= digits_value(s),
    decreases s.len() - k,
{
    if k < s.len() {
        lemma_digits_value_prefix(s, k + 1);
        assert(s.take(k + 1).drop_last() =~= s.take(k));
        let x = digits_value(s.take(k));
        let d = digit_val(s.take(k + 1).last());
        assert(digits_value(s.take(k + 1)) == x * 10 + d);
        assert(x * 10 + d >= x) by (nonlinear_arith);
    } else {
        assert(s.take(k) =~= s);
    }
}

pub proof fn lemma_decimal_digits(n: nat)
    ensures
        all_digits(decimal(n)),
        decimal(n).len() >= 1,
        decimal(n)[0] != '0' || n == 0,
    decreases n,
{
    if n >= 10 {
        lemma_decimal_digits(n / 10);
    }
}

/// Parses `v[lo..hi]` as a `u64` the way `str::parse::<u64>` does.
pub fn parse_u64_range(v: &Vec<char>, lo: usize, hi: usize) -> (r: Option<u64>)
    requires
        lo <= hi <= v.len(),
    ensures
        r == parse_u64(v@.subrange(lo as int, hi as int)),
{
    let ghost s = v@.subrange(lo as int, hi as int);
    let mut start: usize = lo;
    if lo < hi && v[lo] == '+' {
        start = lo + 1;
        assert(s.drop_first() =~= v@.subrange(start as int, hi as int));
    } else {
        assert(s =~= v@.subrange(start as int, hi as int));
    }
    let ghost d = v@.subrange(start as int, hi as int);
    if start >= hi {
        return None;
    }
    let mut acc: u64 = 0;
    let mut i: usize = start;
    while i < hi
        invariant
            lo <= start <= i <= hi <= v.len(),
            d == v@.subrange(start as int, hi as int),
            parse_u64(v@.subrange(lo as int, hi as int)) == parse_digits(d),
            all_digits(d.take(i - start)),
            acc == digits_value(d.take(i - start)),
        decreases hi - i,
    {
        let c = v[i];
        assert(d[i - start] == c);
        if !is_digit_char(c) {
            assert(!is_digit(d[i - start]));
            return None;
        }
        let dv: u64 = ((c as u32) - ('0' as u32)) as u64;
        assert(d.take(i - start + 1).drop_last() =~= d.take(i - start));
        assert(digits_value(d.take(i - start + 1)) == acc * 10 + dv);
        if acc > (u64::MAX - dv) / 10 {
            proof {
                assert(acc * 10 + dv > u64::MAX) by (nonlinear_arith)
                    requires
                        acc > (u64::MAX - dv) / 10,
                        dv <= 9,
                ;
                lemma_digits_value_prefix(d, i - start + 1);
                assert(digits_value(d) > u64::MAX);
            }
            return None;
        }
        acc = acc * 10 + dv;
        i = i + 1;
        assert forall|j: int| 0 <= j < i - start implies is_digit(#[trigger] d.take(i - start)[j]) by {
            if j < i - start - 1 {
                assert(d.take(i - start)[j] == d.take(i - start - 1)[j]);
            }
        }
    }
    assert(d.take(i - start) =~= d);
    Some(acc)
}

/// Appends the decimal text of `n`.
pub fn push_decimal(out: &mut Vec<char>, n: u64)
    ensures
        final(out)@ == old(out)@ + decimal(n as nat),
    decreases n,
{
    if n >= 10 {
        push_decimal(out, n / 10);
    }
    let d: u8 = (n % 10) as u8;
    let c: char = (d + 48) as char;
    assert(c == digit_char((n % 10) as nat));
    out.push(c);
    proof {
        if n >= 10 {
            assert(old(out)@ + decimal(n as nat) =~= old(out)@ + decimal((n / 10) as nat) + seq![c]);
        } else {
            assert(old(out)@ + decimal(n as nat) =~= old(out)@ + seq![c]);
        }
    }
}

pub fn decimal_vec(n: u64) -> (r: Vec<char>)
    ensures
        r@ == decimal(n as nat),
{
    let mut r: Vec<char> = Vec::new();
    push_decimal(&mut r, n);
    assert(r@ =~= decimal(n as nat));
    r
}

/// Decimal text of `n`, left-padded with zeros to `width` characters.
pub fn padded_decimal_vec(n: u64, width: usize) -> (r: Vec<char>)
    ensures
        r@ == zero_pad(decimal(n as nat), width as nat),
{
    let digits = decimal_vec(n);
    if digits.len() >= width {
        return digits;
    }
    let mut r: Vec<char> = Vec::new();
    let mut k: usize = 0;
    let pad: usize = width - digits.len();
    while k < pad
        invariant
            k <= pad,
            r@ == Seq::new(k as nat, |i: int| '0'),
        decreases pad - k,
    {
        r.push('0');
        k = k + 1;
        assert(r@ =~= Seq::new(k as nat, |i: int| '0'));
    }
    append_chars(&mut r, &digits);
    r
}

} // verus!
