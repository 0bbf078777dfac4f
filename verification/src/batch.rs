//! Batch input: pulling http(s) URLs out of free text, expanding numeric
//! wildcards such as `f[01-12].zip`, and turning a multi-line batch into the
//! final list of URLs.

use vstd::prelude::*;
use crate::text::{
    chars_of, contains_vec, decimal, first_pos2, is_whitespace, is_ws, lemma_decimal_digits,
    lemma_first_pos2, parse_u64, slice_vec, before_first2_end, parse_u64_range, padded_decimal_vec,
    decimal_vec, append_chars, trim_vec, starts_with, string_views, zero_pad,
    strings_of, trim, trim_range, views,
};

verus! {

// ------------------------------------------------------------------
// URL recognition
// ------------------------------------------------------------------

/// Bytes taken by one character in UTF-8 (`char::len_utf8`).
pub open spec fn char_utf8_len(c: char) -> nat {
    if (c as u32) < 0x80 {
        1
    } else if (c as u32) < 0x800 {
        2
    } else if (c as u32) < 0x10000 {
        3
    } else {
        4
    }
}

/// Length in bytes of the UTF-8 encoding (`str::len`).
pub open spec fn utf8_len(s: Seq<char>) -> nat
    decreases s.len(),
{
    if s.len() == 0 {
        0
    } else {
        utf8_len(s.drop_last()) + char_utf8_len(s.last())
    }
}

pub open spec fn has_prefix(s: Seq<char>, p: Seq<char>) -> bool {
    p.len() <= s.len() && s.take(p.len() as int) == p
}

pub open spec fn http_prefix() -> Seq<char> {
    seq!['h', 't', 't', 'p', ':', '/', '/']
}

pub open spec fn https_prefix() -> Seq<char> {
    seq!['h', 't', 't', 'p', 's', ':', '/', '/']
}

/// An http(s) URL of more than ten bytes.
pub open spec fn is_url(s: Seq<char>) -> bool {
    (has_prefix(s, http_prefix()) || has_prefix(s, https_prefix())) && utf8_len(s) > 10
}

proof fn lemma_utf8_len_prefix(s: Seq<char>, k: int)
    requires
        0 <= k <= s.len(),
    ensures
        utf8_len(s.take(k)) <= utf8_len(s),
    decreases s.len() - k,
{
    if k < s.len() {
        lemma_utf8_len_prefix(s, k + 1);
        assert(s.take(k + 1).drop_last() =~= s.take(k));
    } else {
        assert(s.take(k) =~= s);
    }
}

fn char_len_utf8(c: char) -> (r: usize)
    ensures
        r == char_utf8_len(c),
{
    let u: u32 = c as u32;
    if u < 0x80 {
        1
    } else if u < 0x800 {
        2
    } else if u < 0x10000 {
        3
    } else {
        4
    }
}

/// Whether the UTF-8 encoding of `v` is longer than `limit` bytes.
fn utf8_len_exceeds(v: &Vec<char>, limit: usize) -> (r: bool)
    requires
        limit < usize::MAX - 4,
    ensures
        r == (utf8_len(v@) > limit),
{
    let mut acc: usize = 0;
    let mut i: usize = 0;
    while i < v.len()
        invariant
            i <= v.len(),
            limit < usize::MAX - 4,
            acc == utf8_len(v@.take(i as int)),
            acc <= limit,
        decreases v.len() - i,
    {
        assert(v@.take(i + 1).drop_last() =~= v@.take(i as int));
        acc = acc + char_len_utf8(v[i]);
        i = i + 1;
        if acc > limit {
            proof {
                lemma_utf8_len_prefix(v@, i as int);
            }
            return true;
        }
    }
    assert(v@.take(i as int) =~= v@);
    false
}

fn http_vec() -> (r: Vec<char>)
    ensures
        r@ == http_prefix(),
{
    let r = vec!['h', 't', 't', 'p', ':', '/', '/'];
    assert(r@ =~= http_prefix());
    r
}

fn https_vec() -> (r: Vec<char>)
    ensures
        r@ == https_prefix(),
{
    let r = vec!['h', 't', 't', 'p', 's', ':', '/', '/'];
    assert(r@ =~= https_prefix());
    r
}

pub fn is_url_chars(v: &Vec<char>) -> (r: bool)
    ensures
        r == is_url(v@),
{
    let p1 = http_vec();
    let p2 = https_vec();
    (starts_with(v, &p1) || starts_with(v, &p2)) && utf8_len_exceeds(v, 10)
}


// ------------------------------------------------------------------
// Collecting without duplicates
// ------------------------------------------------------------------

/// Adds `u` to `acc` when it is a URL not already present.
pub open spec fn add_new(acc: Seq<Seq<char>>, u: Seq<char>) -> Seq<Seq<char>> {
    if is_url(u) && !acc.contains(u) {
        acc.push(u)
    } else {
        acc
    }
}

pub proof fn lemma_add_new_no_dups(acc: Seq<Seq<char>>, u: Seq<char>)
    requires
        acc.no_duplicates(),
        forall|i: int| 0 <= i < acc.len() ==> is_url(#[trigger] acc[i]),
    ensures
        add_new(acc, u).no_duplicates(),
        forall|i: int| 0 <= i < add_new(acc, u).len() ==> is_url(#[trigger] add_new(acc, u)[i]),
{
    if is_url(u) && !acc.contains(u) {
        let r = acc.push(u);
        assert forall|i: int, j: int| 0 <= i < r.len() && 0 <= j < r.len() && i != j implies r[i]
            != r[j] by {
            if i < acc.len() && j < acc.len() {
            } else if i == acc.len() {
                assert(acc[j] == r[j]);
            } else {
                assert(acc[i] == r[i]);
            }
        }
        assert forall|i: int| 0 <= i < r.len() implies is_url(#[trigger] r[i]) by {
            if i < acc.len() {
                assert(r[i] == acc[i]);
            }
        }
    }
}

/// Pushes `u` onto `out` when it is a URL not already in `out`.
fn push_new(out: &mut Vec<Vec<char>>, u: Vec<char>)
    ensures
        views(final(out)@) == add_new(views(old(out)@), u@),
{
    let ghost before = views(out@);
    if is_url_chars(&u) && !contains_vec(out, &u) {
        let ghost uv = u@;
        out.push(u);
        assert(views(out@) =~= before.push(uv));
    } else {
        assert(views(out@) == before);
    }
}

// ------------------------------------------------------------------
// URLs in free text
// ------------------------------------------------------------------

/// Characters that end a token when scanning free text for URLs.
pub open spec fn is_token_sep(c: char) -> bool {
    is_ws(c) || c == '"' || c == '\'' || c == '<' || c == '>' || c == '(' || c == ')'
}

fn is_token_sep_exec(c: char) -> (r: bool)
    ensures
        r == is_token_sep(c),
{
    is_whitespace(c) || c == '"' || c == '\'' || c == '<' || c == '>' || c == '(' || c == ')'
}

pub open spec fn first_token_sep(s: Seq<char>) -> int
    decreases s.len(),
{
    if s.len() == 0 {
        0
    } else if is_token_sep(s[0]) {
        0
    } else {
        1 + first_token_sep(s.drop_first())
    }
}

proof fn lemma_first_token_sep(s: Seq<char>)
    ensures
        0 <= first_token_sep(s) <= s.len(),
        first_token_sep(s) < s.len() ==> is_token_sep(s[first_token_sep(s)]),
    decreases s.len(),
{
    if s.len() > 0 && !is_token_sep(s[0]) {
        lemma_first_token_sep(s.drop_first());
    }
}

/// `s.split(is_token_sep)`: the pieces between separators, empty ones included.
pub open spec fn split_tokens(s: Seq<char>) -> Seq<Seq<char>>
    decreases s.len(),
{
    let p = first_token_sep(s);
    if 0 <= p < s.len() {
        seq![s.take(p)] + split_tokens(s.skip(p + 1))
    } else {
        seq![s]
    }
}

/// Characters stripped from the end of a token (`trim_end_matches`).
pub open spec fn is_trailing_punct(c: char) -> bool {
    c == '.' || c == ',' || c == ';'
}

pub open spec fn strip_trailing_punct(s: Seq<char>) -> Seq<char>
    decreases s.len(),
{
    if s.len() > 0 && is_trailing_punct(s.last()) {
        strip_trailing_punct(s.drop_last())
    } else {
        s
    }
}

/// A token as it is matched against URL syntax.
pub open spec fn clean_token(t: Seq<char>) -> Seq<char> {
    strip_trailing_punct(trim(t))
}

pub open spec fn collect_tokens(toks: Seq<Seq<char>>) -> Seq<Seq<char>>
    decreases toks.len(),
{
    if toks.len() == 0 {
        seq![]
    } else {
        add_new(collect_tokens(toks.drop_last()), clean_token(toks.last()))
    }
}

/// The http(s) URLs of a text, in order of first appearance, each once.
pub open spec fn extract_urls_spec(text: Seq<char>) -> Seq<Seq<char>> {
    collect_tokens(split_tokens(text))
}

fn clean_token_exec(v: &Vec<char>, lo: usize, hi: usize) -> (r: Vec<char>)
    requires
        lo <= hi <= v.len(),
    ensures
        r@ == clean_token(v@.subrange(lo as int, hi as int)),
{
    let (a, b) = trim_range(v, lo, hi);
    let mut e: usize = b;
    while e > a && (v[e - 1] == '.' || v[e - 1] == ',' || v[e - 1] == ';')
        invariant
            lo <= a <= e <= b <= hi <= v.len(),
            strip_trailing_punct(v@.subrange(a as int, b as int)) == strip_trailing_punct(
                v@.subrange(a as int, e as int),
            ),
        decreases e - a,
    {
        assert(v@.subrange(a as int, e as int).drop_last() =~= v@.subrange(a as int, e - 1));
        e = e - 1;
    }
    slice_vec(v, a, e)
}

proof fn lemma_collect_tokens_push(toks: Seq<Seq<char>>, t: Seq<char>)
    ensures
        collect_tokens(toks.push(t)) == add_new(collect_tokens(toks), clean_token(t)),
{
    assert(toks.push(t).drop_last() =~= toks);
}

/// All http(s) URLs in a free text (tokens split at whitespace, quotes,
/// angle brackets and parentheses; trailing `.`, `,` and `;` dropped), in
/// order of first appearance and without duplicates.
pub fn extract_urls(text: &str) -> (r: Vec<String>)
    ensures
        string_views(r@) == extract_urls_spec(text@),
{
    let v = chars_of(text);
    let mut out: Vec<Vec<char>> = Vec::new();
    let ghost mut done: Seq<Seq<char>> = seq![];
    let mut start: usize = 0;
    let mut i: usize = 0;
    proof {
        assert(v@.skip(0) =~= v@);
        assert(seq![] + split_tokens(v@) =~= split_tokens(v@));
        lemma_first_token_sep(v@);
    }
    while i < v.len()
        invariant
            start <= i <= v.len(),
            done + split_tokens(v@.skip(start as int)) == split_tokens(v@),
            views(out@) == collect_tokens(done),
            first_token_sep(v@.skip(start as int)) >= i - start,
            forall|j: int| start <= j < i ==> !is_token_sep(v@[j]),
        decreases v.len() - i,
    {
        if is_token_sep_exec(v[i]) {
            let ghost rest = v@.skip(start as int);
            proof {
                lemma_first_token_sep(rest);
                assert forall|j: int| 0 <= j < i - start implies !is_token_sep(rest[j]) by {
                    assert(rest[j] == v@[start + j]);
                }
                lemma_first_sep_is(rest, i - start);
                assert(rest.take(i - start) =~= v@.subrange(start as int, i as int));
                assert(rest.skip(i - start + 1) =~= v@.skip(i + 1));
                assert(split_tokens(rest) == seq![rest.take(i - start)] + split_tokens(
                    rest.skip(i - start + 1),
                ));
            }
            let tok = clean_token_exec(&v, start, i);
            push_new(&mut out, tok);
            proof {
                lemma_collect_tokens_push(done, v@.subrange(start as int, i as int));
                let old_done = done;
                done = done.push(v@.subrange(start as int, i as int));
                assert(done + split_tokens(v@.skip(i + 1)) =~= old_done + split_tokens(
                    v@.skip(start as int),
                ));
            }
            proof {
                lemma_first_token_sep(v@.skip(i + 1));
            }
            start = i + 1;
            i = i + 1;
        } else {
            proof {
                let rest = v@.skip(start as int);
                assert forall|j: int| 0 <= j <= i - start implies !is_token_sep(rest[j]) by {
                    assert(rest[j] == v@[start + j]);
                }
                lemma_first_token_sep_step(rest, i - start);
            }
            i = i + 1;
        }
    }
    proof {
        let rest = v@.skip(start as int);
        lemma_first_token_sep(rest);
        assert(rest =~= v@.subrange(start as int, v@.len() as int));
        assert(split_tokens(rest) == seq![rest]);
        lemma_collect_tokens_push(done, rest);
    }
    let tok = clean_token_exec(&v, start, v.len());
    push_new(&mut out, tok);
    proof {
        let rest = v@.skip(start as int);
        assert(done + split_tokens(rest) =~= done.push(rest));
    }
    strings_of(&out)
}

/// When no separator occurs in `s[..k]` and `s[k]` is one, the first
/// separator is at `k`.
proof fn lemma_first_sep_is(s: Seq<char>, k: int)
    requires
        0 <= k < s.len(),
        is_token_sep(s[k]),
        forall|j: int| 0 <= j < k ==> !is_token_sep(s[j]),
    ensures
        first_token_sep(s) == k,
    decreases k,
{
    if k > 0 {
        assert forall|j: int| 0 <= j < k - 1 implies !is_token_sep(s.drop_first()[j]) by {
            assert(s.drop_first()[j] == s[j + 1]);
        }
        lemma_first_sep_is(s.drop_first(), k - 1);
    }
}

/// When no separator occurs in `s[..=k]`, the first one lies beyond `k`.
proof fn lemma_first_token_sep_step(s: Seq<char>, k: int)
    requires
        0 <= k < s.len(),
        forall|j: int| 0 <= j <= k ==> !is_token_sep(s[j]),
    ensures
        first_token_sep(s) >= k + 1,
    decreases k,
{
    lemma_first_token_sep(s.drop_first());
    if k > 0 {
        assert forall|j: int| 0 <= j <= k - 1 implies !is_token_sep(s.drop_first()[j]) by {
            assert(s.drop_first()[j] == s[j + 1]);
        }
        lemma_first_token_sep_step(s.drop_first(), k - 1);
    }
}

// ------------------------------------------------------------------
// Numeric wildcards
// ------------------------------------------------------------------

/// Widest numeric range that one `[a-b]` wildcard may span.
pub const MAX_RANGE_SPAN: u64 = 100_000;

/// Number of `[` characters in a text.
pub open spec fn count_open(s: Seq<char>) -> nat
    decreases s.len(),
{
    if s.len() == 0 {
        0
    } else {
        count_open(s.drop_last()) + if s.last() == '[' {
            1nat
        } else {
            0nat
        }
    }
}

pub proof fn lemma_count_open_add(a: Seq<char>, b: Seq<char>)
    ensures
        count_open(a + b) == count_open(a) + count_open(b),
    decreases b.len(),
{
    if b.len() == 0 {
        assert(a + b =~= a);
    } else {
        lemma_count_open_add(a, b.drop_last());
        assert((a + b).drop_last() =~= a + b.drop_last());
    }
}

pub proof fn lemma_count_open_none(s: Seq<char>)
    requires
        forall|i: int| 0 <= i < s.len() ==> s[i] != '[',
    ensures
        count_open(s) == 0,
    decreases s.len(),
{
    if s.len() > 0 {
        lemma_count_open_none(s.drop_last());
    }
}

/// The `[a-b]` group opened by the `[` at `open` (it ends at the next `]`),
/// when it is a usable numeric range: the text before and after the group,
/// the bounds, whether numbers are zero-padded, and the padding width.
pub open spec fn group_at(line: Seq<char>, open: int) -> Option<(Seq<char>, Seq<char>, u64, u64, bool, nat)> {
    let close = open + first_pos2(line.skip(open), ']', ']');
    if close >= line.len() {
        None
    } else {
        let inner = line.subrange(open + 1, close);
        let dash = first_pos2(inner, '-', '-');
        if dash >= inner.len() {
            None
        } else {
            let a = inner.take(dash);
            let b = inner.skip(dash + 1);
            match (parse_u64(a), parse_u64(b)) {
                (Some(start), Some(end)) => if start <= end && end - start < MAX_RANGE_SPAN {
                    Some((line.take(open), line.skip(close + 1), start, end, a.len() > 1 && a[0] == '0', a.len()))
                } else {
                    None
                },
                _ => None,
            }
        }
    }
}

/// Whether a usable numeric group opens at `p`.
pub open spec fn opens_group(line: Seq<char>, p: int) -> bool {
    0 <= p < line.len() && line[p] == '[' && group_at(line, p) is Some
}

/// Position of the first `[` at or after `k` that opens a usable numeric
/// group.
pub open spec fn group_pos(line: Seq<char>, k: int) -> Option<int>
    decreases line.len() - k,
{
    if k < 0 || k >= line.len() {
        None
    } else if opens_group(line, k) {
        Some(k)
    } else {
        group_pos(line, k + 1)
    }
}

pub proof fn lemma_group_pos(line: Seq<char>, k: int)
    requires
        0 <= k,
    ensures
        group_pos(line, k) matches Some(p) ==> k <= p && opens_group(line, p) && forall|q: int|
            k <= q < p ==> !opens_group(line, q),
        group_pos(line, k) is None ==> forall|q: int| k <= q ==> !opens_group(line, q),
    decreases line.len() - k,
{
    if k < line.len() && !opens_group(line, k) {
        lemma_group_pos(line, k + 1);
    }
}

/// The first usable numeric group of a line (see `group_at`); groups before
/// it that are not numeric ranges are left as they are.
pub open spec fn range_pattern(line: Seq<char>) -> Option<(Seq<char>, Seq<char>, u64, u64, bool, nat)> {
    match group_pos(line, 0) {
        Some(p) => group_at(line, p),
        None => None,
    }
}

/// The text that replaces the group for the number `n`.
pub open spec fn range_number(n: u64, pad: bool, width: nat) -> Seq<char> {
    if pad {
        zero_pad(decimal(n as nat), width)
    } else {
        decimal(n as nat)
    }
}

pub proof fn lemma_range_number_no_open(n: u64, pad: bool, width: nat)
    ensures
        count_open(range_number(n, pad, width)) == 0,
{
    let num = range_number(n, pad, width);
    lemma_decimal_digits(n as nat);
    assert forall|i: int| 0 <= i < num.len() implies num[i] != '[' by {
        if pad && decimal(n as nat).len() < width {
            let k = width - decimal(n as nat).len();
            if i >= k {
                assert(num[i] == decimal(n as nat)[i - k]);
            }
        }
    }
    lemma_count_open_none(num);
}

pub proof fn lemma_count_open_fill(pre: Seq<char>, post: Seq<char>, n: u64, pad: bool, width: nat)
    ensures
        count_open(pre + range_number(n, pad, width) + post) == count_open(pre) + count_open(post),
{
    lemma_range_number_no_open(n, pad, width);
    lemma_count_open_add(pre + range_number(n, pad, width), post);
    lemma_count_open_add(pre, range_number(n, pad, width));
}

pub proof fn lemma_range_pattern_shrinks(line: Seq<char>)
    requires
        range_pattern(line) is Some,
    ensures
        ({
            let (pre, post, start, end, pad, width) = range_pattern(line)->0;
            &&& start <= end
            &&& count_open(line) >= count_open(pre) + count_open(post) + 1
        }),
{
    lemma_group_pos(line, 0);
    let open = group_pos(line, 0)->0;
    lemma_first_pos2(line.skip(open), ']', ']');
    let close = open + first_pos2(line.skip(open), ']', ']');
    let (pre, post, start, end, pad, width) = range_pattern(line)->0;
    let g = line.subrange(open, close + 1);
    assert(line =~= pre + g + post);
    lemma_count_open_add(pre + g, post);
    lemma_count_open_add(pre, g);
    assert(g =~= seq!['['] + g.drop_first());
    lemma_count_open_add(seq!['['], g.drop_first());
    assert(count_open(seq!['[']) == 1) by {
        assert(seq!['['].drop_last() =~= Seq::<char>::empty());
        assert(count_open(Seq::<char>::empty()) == 0);
        assert(seq!['['].last() == '[');
    }
}

/// Every line that a numeric wildcard stands for: the first `[a-b]` group
/// that is a usable numeric range (see `range_pattern`) is replaced by each
/// number from `a` to `b` (zero-padded to the width of
/// `a` when `a` has a leading zero), and each result is expanded again, so
/// several groups multiply out. A line without a usable group stands for
/// itself.
pub open spec fn expand(line: Seq<char>) -> Seq<Seq<char>>
    decreases count_open(line), 18446744073709551616int * 2,
{
    match range_pattern(line) {
        Some((pre, post, start, end, pad, width)) => {
            proof {
                lemma_range_pattern_shrinks(line);
            }
            expand_from(pre, post, start, end, pad, width)
        },
        None => seq![line],
    }
}

/// The expansions for the numbers `n..=end`, in order.
pub open spec fn expand_from(
    pre: Seq<char>,
    post: Seq<char>,
    n: u64,
    end: u64,
    pad: bool,
    width: nat,
) -> Seq<Seq<char>>
    decreases count_open(pre) + count_open(post) + 1, end - n,
{
    if n > end {
        seq![]
    } else {
        proof {
            lemma_count_open_fill(pre, post, n, pad, width);
        }
        let here = expand(pre + range_number(n, pad, width) + post);
        if n == end {
            here
        } else {
            here + expand_from(pre, post, (n + 1) as u64, end, pad, width)
        }
    }
}

/// The numeric group opened by the `[` at `open`, as positions and values.
fn group_at_exec(v: &Vec<char>, open: usize) -> (r: Option<(usize, u64, u64, bool, usize)>)
    requires
        open < v@.len(),
        v@[open as int] == '[',
    ensures
        match r {
            Some((close, start, end, pad, width)) => open < close < v@.len() && group_at(v@, open as int)
                == Some((v@.take(open as int), v@.skip(close + 1), start, end, pad, width as nat)),
            None => group_at(v@, open as int) is None,
        },
{
    let close = before_first2_end(v, open, v.len(), ']', ']');
    proof {
        let rest = v@.skip(open as int);
        assert(v@.subrange(open as int, v@.len() as int) =~= rest);
        lemma_first_pos2(rest, ']', ']');
        assert(rest[0] == '[');
    }
    if close >= v.len() {
        return None;
    }
    let dash = before_first2_end(v, open + 1, close, '-', '-');
    if dash >= close {
        return None;
    }
    let ghost inner = v@.subrange(open + 1, close as int);
    assert(inner.take(dash - open - 1) =~= v@.subrange(open + 1, dash as int));
    assert(inner.skip(dash - open) =~= v@.subrange(dash + 1, close as int));
    let a = parse_u64_range(v, open + 1, dash);
    let b = parse_u64_range(v, dash + 1, close);
    match (a, b) {
        (Some(start), Some(end)) => {
            if start <= end && end - start < MAX_RANGE_SPAN {
                let width: usize = dash - (open + 1);
                let pad: bool = width > 1 && v[open + 1] == '0';
                proof {
                    if width > 1 {
                        assert(v@.subrange(open + 1, dash as int)[0] == v@[open + 1]);
                    }
                }
                Some((close, start, end, pad, width))
            } else {
                None
            }
        },
        _ => None,
    }
}

proof fn lemma_group_pos_skip(line: Seq<char>, k: int, p: int)
    requires
        0 <= k <= p,
        forall|q: int| k <= q < p ==> #[trigger] line[q] != '[',
    ensures
        group_pos(line, k) == group_pos(line, p),
    decreases p - k,
{
    if k < p {
        assert(line[k] != '[');
        lemma_group_pos_skip(line, k + 1, p);
    }
}

fn range_pattern_exec(v: &Vec<char>) -> (r: Option<(usize, usize, u64, u64, bool, usize)>)
    ensures
        match r {
            Some((open, close, start, end, pad, width)) => open < close < v@.len() && range_pattern(
                v@,
            ) == Some((v@.take(open as int), v@.skip(close + 1), start, end, pad, width as nat)),
            None => range_pattern(v@) is None,
        },
{
    let mut k: usize = 0;
    while k < v.len()
        invariant
            k <= v@.len(),
            group_pos(v@, 0) == group_pos(v@, k as int),
        decreases v.len() - k,
    {
        let p = before_first2_end(v, k, v.len(), '[', '[');
        proof {
            let rest = v@.subrange(k as int, v@.len() as int);
            lemma_first_pos2(rest, '[', '[');
            assert forall|q: int| k <= q < p implies #[trigger] v@[q] != '[' by {
                assert(v@[q] == rest[q - k]);
            }
            lemma_group_pos_skip(v@, k as int, p as int);
        }
        if p >= v.len() {
            proof {
                assert(group_pos(v@, p as int) is None);
            }
            return None;
        }
        assert(v@[p as int] == v@.subrange(k as int, v@.len() as int)[p - k]);
        match group_at_exec(v, p) {
            Some((close, start, end, pad, width)) => {
                assert(opens_group(v@, p as int));
                return Some((p, close, start, end, pad, width));
            },
            None => {
                assert(!opens_group(v@, p as int));
                k = p + 1;
            },
        }
    }
    None
}

fn range_number_vec(n: u64, pad: bool, width: usize) -> (r: Vec<char>)
    ensures
        r@ == range_number(n, pad, width as nat),
{
    if pad {
        padded_decimal_vec(n, width)
    } else {
        decimal_vec(n)
    }
}

proof fn lemma_expand_from_step(
    pre: Seq<char>,
    post: Seq<char>,
    n: u64,
    end: u64,
    pad: bool,
    width: nat,
)
    requires
        n < end,
    ensures
        expand_from(pre, post, n, end, pad, width) == expand(pre + range_number(n, pad, width) + post)
            + expand_from(pre, post, (n + 1) as u64, end, pad, width),
{
}

fn expand_vec(line: &Vec<char>) -> (r: Vec<Vec<char>>)
    ensures
        views(r@) == expand(line@),
    decreases count_open(line@),
{
    match range_pattern_exec(line) {
        None => {
            let c = slice_vec(line, 0, line.len());
            assert(line@.subrange(0, line@.len() as int) =~= line@);
            let ghost cv = c@;
            let r = vec![c];
            assert(r@.len() == 1 && r@[0]@ == cv);
            assert(views(r@) =~= seq![line@]);
            r
        },
        Some((open, close, start, end, pad, width)) => {
            assert(open < close < line@.len());
            assert(close < line.len());
            let pre = slice_vec(line, 0, open);
            let post = slice_vec(line, close + 1, line.len());
            assert(pre@ =~= line@.take(open as int));
            assert(post@ =~= line@.skip(close + 1));
            proof {
                lemma_range_pattern_shrinks(line@);
            }
            let ghost total = expand_from(pre@, post@, start, end, pad, width as nat);
            let mut out: Vec<Vec<char>> = Vec::new();
            let mut n: u64 = start;
            loop
                invariant_except_break
                    start <= n <= end,
                    count_open(line@) >= count_open(pre@) + count_open(post@) + 1,
                    views(out@) + expand_from(pre@, post@, n, end, pad, width as nat) == total,
                ensures
                    views(out@) == total,
                decreases end - n,
            {
                let mut cand = slice_vec(&pre, 0, pre.len());
                assert(pre@.subrange(0, pre@.len() as int) =~= pre@);
                let num = range_number_vec(n, pad, width);
                append_chars(&mut cand, &num);
                append_chars(&mut cand, &post);
                proof {
                    lemma_count_open_fill(pre@, post@, n, pad, width as nat);
                }
                let mut sub = expand_vec(&cand);
                let ghost before = out@;
                let ghost sub_before = sub@;
                out.append(&mut sub);
                assert(views(out@) =~= views(before) + views(sub_before));
                if n == end {
                    assert(views(out@) =~= total);
                    break;
                }
                proof {
                    lemma_expand_from_step(pre@, post@, n, end, pad, width as nat);
                    assert(views(before) + expand_from(pre@, post@, n, end, pad, width as nat)
                        == views(out@) + expand_from(pre@, post@, (n + 1) as u64, end, pad, width as nat));
                }
                n = n + 1;
            }
            out
        },
    }
}

/// Expands the numeric wildcards of one line (see `expand`).
pub fn expand_pattern(line: &str) -> (r: Vec<String>)
    ensures
        string_views(r@) == expand(line@),
{
    let v = chars_of(line);
    let e = expand_vec(&v);
    strings_of(&e)
}

// ------------------------------------------------------------------
// Batch text
// ------------------------------------------------------------------

/// The pieces of a text between `\n` characters. (`str::lines` also drops
/// a `\r` before each `\n` and the empty piece after a final `\n`; both
/// vanish anyway once a line is trimmed and empty lines are skipped.)
pub open spec fn split_lines(s: Seq<char>) -> Seq<Seq<char>>
    decreases s.len(),
{
    let p = first_pos2(s, '\n', '\n');
    if 0 <= p < s.len() {
        seq![s.take(p)] + split_lines(s.skip(p + 1))
    } else {
        seq![s]
    }
}

/// Adds each expanded URL, trimmed, unless already present.
pub open spec fn add_trimmed(acc: Seq<Seq<char>>, us: Seq<Seq<char>>) -> Seq<Seq<char>>
    decreases us.len(),
{
    if us.len() == 0 {
        acc
    } else {
        add_new(add_trimmed(acc, us.drop_last()), trim(us.last()))
    }
}

pub open spec fn collect_lines(ls: Seq<Seq<char>>) -> Seq<Seq<char>>
    decreases ls.len(),
{
    if ls.len() == 0 {
        seq![]
    } else {
        let acc = collect_lines(ls.drop_last());
        let l = trim(ls.last());
        if l.len() == 0 {
            acc
        } else {
            add_trimmed(acc, expand(l))
        }
    }
}

/// The URLs of a batch: every non-blank line is trimmed and its wildcards
/// expanded; the http(s) URLs among the results are kept, each once, in
/// order.
pub open spec fn parse_batch_spec(text: Seq<char>) -> Seq<Seq<char>> {
    collect_lines(split_lines(text))
}

/// Adds the URLs that one batch line stands for.
fn add_line(out: &mut Vec<Vec<char>>, v: &Vec<char>, lo: usize, hi: usize)
    requires
        lo <= hi <= v.len(),
    ensures
        views(final(out)@) == ({
            let l = trim(v@.subrange(lo as int, hi as int));
            if l.len() == 0 {
                views(old(out)@)
            } else {
                add_trimmed(views(old(out)@), expand(l))
            }
        }),
{
    let (a, b) = trim_range(v, lo, hi);
    if a == b {
        assert(v@.subrange(a as int, b as int).len() == 0);
        return;
    }
    let l = slice_vec(v, a, b);
    let ex = expand_vec(&l);
    let ghost acc0 = views(out@);
    let mut k: usize = 0;
    while k < ex.len()
        invariant
            k <= ex.len(),
            views(out@) == add_trimmed(acc0, views(ex@).take(k as int)),
        decreases ex.len() - k,
    {
        let u = trim_vec(&ex[k]);
        push_new(out, u);
        proof {
            let t = views(ex@).take(k + 1);
            assert(t.drop_last() =~= views(ex@).take(k as int));
            assert(t.last() == ex@[k as int]@);
        }
        k = k + 1;
    }
    assert(views(ex@).take(k as int) =~= views(ex@));
}

/// The final list of URLs of a batch text (see `parse_batch_spec`).
pub fn parse_batch(text: &str) -> (r: Vec<String>)
    ensures
        string_views(r@) == parse_batch_spec(text@),
{
    let v = chars_of(text);
    let mut out: Vec<Vec<char>> = Vec::new();
    let ghost mut done: Seq<Seq<char>> = seq![];
    let mut start: usize = 0;
    proof {
        assert(v@.skip(0) =~= v@);
        assert(seq![] + split_lines(v@) =~= split_lines(v@));
    }
    loop
        invariant_except_break
            start <= v.len(),
            done + split_lines(v@.skip(start as int)) == split_lines(v@),
            views(out@) == collect_lines(done),
        ensures
            views(out@) == collect_lines(split_lines(v@)),
        decreases v.len() - start,
    {
        let p = before_first2_end(&v, start, v.len(), '\n', '\n');
        let ghost rest = v@.skip(start as int);
        assert(v@.subrange(start as int, v@.len() as int) =~= rest);
        assert(rest.take(p - start) =~= v@.subrange(start as int, p as int));
        add_line(&mut out, &v, start, p);
        proof {
            let ls = done.push(v@.subrange(start as int, p as int));
            assert(ls.drop_last() =~= done);
        }
        if p >= v.len() {
            proof {
                assert(split_lines(rest) == seq![rest]);
                assert(rest =~= v@.subrange(start as int, p as int));
                assert(done + split_lines(rest) =~= done.push(rest));
            }
            break;
        }
        proof {
            assert(rest.skip(p - start + 1) =~= v@.skip(p + 1));
            let old_done = done;
            done = done.push(v@.subrange(start as int, p as int));
            assert(done + split_lines(v@.skip(p + 1)) =~= old_done + split_lines(rest));
        }
        start = p + 1;
    }
    strings_of(&out)
}

// ------------------------------------------------------------------
// Laws
// ------------------------------------------------------------------

proof fn lemma_collect_tokens_unique(toks: Seq<Seq<char>>)
    ensures
        collect_tokens(toks).no_duplicates(),
        forall|i: int| 0 <= i < collect_tokens(toks).len() ==> is_url(#[trigger] collect_tokens(toks)[i]),
    decreases toks.len(),
{
    if toks.len() > 0 {
        lemma_collect_tokens_unique(toks.drop_last());
        lemma_add_new_no_dups(collect_tokens(toks.drop_last()), clean_token(toks.last()));
    }
}

/// The URLs found in a text are http(s) URLs, each listed once.
pub proof fn law_extract_urls_unique(text: Seq<char>)
    ensures
        extract_urls_spec(text).no_duplicates(),
        forall|i: int| 0 <= i < extract_urls_spec(text).len() ==> is_url(#[trigger] extract_urls_spec(text)[i]),
{
    lemma_collect_tokens_unique(split_tokens(text));
}

proof fn lemma_add_trimmed_unique(acc: Seq<Seq<char>>, us: Seq<Seq<char>>)
    requires
        acc.no_duplicates(),
        forall|i: int| 0 <= i < acc.len() ==> is_url(#[trigger] acc[i]),
    ensures
        add_trimmed(acc, us).no_duplicates(),
        forall|i: int| 0 <= i < add_trimmed(acc, us).len() ==> is_url(#[trigger] add_trimmed(acc, us)[i]),
    decreases us.len(),
{
    if us.len() > 0 {
        lemma_add_trimmed_unique(acc, us.drop_last());
        lemma_add_new_no_dups(add_trimmed(acc, us.drop_last()), trim(us.last()));
    }
}

proof fn lemma_collect_lines_unique(ls: Seq<Seq<char>>)
    ensures
        collect_lines(ls).no_duplicates(),
        forall|i: int| 0 <= i < collect_lines(ls).len() ==> is_url(#[trigger] collect_lines(ls)[i]),
    decreases ls.len(),
{
    if ls.len() > 0 {
        lemma_collect_lines_unique(ls.drop_last());
        let l = trim(ls.last());
        if l.len() > 0 {
            lemma_add_trimmed_unique(collect_lines(ls.drop_last()), expand(l));
        }
    }
}

/// The URLs of a batch are http(s) URLs, each listed once.
pub proof fn law_parse_batch_unique(text: Seq<char>)
    ensures
        parse_batch_spec(text).no_duplicates(),
        forall|i: int| 0 <= i < parse_batch_spec(text).len() ==> is_url(#[trigger] parse_batch_spec(text)[i]),
{
    lemma_collect_lines_unique(split_lines(text));
}

/// A line without `[` stands for itself alone.
pub proof fn law_expand_plain_line(line: Seq<char>)
    requires
        !line.contains('['),
    ensures
        expand(line) == seq![line],
{
    lemma_group_pos(line, 0);
    if group_pos(line, 0) is Some {
        let p = group_pos(line, 0)->0;
        assert(line[p] == '[');
        assert(line.contains('['));
    }
}

/// Whether a text ends in sentence punctuation: `.`, `,` or `;`.
pub open spec fn ends_in_punct(u: Seq<char>) -> bool {
    u.len() > 0 && (u.last() == '.' || u.last() == ',' || u.last() == ';')
}

proof fn lemma_strip_leaves_no_punct(s: Seq<char>)
    ensures
        !ends_in_punct(strip_trailing_punct(s)),
    decreases s.len(),
{
    if s.len() > 0 && is_trailing_punct(s.last()) {
        lemma_strip_leaves_no_punct(s.drop_last());
    }
}

proof fn lemma_collect_tokens_no_punct(toks: Seq<Seq<char>>)
    ensures
        forall|i: int|
            0 <= i < collect_tokens(toks).len() ==> !ends_in_punct(#[trigger] collect_tokens(toks)[i]),
    decreases toks.len(),
{
    if toks.len() > 0 {
        lemma_collect_tokens_no_punct(toks.drop_last());
        lemma_strip_leaves_no_punct(trim(toks.last()));
        let acc = collect_tokens(toks.drop_last());
        let r = collect_tokens(toks);
        assert forall|i: int| 0 <= i < r.len() implies !ends_in_punct(#[trigger] r[i]) by {
            if i < acc.len() {
                assert(r[i] == acc[i]);
            }
        }
    }
}

/// URLs pulled out of free text never end in `.`, `,` or `;`: punctuation
/// that closes a sentence after a URL is not part of it.
pub proof fn law_extract_urls_no_trailing_punct(text: Seq<char>)
    ensures
        forall|i: int|
            0 <= i < extract_urls_spec(text).len() ==> !ends_in_punct(
                #[trigger] extract_urls_spec(text)[i],
            ),
{
    lemma_collect_tokens_no_punct(split_tokens(text));
}

/// A token made of a URL followed by any run of `.`, `,` and `;` is cleaned
/// back to the URL itself.
pub proof fn law_trailing_punct_run_dropped(u: Seq<char>, run: Seq<char>)
    requires
        !ends_in_punct(u),
        forall|i: int| 0 <= i < run.len() ==> #[trigger] run[i] == '.' || run[i] == ',' || run[i] == ';',
    ensures
        strip_trailing_punct(u + run) == u,
    decreases run.len(),
{
    if run.len() == 0 {
        assert(u + run =~= u);
    } else {
        assert((u + run).drop_last() =~= u + run.drop_last());
        assert((u + run).last() == run[run.len() - 1]);
        law_trailing_punct_run_dropped(u, run.drop_last());
    }
}

} // verus!
