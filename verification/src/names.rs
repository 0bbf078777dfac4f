//! File names of downloads: making a name safe for Windows, recognising
//! generic names, and choosing the final name from what the caller gave,
//! what the server suggests and the URL.

use vstd::prelude::*;
use crate::batch::{has_prefix, utf8_len};
use crate::category::eq_lit;
use crate::probe::{percent_decode, percent_decode_spec};
use crate::text::{
    after_last2, after_last2_start, append_chars, before_first2, before_first2_end, chars_of,
    contains_char, ends_with, is_digit, lower_seq, lower_vec, push_decimal, decimal, slice_vec,
    starts_with, string_of, upper_seq, upper_vec,
};

verus! {

/// Characters that Windows does not allow in file names.
pub open spec fn is_bad_name_char(c: char) -> bool {
    c == '\\' || c == '/' || c == ':' || c == '*' || c == '?' || c == '"' || c == '<' || c == '>'
        || c == '|' || (c as u32) < 0x20
}

pub open spec fn replace_bad(s: Seq<char>) -> Seq<char> {
    Seq::new(
        s.len(),
        |i: int|
            if is_bad_name_char(s[i]) {
                '_'
            } else {
                s[i]
            },
    )
}

/// Drops trailing dots and spaces (Windows drops them silently on create).
pub open spec fn strip_dots_spaces(s: Seq<char>) -> Seq<char>
    decreases s.len(),
{
    if s.len() > 0 && (s.last() == '.' || s.last() == ' ') {
        strip_dots_spaces(s.drop_last())
    } else {
        s
    }
}

/// A Windows device name (CON, PRN, AUX, NUL, COM1-9, LPT1-9), any case.
pub open spec fn is_reserved_stem(stem: Seq<char>) -> bool {
    let up = upper_seq(stem);
    ||| up == "CON"@
    ||| up == "PRN"@
    ||| up == "AUX"@
    ||| up == "NUL"@
    ||| (utf8_len(up) == 4 && (has_prefix(up, "COM"@) || has_prefix(up, "LPT"@)) && is_digit(
        up[3],
    ))
}

/// A safe file name: forbidden characters become `_`, trailing dots and
/// spaces go, and a device-name stem (the part before the first `.`) gets a
/// leading `_`.
pub open spec fn sanitize_spec(name: Seq<char>) -> Seq<char> {
    let s = strip_dots_spaces(replace_bad(name));
    if is_reserved_stem(before_first2(s, '.', '.')) {
        seq!['_'] + s
    } else {
        s
    }
}

fn utf8_len_is_4(v: &Vec<char>) -> (r: bool)
    ensures
        r == (utf8_len(v@) == 4),
{
    let mut acc: usize = 0;
    let mut i: usize = 0;
    while i < v.len()
        invariant
            i <= v.len(),
            acc == utf8_len(v@.take(i as int)),
            acc <= 4,
        decreases v.len() - i,
    {
        assert(v@.take(i + 1).drop_last() =~= v@.take(i as int));
        let u: u32 = v[i] as u32;
        let w: usize = if u < 0x80 {
            1
        } else if u < 0x800 {
            2
        } else if u < 0x10000 {
            3
        } else {
            4
        };
        acc = acc + w;
        i = i + 1;
        if acc > 4 {
            proof {
                lemma_utf8_len_mono(v@, i as int);
            }
            return false;
        }
    }
    assert(v@.take(i as int) =~= v@);
    acc == 4
}

proof fn lemma_utf8_len_mono(s: Seq<char>, k: int)
    requires
        0 <= k <= s.len(),
    ensures
        utf8_len(s.take(k)) <= utf8_len(s),
    decreases s.len() - k,
{
    if k < s.len() {
        lemma_utf8_len_mono(s, k + 1);
        assert(s.take(k + 1).drop_last() =~= s.take(k));
    } else {
        assert(s.take(k) =~= s);
    }
}

fn is_reserved_stem_exec(stem: &Vec<char>) -> (r: bool)
    ensures
        r == is_reserved_stem(stem@),
{
    let up = upper_vec(stem);
    if eq_lit(&up, "CON") || eq_lit(&up, "PRN") || eq_lit(&up, "AUX") || eq_lit(&up, "NUL") {
        return true;
    }
    let com = chars_of("COM");
    let lpt = chars_of("LPT");
    proof {
        reveal_strlit("COM");
        reveal_strlit("LPT");
    }
    if utf8_len_is_4(&up) && (starts_with(&up, &com) || starts_with(&up, &lpt)) {
        assert(up@.len() >= 3);
        if up.len() > 3 {
            return '0' <= up[3] && up[3] <= '9';
        } else {
            proof {
                assert(up@.len() == 3);
                assert(up@ =~= up@.take(3));
                reveal_with_fuel(utf8_len, 4);
                assert(utf8_len(up@) <= 3 * 4);
            }
            return false;
        }
    }
    false
}

fn sanitize_vec(name: &Vec<char>) -> (r: Vec<char>)
    ensures
        r@ == sanitize_spec(name@),
{
    let mut s: Vec<char> = Vec::new();
    let mut i: usize = 0;
    while i < name.len()
        invariant
            i <= name.len(),
            s@ =~= replace_bad(name@.take(i as int)),
        decreases name.len() - i,
    {
        let c = name[i];
        let bad = c == '\\' || c == '/' || c == ':' || c == '*' || c == '?' || c == '"' || c == '<'
            || c == '>' || c == '|' || (c as u32) < 0x20;
        s.push(
            if bad {
                '_'
            } else {
                c
            },
        );
        i = i + 1;
        assert(s@ =~= replace_bad(name@.take(i as int)));
    }
    assert(name@.take(i as int) =~= name@);
    let ghost replaced = s@;
    while s.len() > 0 && (s[s.len() - 1] == '.' || s[s.len() - 1] == ' ')
        invariant
            strip_dots_spaces(replaced) == strip_dots_spaces(s@),
        decreases s.len(),
    {
        let ghost before = s@;
        s.pop();
        assert(s@ =~= before.drop_last());
    }
    let e = before_first2_end(&s, 0, s.len(), '.', '.');
    assert(s@.subrange(0, s@.len() as int) =~= s@);
    let stem = slice_vec(&s, 0, e);
    assert(stem@ =~= before_first2(s@, '.', '.'));
    if is_reserved_stem_exec(&stem) {
        let mut r: Vec<char> = vec!['_'];
        append_chars(&mut r, &s);
        assert(r@ =~= seq!['_'] + s@);
        r
    } else {
        s
    }
}

/// A name safe for the Windows file system (see `sanitize_spec`).
pub fn sanitize(name: &str) -> (r: String)
    ensures
        r@ == sanitize_spec(name@),
{
    let v = chars_of(name);
    let s = sanitize_vec(&v);
    string_of(s.as_slice())
}

/// A placeholder rather than a real name: `download`, `download.bin`,
/// `download-*.bin`, or a name without extension (any case).
pub open spec fn looks_generic_spec(name: Seq<char>) -> bool {
    let n = lower_seq(name);
    ||| n == "download.bin"@
    ||| n == "download"@
    ||| (has_prefix(n, "download-"@) && n.len() >= 4 && n.skip(n.len() - 4) == ".bin"@)
    ||| !n.contains('.')
}

fn looks_generic_vec(name: &Vec<char>) -> (r: bool)
    ensures
        r == looks_generic_spec(name@),
{
    let n = lower_vec(name);
    let pre = chars_of("download-");
    let suf = chars_of(".bin");
    proof {
        reveal_strlit(".bin");
    }
    eq_lit(&n, "download.bin") || eq_lit(&n, "download") || (starts_with(&n, &pre) && ends_with(
        &n,
        &suf,
    )) || !contains_char(&n, '.')
}

/// Whether a name is a placeholder (see `looks_generic_spec`).
pub fn looks_generic(name: &str) -> (r: bool)
    ensures
        r == looks_generic_spec(name@),
{
    let v = chars_of(name);
    looks_generic_vec(&v)
}

/// The last path segment of a URL (query and fragment removed), decoded and
/// made safe.
pub open spec fn url_segment_name(url: Seq<char>) -> Seq<char> {
    sanitize_spec(
        percent_decode_spec(after_last2(before_first2(url, '?', '#'), '/', '/')),
    )
}

fn url_segment_name_vec(url: &Vec<char>) -> (r: Vec<char>)
    ensures
        r@ == url_segment_name(url@),
{
    let e = before_first2_end(url, 0, url.len(), '?', '#');
    assert(url@.subrange(0, url@.len() as int) =~= url@);
    let k = after_last2_start(url, 0, e, '/', '/');
    let seg = slice_vec(url, k, e);
    assert(seg@ =~= after_last2(before_first2(url@, '?', '#'), '/', '/')) by {
        assert(url@.subrange(0, e as int) =~= before_first2(url@, '?', '#'));
    }
    let s = string_of(seg.as_slice());
    let d = percent_decode(s.as_str());
    let dv = chars_of(d.as_str());
    sanitize_vec(&dv)
}

/// Name taken from a URL: its last segment, when that is a non-empty name
/// with an extension.
pub open spec fn url_basename_spec(url: Seq<char>) -> Option<Seq<char>> {
    let s = url_segment_name(url);
    if s.len() > 0 && s.contains('.') {
        Some(s)
    } else {
        None
    }
}

pub fn url_basename(url: &str) -> (r: Option<String>)
    ensures
        r matches Some(s) ==> url_basename_spec(url@) == Some(s@),
        r is None ==> url_basename_spec(url@) is None,
{
    let v = chars_of(url);
    let s = url_segment_name_vec(&v);
    if s.len() > 0 && contains_char(&s, '.') {
        Some(string_of(s.as_slice()))
    } else {
        None
    }
}

/// `download-<id>.bin`.
pub open spec fn fallback_name(id: u64) -> Seq<char> {
    "download-"@ + decimal(id as nat) + ".bin"@
}

fn fallback_name_vec(id: u64) -> (r: Vec<char>)
    ensures
        r@ == fallback_name(id),
{
    let mut v = chars_of("download-");
    push_decimal(&mut v, id);
    let suf = chars_of(".bin");
    append_chars(&mut v, &suf);
    v
}

/// Immediate name of a new download: the caller's name made safe, else the
/// URL's last segment, else `download-<id>.bin`.
pub open spec fn pick_filename_spec(filename: Option<Seq<char>>, url: Seq<char>, id: u64) -> Seq<
    char,
> {
    let given = match filename {
        Some(f) => sanitize_spec(f),
        None => seq![],
    };
    if given.len() > 0 {
        given
    } else if url_segment_name(url).len() > 0 {
        url_segment_name(url)
    } else {
        fallback_name(id)
    }
}

pub fn pick_filename(filename: Option<&str>, url: &str, id: u64) -> (r: String)
    ensures
        r@ == pick_filename_spec(crate::probe::opt_str_view(filename), url@, id),
{
    if let Some(f) = filename {
        let fv = chars_of(f);
        let s = sanitize_vec(&fv);
        if s.len() > 0 {
            return string_of(s.as_slice());
        }
    }
    let uv = chars_of(url);
    let seg = url_segment_name_vec(&uv);
    if seg.len() > 0 {
        return string_of(seg.as_slice());
    }
    let fb = fallback_name_vec(id);
    string_of(fb.as_slice())
}

/// The caller's name made safe, when that leaves something.
pub open spec fn provided_name(filename: Option<Seq<char>>) -> Option<Seq<char>> {
    match filename {
        Some(f) => if sanitize_spec(f).len() > 0 {
            Some(sanitize_spec(f))
        } else {
            None
        },
        None => None,
    }
}

/// Whether the server must be asked (`Content-Disposition`) before the name
/// is final: the caller gave no real, non-generic name.
pub open spec fn needs_probe_spec(filename: Option<Seq<char>>) -> bool {
    match provided_name(filename) {
        Some(p) => looks_generic_spec(p),
        None => true,
    }
}

/// Final name of a download. In order of preference: an explicit
/// non-generic name from the caller; the server's `Content-Disposition`
/// name (`suggested`, from a probe, when it is non-generic); the caller's
/// name even if generic; the URL's name; `download-<id>.bin`.
pub open spec fn resolve_filename_spec(
    filename: Option<Seq<char>>,
    url: Seq<char>,
    id: u64,
    suggested: Option<Seq<char>>,
) -> Seq<char> {
    if !needs_probe_spec(filename) {
        provided_name(filename)->0
    } else if suggested is Some && sanitize_spec(suggested->0).len() > 0 && !looks_generic_spec(
        sanitize_spec(suggested->0),
    ) {
        sanitize_spec(suggested->0)
    } else if provided_name(filename) is Some {
        provided_name(filename)->0
    } else if url_basename_spec(url) is Some {
        url_basename_spec(url)->0
    } else {
        fallback_name(id)
    }
}

fn provided_name_vec(filename: Option<&str>) -> (r: Option<Vec<char>>)
    ensures
        r matches Some(v) ==> provided_name(crate::probe::opt_str_view(filename)) == Some(v@),
        r is None ==> provided_name(crate::probe::opt_str_view(filename)) is None,
{
    match filename {
        Some(f) => {
            let fv = chars_of(f);
            let s = sanitize_vec(&fv);
            if s.len() > 0 {
                Some(s)
            } else {
                None
            }
        },
        None => None,
    }
}

/// Whether a probe is needed before the name is final (see
/// `needs_probe_spec`).
pub fn needs_probe(filename: Option<&str>) -> (r: bool)
    ensures
        r == needs_probe_spec(crate::probe::opt_str_view(filename)),
{
    match provided_name_vec(filename) {
        Some(p) => looks_generic_vec(&p),
        None => true,
    }
}

/// Final name of a download (see `resolve_filename_spec`); `suggested` is the
/// name the probe found, `None` when there was no probe or it failed.
pub fn resolve_filename(filename: Option<&str>, url: &str, id: u64, suggested: Option<&str>) -> (r:
    String)
    ensures
        r@ == resolve_filename_spec(
            crate::probe::opt_str_view(filename),
            url@,
            id,
            crate::probe::opt_str_view(suggested),
        ),
{
    let provided = provided_name_vec(filename);
    if let Some(p) = &provided {
        if !looks_generic_vec(p) {
            return string_of(p.as_slice());
        }
    }
    if let Some(cd) = suggested {
        let cv = chars_of(cd);
        let s = sanitize_vec(&cv);
        if s.len() > 0 && !looks_generic_vec(&s) {
            return string_of(s.as_slice());
        }
    }
    if let Some(p) = provided {
        return string_of(p.as_slice());
    }
    match url_basename(url) {
        Some(b) => b,
        None => {
            let fb = fallback_name_vec(id);
            string_of(fb.as_slice())
        },
    }
}

/// Name guessed from a URL for the "add" dialog: its last path segment
/// (split at `/` and `\`, without query and fragment), or `download.bin`.
pub open spec fn guess_filename_spec(url: Seq<char>) -> Seq<char> {
    let seg = after_last2(before_first2(url, '?', '#'), '/', '\\');
    if seg.len() > 0 {
        seg
    } else {
        "download.bin"@
    }
}

pub fn guess_filename(url: &str) -> (r: String)
    ensures
        r@ == guess_filename_spec(url@),
{
    let v = chars_of(url);
    let e = before_first2_end(&v, 0, v.len(), '?', '#');
    assert(v@.subrange(0, v@.len() as int) =~= v@);
    let k = after_last2_start(&v, 0, e, '\\', '/');
    assert(v@.subrange(0, e as int) =~= before_first2(v@, '?', '#'));
    proof {
        lemma_last_pos2_sym(v@.subrange(0, e as int), '/', '\\');
    }
    let seg = slice_vec(&v, k, e);
    if seg.len() > 0 {
        string_of(seg.as_slice())
    } else {
        "download.bin".to_string()
    }
}

proof fn lemma_last_pos2_sym(s: Seq<char>, a: char, b: char)
    ensures
        crate::text::last_pos2(s, a, b) == crate::text::last_pos2(s, b, a),
    decreases s.len(),
{
    if s.len() > 0 {
        lemma_last_pos2_sym(s.drop_last(), a, b);
    }
}

proof fn lemma_strip_dots_spaces(s: Seq<char>)
    ensures
        strip_dots_spaces(s).len() <= s.len(),
        strip_dots_spaces(s) == s.take(strip_dots_spaces(s).len() as int),
        strip_dots_spaces(s).len() > 0 ==> strip_dots_spaces(s).last() != '.'
            && strip_dots_spaces(s).last() != ' ',
    decreases s.len(),
{
    if s.len() > 0 && (s.last() == '.' || s.last() == ' ') {
        lemma_strip_dots_spaces(s.drop_last());
        let k = strip_dots_spaces(s).len() as int;
        assert(s.drop_last().take(k) =~= s.take(k));
    } else {
        assert(s.take(s.len() as int) =~= s);
    }
}

/// A stem that starts with `_` is no device name.
proof fn lemma_underscore_stem_not_reserved(s: Seq<char>)
    ensures
        !is_reserved_stem(before_first2(seq!['_'] + s, '.', '.')),
{
    let t = seq!['_'] + s;
    assert(t.drop_first() =~= s);
    assert(crate::text::first_pos2(t, '.', '.') == 1 + crate::text::first_pos2(s, '.', '.'));
    crate::text::lemma_first_pos2(s, '.', '.');
    let stem = before_first2(t, '.', '.');
    assert(stem.len() >= 1 && stem[0] == '_');
    let up = upper_seq(stem);
    assert(up[0] == '_');
    reveal_strlit("CON");
    reveal_strlit("PRN");
    reveal_strlit("AUX");
    reveal_strlit("NUL");
    reveal_strlit("COM");
    reveal_strlit("LPT");
    assert(up != "CON"@ && up != "PRN"@ && up != "AUX"@ && up != "NUL"@) by {
        assert("CON"@[0] == 'C' && "PRN"@[0] == 'P' && "AUX"@[0] == 'A' && "NUL"@[0] == 'N');
    }
    if up.len() >= 3 {
        assert(up.take(3)[0] == '_');
        assert(up.take(3) != "COM"@ && up.take(3) != "LPT"@) by {
            assert("COM"@[0] == 'C' && "LPT"@[0] == 'L');
        }
    }
}

/// A sanitized name can be created on Windows as it is: it holds none of
/// the characters Windows forbids, does not end in a dot or a space, and its
/// stem (the part before the first `.`) is no device name. Sanitizing it
/// again changes nothing.
pub proof fn law_sanitize_safe(name: Seq<char>)
    ensures
        forall|i: int|
            0 <= i < sanitize_spec(name).len() ==> !is_bad_name_char(#[trigger] sanitize_spec(name)[i]),
        sanitize_spec(name).len() > 0 ==> sanitize_spec(name).last() != '.' && sanitize_spec(
            name,
        ).last() != ' ',
        !is_reserved_stem(before_first2(sanitize_spec(name), '.', '.')),
        sanitize_spec(sanitize_spec(name)) == sanitize_spec(name),
{
    let r = replace_bad(name);
    let s = strip_dots_spaces(r);
    lemma_strip_dots_spaces(r);
    assert forall|i: int| 0 <= i < s.len() implies !is_bad_name_char(#[trigger] s[i]) by {
        assert(s[i] == r.take(s.len() as int)[i]);
    }
    if is_reserved_stem(before_first2(s, '.', '.')) {
        let t = seq!['_'] + s;
        assert forall|i: int| 0 <= i < t.len() implies !is_bad_name_char(#[trigger] t[i]) by {
            if i > 0 {
                assert(t[i] == s[i - 1]);
            }
        }
        if s.len() > 0 {
            assert(t.last() == s.last());
        }
        lemma_underscore_stem_not_reserved(s);
    }
    let out = sanitize_spec(name);
    assert(replace_bad(out) =~= out);
    assert(strip_dots_spaces(out) == out);
}

/// The order in which a download's name is chosen: a usable, non-generic
/// name from the caller wins; otherwise a usable, non-generic name that the
/// server suggests wins over anything taken from the URL; otherwise the
/// caller's (generic) name; otherwise a name from the URL; otherwise the
/// fallback `download-<id>.bin`. Whatever is chosen is never empty.
pub proof fn law_resolve_filename_order(
    filename: Option<Seq<char>>,
    url: Seq<char>,
    id: u64,
    suggested: Option<Seq<char>>,
)
    ensures
        ({
            let r = resolve_filename_spec(filename, url, id, suggested);
            let server_ok = suggested matches Some(sg) && sanitize_spec(sg).len() > 0
                && !looks_generic_spec(sanitize_spec(sg));
            &&& (provided_name(filename) matches Some(p) && !looks_generic_spec(p)) ==> r == provided_name(
                filename,
            )->0
            &&& (!(provided_name(filename) matches Some(p) && !looks_generic_spec(p)) && server_ok)
                ==> r == sanitize_spec(suggested->0)
            &&& (!(provided_name(filename) matches Some(p) && !looks_generic_spec(p)) && !server_ok
                && provided_name(filename) is Some) ==> r == provided_name(filename)->0
            &&& (provided_name(filename) is None && !server_ok && url_basename_spec(url) is Some)
                ==> r == url_basename_spec(url)->0
            &&& (provided_name(filename) is None && !server_ok && url_basename_spec(url) is None)
                ==> r == "download-"@ + decimal(id as nat) + ".bin"@
            &&& r.len() > 0
        }),
{
    reveal_strlit("download-");
    reveal_strlit(".bin");
}

} // verus!
