//! Site grabber: the links to downloadable files (`href` and `src`
//! attributes) of an HTML page, as absolute URLs.

use vstd::prelude::*;
use crate::category::eq_lit;
use crate::text::{
    after_last2, after_last2_start, before_first2_end, chars_of, contains_char, find_from,
    first_occ, first_pos2, lemma_first_occ, lower_seq, lower_vec, slice_vec, string_of,
    string_views, trim_range, trim_start, views, ends_with_ext, lemma_after_last_dot,
};

verus! {

// ------------------------------------------------------------------
// URL resolution (url crate)
// ------------------------------------------------------------------

/// What `Url::join` makes of `rel` on the base URL `base` (parsed with
/// `Url::parse`): the serialization, scheme and path of the result, or
/// `None` when either step fails.
pub uninterp spec fn url_join_parts(base: Seq<char>, rel: Seq<char>) -> Option<
    (Seq<char>, Seq<char>, Seq<char>),
>;

/// `url::Url::parse(base)` then `Url::join(rel)`; hands back the joined URL's
/// serialization (`to_string`), `scheme()` and `path()`. The contract only
/// names the result: the URL standard's resolution rules are not restated.
#[verifier::external_body]
fn join_url(base: &str, rel: &str) -> (r: Option<(String, String, String)>)
    ensures
        match r {
            Some((s, scheme, path)) => url_join_parts(base@, rel@) == Some((s@, scheme@, path@)),
            None => url_join_parts(base@, rel@) is None,
        },
{
    let joined = url::Url::parse(base).ok()?.join(rel).ok()?;
    Some((joined.to_string(), joined.scheme().to_string(), joined.path().to_string()))
}

// ------------------------------------------------------------------
// Which links are files
// ------------------------------------------------------------------

/// Extensions of files worth downloading.
pub open spec fn is_downloadable_ext(e: Seq<char>) -> bool {
    ||| e == "zip"@ || e == "rar"@ || e == "7z"@ || e == "gz"@ || e == "tgz"@ || e == "tar"@
    ||| e == "bz2"@ || e == "xz"@ || e == "iso"@ || e == "exe"@ || e == "msi"@ || e == "apk"@
    ||| e == "dmg"@ || e == "deb"@ || e == "rpm"@ || e == "pdf"@ || e == "doc"@ || e == "docx"@
    ||| e == "xls"@ || e == "xlsx"@ || e == "ppt"@ || e == "pptx"@ || e == "mp3"@ || e == "wav"@
    ||| e == "flac"@ || e == "ogg"@ || e == "m4a"@ || e == "mp4"@ || e == "mkv"@ || e == "avi"@
    ||| e == "mov"@ || e == "wmv"@ || e == "flv"@ || e == "webm"@ || e == "jpg"@ || e == "jpeg"@
    ||| e == "png"@ || e == "gif"@ || e == "bmp"@ || e == "webp"@ || e == "svg"@ || e == "txt"@
    ||| e == "csv"@ || e == "json"@ || e == "xml"@ || e == "epub"@ || e == "mobi"@
}

fn is_downloadable_ext_exec(e: &Vec<char>) -> (r: bool)
    ensures
        r == is_downloadable_ext(e@),
{
    eq_lit(e, "zip") || eq_lit(e, "rar") || eq_lit(e, "7z") || eq_lit(e, "gz") || eq_lit(e, "tgz")
        || eq_lit(e, "tar") || eq_lit(e, "bz2") || eq_lit(e, "xz") || eq_lit(e, "iso") || eq_lit(
        e,
        "exe",
    ) || eq_lit(e, "msi") || eq_lit(e, "apk") || eq_lit(e, "dmg") || eq_lit(e, "deb") || eq_lit(
        e,
        "rpm",
    ) || eq_lit(e, "pdf") || eq_lit(e, "doc") || eq_lit(e, "docx") || eq_lit(e, "xls") || eq_lit(
        e,
        "xlsx",
    ) || eq_lit(e, "ppt") || eq_lit(e, "pptx") || eq_lit(e, "mp3") || eq_lit(e, "wav") || eq_lit(
        e,
        "flac",
    ) || eq_lit(e, "ogg") || eq_lit(e, "m4a") || eq_lit(e, "mp4") || eq_lit(e, "mkv") || eq_lit(
        e,
        "avi",
    ) || eq_lit(e, "mov") || eq_lit(e, "wmv") || eq_lit(e, "flv") || eq_lit(e, "webm") || eq_lit(
        e,
        "jpg",
    ) || eq_lit(e, "jpeg") || eq_lit(e, "png") || eq_lit(e, "gif") || eq_lit(e, "bmp") || eq_lit(
        e,
        "webp",
    ) || eq_lit(e, "svg") || eq_lit(e, "txt") || eq_lit(e, "csv") || eq_lit(e, "json") || eq_lit(
        e,
        "xml",
    ) || eq_lit(e, "epub") || eq_lit(e, "mobi")
}

/// An absolute http(s) URL whose path (lower-cased) ends in a downloadable
/// extension.
pub open spec fn is_file_link(scheme: Seq<char>, path: Seq<char>) -> bool {
    let p = lower_seq(path);
    &&& (scheme == "http"@ || scheme == "https"@)
    &&& p.contains('.')
    &&& is_downloadable_ext(after_last2(p, '.', '.'))
}

/// Whether a resolved link, given by its scheme and path, is a file to grab.
pub fn is_downloadable_link(scheme: &str, path: &str) -> (r: bool)
    ensures
        r == is_file_link(scheme@, path@),
{
    let sv = chars_of(scheme);
    if !(eq_lit(&sv, "http") || eq_lit(&sv, "https")) {
        return false;
    }
    let pv = chars_of(path);
    let low = lower_vec(&pv);
    if !contains_char(&low, '.') {
        return false;
    }
    let k = after_last2_start(&low, 0, low.len(), '.', '.');
    assert(low@.subrange(0, low@.len() as int) =~= low@);
    let ext = slice_vec(&low, k, low.len());
    is_downloadable_ext_exec(&ext)
}

// ------------------------------------------------------------------
// Scanning the page
// ------------------------------------------------------------------

/// Value of an attribute whose name ends just before `from`: optional
/// spaces, `=`, optional spaces, then a non-empty value in double or single
/// quotes.
pub open spec fn attr_value(h: Seq<char>, from: int) -> Option<Seq<char>> {
    let after = trim_start(h.skip(from));
    if after.len() > 0 && after[0] == '=' {
        let a2 = trim_start(after.drop_first());
        if a2.len() > 0 && (a2[0] == '"' || a2[0] == '\'') {
            let q = a2[0];
            let body = a2.drop_first();
            let e = first_pos2(body, q, q);
            if e < body.len() && e > 0 {
                Some(body.take(e))
            } else {
                None
            }
        } else {
            None
        }
    } else {
        None
    }
}

/// Values of every occurrence of `attr` (matched case-insensitively) from
/// position `from` on, in order.
pub open spec fn scan_attr(h: Seq<char>, attr: Seq<char>, from: int) -> Seq<Seq<char>>
    decreases h.len() + 1 - from,
{
    if attr.len() == 0 || from < 0 {
        seq![]
    } else {
        match first_occ(lower_seq(h), attr, from) {
            None => seq![],
            Some(i) => {
                proof {
                    lemma_first_occ(lower_seq(h), attr, from);
                }
                let nf = i + attr.len();
                let rest = scan_attr(h, attr, nf);
                match attr_value(h, nf) {
                    Some(v) => seq![v] + rest,
                    None => rest,
                }
            },
        }
    }
}

/// Resolved file links of a list of attribute values, each once, in order.
pub open spec fn links_from(vals: Seq<Seq<char>>, base: Seq<char>) -> Seq<Seq<char>>
    decreases vals.len(),
{
    if vals.len() == 0 {
        seq![]
    } else {
        add_joined(links_from(vals.drop_last(), base), url_join_parts(base, vals.last()))
    }
}

/// Adds a resolved link (its serialization, scheme and path) to the links
/// found so far when it is an http(s) file link not yet listed; a link that
/// could not be resolved adds nothing.
pub open spec fn add_joined(
    acc: Seq<Seq<char>>,
    joined: Option<(Seq<char>, Seq<char>, Seq<char>)>,
) -> Seq<Seq<char>> {
    match joined {
        Some((s, scheme, path)) => if is_file_link(scheme, path) && !acc.contains(s) {
            acc.push(s)
        } else {
            acc
        },
        None => acc,
    }
}

pub open spec fn joined_view(j: Option<(String, String, String)>) -> Option<
    (Seq<char>, Seq<char>, Seq<char>),
> {
    match j {
        Some((s, scheme, path)) => Some((s@, scheme@, path@)),
        None => None,
    }
}

/// Whether `s` is among the strings of `out`.
fn contains_str(out: &Vec<String>, s: &str) -> (r: bool)
    ensures
        r == string_views(out@).contains(s@),
{
    let sv = chars_of(s);
    let mut i: usize = 0;
    while i < out.len()
        invariant
            i <= out@.len(),
            sv@ == s@,
            forall|j: int| 0 <= j < i ==> out@[j]@ != s@,
        decreases out.len() - i,
    {
        let ov = chars_of(out[i].as_str());
        if crate::text::vec_eq(&ov, &sv) {
            assert(string_views(out@)[i as int] == s@);
            return true;
        }
        i = i + 1;
    }
    assert forall|j: int| 0 <= j < string_views(out@).len() implies string_views(out@)[j] != s@ by {
        assert(string_views(out@)[j] == out@[j]@);
    }
    false
}

/// Adds the result of resolving one link (see `add_joined`).
pub fn add_joined_link(out: &mut Vec<String>, joined: Option<(String, String, String)>)
    ensures
        string_views(final(out)@) == add_joined(string_views(old(out)@), joined_view(joined)),
{
    match joined {
        Some((s, scheme, path)) => {
            if is_downloadable_link(scheme.as_str(), path.as_str()) && !contains_str(out, s.as_str()) {
                let ghost before = string_views(out@);
                let ghost sv = s@;
                out.push(s);
                assert(string_views(out@) =~= before.push(sv));
            }
        },
        None => {},
    }
}

/// The file links of a page: the values of all `href` attributes, then of
/// all `src` attributes, resolved against `base`, kept when they are http(s)
/// files, each once.
pub open spec fn extract_links_spec(html: Seq<char>, base: Seq<char>) -> Seq<Seq<char>> {
    links_from(scan_attr(html, "href"@, 0) + scan_attr(html, "src"@, 0), base)
}

fn skip_ws(h: &Vec<char>, from: usize) -> (r: usize)
    requires
        from <= h.len(),
    ensures
        from <= r <= h.len(),
        h@.skip(r as int) == trim_start(h@.skip(from as int)),
{
    let (a, _b) = trim_range(h, from, h.len());
    assert(h@.subrange(from as int, h@.len() as int) =~= h@.skip(from as int));
    assert(h@.subrange(a as int, h@.len() as int) =~= h@.skip(a as int));
    a
}

fn attr_value_exec(h: &Vec<char>, from: usize) -> (r: Option<Vec<char>>)
    requires
        from <= h.len(),
    ensures
        r matches Some(v) ==> attr_value(h@, from as int) == Some(v@),
        r is None ==> attr_value(h@, from as int) is None,
{
    let a = skip_ws(h, from);
    if a >= h.len() || h[a] != '=' {
        return None;
    }
    assert(h@.skip(a as int).drop_first() =~= h@.skip(a + 1));
    let b = skip_ws(h, a + 1);
    if b >= h.len() || (h[b] != '"' && h[b] != '\'') {
        return None;
    }
    let q = h[b];
    assert(h@.skip(b as int).drop_first() =~= h@.subrange(b + 1, h@.len() as int));
    let e = before_first2_end(h, b + 1, h.len(), q, q);
    if e >= h.len() || e == b + 1 {
        return None;
    }
    let v = slice_vec(h, b + 1, e);
    assert(v@ =~= h@.subrange(b + 1, h@.len() as int).take(e - (b + 1)));
    Some(v)
}

fn scan_attr_exec(h: &Vec<char>, low: &Vec<char>, attr: &Vec<char>) -> (r: Vec<Vec<char>>)
    requires
        low@ == lower_seq(h@),
        attr@.len() > 0,
    ensures
        views(r@) == scan_attr(h@, attr@, 0),
{
    let mut out: Vec<Vec<char>> = Vec::new();
    let mut from: usize = 0;
    assert(low@.len() == h@.len());
    loop
        invariant_except_break
            low@ == lower_seq(h@),
            low@.len() == h@.len(),
            attr@.len() > 0,
            from <= h@.len(),
            views(out@) + scan_attr(h@, attr@, from as int) == scan_attr(h@, attr@, 0),
        ensures
            views(out@) == scan_attr(h@, attr@, 0),
        decreases h@.len() + 1 - from,
    {
        match find_from(low, attr, from) {
            None => {
                assert(views(out@) + seq![] =~= views(out@));
                break;
            },
            Some(i) => {
                proof {
                    lemma_first_occ(low@, attr@, from as int);
                }
                assert(i + attr.len() <= low.len());
                let nf: usize = i + attr.len();
                let ghost before = views(out@);
                match attr_value_exec(h, nf) {
                    Some(v) => {
                        let ghost vv = v@;
                        out.push(v);
                        assert(views(out@) =~= before.push(vv));
                        assert(views(out@) + scan_attr(h@, attr@, nf as int) =~= before + (seq![vv]
                            + scan_attr(h@, attr@, nf as int)));
                    },
                    None => {},
                }
                from = nf;
            },
        }
    }
    out
}

/// The file links of an HTML page as absolute URLs, relative links resolved
/// against the page URL `base` (see `extract_links_spec`).
pub fn extract_links(html: &str, base: &str) -> (r: Vec<String>)
    ensures
        string_views(r@) == extract_links_spec(html@, base@),
{
    let h = chars_of(html);
    let low = lower_vec(&h);
    let href = chars_of("href");
    let src = chars_of("src");
    proof {
        reveal_strlit("href");
        reveal_strlit("src");
    }
    let mut vals = scan_attr_exec(&h, &low, &href);
    let mut more = scan_attr_exec(&h, &low, &src);
    let ghost v1 = vals@;
    let ghost v2 = more@;
    vals.append(&mut more);
    assert(views(vals@) =~= views(v1) + views(v2));
    let mut out: Vec<String> = Vec::new();
    let mut k: usize = 0;
    while k < vals.len()
        invariant
            k <= vals@.len(),
            string_views(out@) == links_from(views(vals@).take(k as int), base@),
        decreases vals.len() - k,
    {
        let rel = string_of(vals[k].as_slice());
        proof {
            let t = views(vals@).take(k + 1);
            assert(t.drop_last() =~= views(vals@).take(k as int));
            assert(t.last() == vals@[k as int]@);
        }
        let joined = join_url(base, rel.as_str());
        add_joined_link(&mut out, joined);
        k = k + 1;
    }
    assert(views(vals@).take(k as int) =~= views(vals@));
    out
}

proof fn lemma_links_from_unique(vals: Seq<Seq<char>>, base: Seq<char>)
    ensures
        links_from(vals, base).no_duplicates(),
    decreases vals.len(),
{
    if vals.len() > 0 {
        lemma_links_from_unique(vals.drop_last(), base);
        let acc = links_from(vals.drop_last(), base);
        match url_join_parts(base, vals.last()) {
            Some((s, scheme, path)) => {
                if is_file_link(scheme, path) && !acc.contains(s) {
                    let r = acc.push(s);
                    assert forall|i: int, j: int| 0 <= i < r.len() && 0 <= j < r.len() && i != j
                        implies r[i] != r[j] by {
                        if i == acc.len() {
                            assert(r[j] == acc[j]);
                        } else if j == acc.len() {
                            assert(r[i] == acc[i]);
                        }
                    }
                }
            },
            None => {},
        }
    }
}

/// Each link of a page is listed once.
pub proof fn law_extract_links_unique(html: Seq<char>, base: Seq<char>)
    ensures
        extract_links_spec(html, base).no_duplicates(),
{
    lemma_links_from_unique(scan_attr(html, "href"@, 0) + scan_attr(html, "src"@, 0), base);
}

/// The extensions whose links the grabber collects: archives, disk images,
/// installers and packages, documents, audio, video, images and text data.
pub open spec fn grabbed_ext(e: Seq<char>) -> bool {
    ||| e == "zip"@
    ||| e == "rar"@
    ||| e == "7z"@
    ||| e == "gz"@
    ||| e == "tgz"@
    ||| e == "tar"@
    ||| e == "bz2"@
    ||| e == "xz"@
    ||| e == "iso"@
    ||| e == "exe"@
    ||| e == "msi"@
    ||| e == "apk"@
    ||| e == "dmg"@
    ||| e == "deb"@
    ||| e == "rpm"@
    ||| e == "pdf"@
    ||| e == "doc"@
    ||| e == "docx"@
    ||| e == "xls"@
    ||| e == "xlsx"@
    ||| e == "ppt"@
    ||| e == "pptx"@
    ||| e == "mp3"@
    ||| e == "wav"@
    ||| e == "flac"@
    ||| e == "ogg"@
    ||| e == "m4a"@
    ||| e == "mp4"@
    ||| e == "mkv"@
    ||| e == "avi"@
    ||| e == "mov"@
    ||| e == "wmv"@
    ||| e == "flv"@
    ||| e == "webm"@
    ||| e == "jpg"@
    ||| e == "jpeg"@
    ||| e == "png"@
    ||| e == "gif"@
    ||| e == "bmp"@
    ||| e == "webp"@
    ||| e == "svg"@
    ||| e == "txt"@
    ||| e == "csv"@
    ||| e == "json"@
    ||| e == "xml"@
    ||| e == "epub"@
    ||| e == "mobi"@
}

proof fn lemma_grabbed_ext_no_dot(e: Seq<char>)
    requires
        grabbed_ext(e),
    ensures
        !e.contains('.'),
{
    if e == "zip"@ {
        reveal_strlit("zip");
        assert(!e.contains('.'));
    }
    if e == "rar"@ {
        reveal_strlit("rar");
        assert(!e.contains('.'));
    }
    if e == "7z"@ {
        reveal_strlit("7z");
        assert(!e.contains('.'));
    }
    if e == "gz"@ {
        reveal_strlit("gz");
        assert(!e.contains('.'));
    }
    if e == "tgz"@ {
        reveal_strlit("tgz");
        assert(!e.contains('.'));
    }
    if e == "tar"@ {
        reveal_strlit("tar");
        assert(!e.contains('.'));
    }
    if e == "bz2"@ {
        reveal_strlit("bz2");
        assert(!e.contains('.'));
    }
    if e == "xz"@ {
        reveal_strlit("xz");
        assert(!e.contains('.'));
    }
    if e == "iso"@ {
        reveal_strlit("iso");
        assert(!e.contains('.'));
    }
    if e == "exe"@ {
        reveal_strlit("exe");
        assert(!e.contains('.'));
    }
    if e == "msi"@ {
        reveal_strlit("msi");
        assert(!e.contains('.'));
    }
    if e == "apk"@ {
        reveal_strlit("apk");
        assert(!e.contains('.'));
    }
    if e == "dmg"@ {
        reveal_strlit("dmg");
        assert(!e.contains('.'));
    }
    if e == "deb"@ {
        reveal_strlit("deb");
        assert(!e.contains('.'));
    }
    if e == "rpm"@ {
        reveal_strlit("rpm");
        assert(!e.contains('.'));
    }
    if e == "pdf"@ {
        reveal_strlit("pdf");
        assert(!e.contains('.'));
    }
    if e == "doc"@ {
        reveal_strlit("doc");
        assert(!e.contains('.'));
    }
    if e == "docx"@ {
        reveal_strlit("docx");
        assert(!e.contains('.'));
    }
    if e == "xls"@ {
        reveal_strlit("xls");
        assert(!e.contains('.'));
    }
    if e == "xlsx"@ {
        reveal_strlit("xlsx");
        assert(!e.contains('.'));
    }
    if e == "ppt"@ {
        reveal_strlit("ppt");
        assert(!e.contains('.'));
    }
    if e == "pptx"@ {
        reveal_strlit("pptx");
        assert(!e.contains('.'));
    }
    if e == "mp3"@ {
        reveal_strlit("mp3");
        assert(!e.contains('.'));
    }
    if e == "wav"@ {
        reveal_strlit("wav");
        assert(!e.contains('.'));
    }
    if e == "flac"@ {
        reveal_strlit("flac");
        assert(!e.contains('.'));
    }
    if e == "ogg"@ {
        reveal_strlit("ogg");
        assert(!e.contains('.'));
    }
    if e == "m4a"@ {
        reveal_strlit("m4a");
        assert(!e.contains('.'));
    }
    if e == "mp4"@ {
        reveal_strlit("mp4");
        assert(!e.contains('.'));
    }
    if e == "mkv"@ {
        reveal_strlit("mkv");
        assert(!e.contains('.'));
    }
    if e == "avi"@ {
        reveal_strlit("avi");
        assert(!e.contains('.'));
    }
    if e == "mov"@ {
        reveal_strlit("mov");
        assert(!e.contains('.'));
    }
    if e == "wmv"@ {
        reveal_strlit("wmv");
        assert(!e.contains('.'));
    }
    if e == "flv"@ {
        reveal_strlit("flv");
        assert(!e.contains('.'));
    }
    if e == "webm"@ {
        reveal_strlit("webm");
        assert(!e.contains('.'));
    }
    if e == "jpg"@ {
        reveal_strlit("jpg");
        assert(!e.contains('.'));
    }
    if e == "jpeg"@ {
        reveal_strlit("jpeg");
        assert(!e.contains('.'));
    }
    if e == "png"@ {
        reveal_strlit("png");
        assert(!e.contains('.'));
    }
    if e == "gif"@ {
        reveal_strlit("gif");
        assert(!e.contains('.'));
    }
    if e == "bmp"@ {
        reveal_strlit("bmp");
        assert(!e.contains('.'));
    }
    if e == "webp"@ {
        reveal_strlit("webp");
        assert(!e.contains('.'));
    }
    if e == "svg"@ {
        reveal_strlit("svg");
        assert(!e.contains('.'));
    }
    if e == "txt"@ {
        reveal_strlit("txt");
        assert(!e.contains('.'));
    }
    if e == "csv"@ {
        reveal_strlit("csv");
        assert(!e.contains('.'));
    }
    if e == "json"@ {
        reveal_strlit("json");
        assert(!e.contains('.'));
    }
    if e == "xml"@ {
        reveal_strlit("xml");
        assert(!e.contains('.'));
    }
    if e == "epub"@ {
        reveal_strlit("epub");
        assert(!e.contains('.'));
    }
    if e == "mobi"@ {
        reveal_strlit("mobi");
        assert(!e.contains('.'));
    }
}

/// Every http(s) link whose path ends (in any letter case) in `.` and one of
/// the collected extensions is a file link, so the grabber keeps it; links
/// of any other scheme never are.
pub proof fn law_listed_extensions_are_grabbed(scheme: Seq<char>, path: Seq<char>, e: Seq<char>)
    ensures
        (scheme == "http"@ || scheme == "https"@) && grabbed_ext(e) && ends_with_ext(path, e)
            ==> is_file_link(scheme, path),
        !(scheme == "http"@ || scheme == "https"@) ==> !is_file_link(scheme, path),
{
    if (scheme == "http"@ || scheme == "https"@) && grabbed_ext(e) && ends_with_ext(path, e) {
        lemma_grabbed_ext_no_dot(e);
        lemma_after_last_dot(lower_seq(path), e);
    }
}

} // verus!
