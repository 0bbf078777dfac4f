//! Reading a `Range: bytes=0-0` probe response: file size, resume support,
//! validators, and the file name the server suggests.

use vstd::prelude::*;
use vstd::utf8::{decode_utf8, encode_utf8, valid_utf8};
use crate::text::{
    after_last2, after_last2_start, before_first2, before_first2_end, chars_of, find_from,
    first_occ, last_pos2, lemma_last_pos2, lower_seq, lower_vec, parse_u64, parse_u64_range,
    slice_vec, string_of, trim, trim_range,
};

verus! {

/// What a probe learned about a download.
#[derive(Debug, Clone)]
pub struct Probe {
    /// Total size, when known.
    pub total: Option<u64>,
    /// The server honours `Range` (resume and several connections).
    pub resumable: bool,
    pub etag: Option<String>,
    pub last_modified: Option<String>,
    /// File name from the `Content-Disposition` header, when present.
    pub suggested_filename: Option<String>,
}

/// Failures of the download engine.
#[derive(Debug, Clone)]
pub enum Error {
    /// The server answered with a status that is neither 206 nor 2xx.
    BadStatus(u16),
    /// A resumable download whose size is unknown.
    UnknownSize,
    /// Any other failure (network, file system), as text.
    Other(String),
}

// ------------------------------------------------------------------
// Percent-decoding
// ------------------------------------------------------------------

/// An ASCII hexadecimal digit (`char::to_digit(16)` succeeds).
pub open spec fn is_hex(b: u8) -> bool {
    (48 <= b <= 57) || (97 <= b <= 102) || (65 <= b <= 70)
}

pub open spec fn hex_val(b: u8) -> nat {
    if b <= 57 {
        (b - 48) as nat
    } else if b >= 97 {
        (b - 87) as nat
    } else {
        (b - 55) as nat
    }
}

/// Replaces every `%` followed by two hexadecimal digits with the byte they
/// denote; every other byte is kept.
pub open spec fn pct_decode_bytes(b: Seq<u8>) -> Seq<u8>
    decreases b.len(),
{
    if b.len() == 0 {
        seq![]
    } else if b[0] == 37 && b.len() > 2 && is_hex(b[1]) && is_hex(b[2]) {
        seq![(hex_val(b[1]) * 16 + hex_val(b[2])) as u8] + pct_decode_bytes(b.skip(3))
    } else {
        seq![b[0]] + pct_decode_bytes(b.skip(1))
    }
}

/// What `String::from_utf8_lossy` makes of a byte sequence.
pub uninterp spec fn utf8_lossy(bytes: Seq<u8>) -> Seq<char>;

/// `String::from_utf8_lossy(..).into_owned()`. Its documentation shows that
/// valid UTF-8 is decoded as it is; the replacement of invalid sequences by
/// U+FFFD is only named here, not stated.
#[verifier::external_body]
fn from_utf8_lossy(b: &[u8]) -> (s: String)
    ensures
        s@ == utf8_lossy(b@),
        valid_utf8(b@) ==> s@ == decode_utf8(b@),
{
    String::from_utf8_lossy(b).into_owned()
}

/// Text of a percent-encoded value, decoded as UTF-8: bytes that are valid
/// UTF-8 read as they are; otherwise invalid sequences are replaced (as
/// `String::from_utf8_lossy` does).
pub open spec fn percent_decode_spec(s: Seq<char>) -> Seq<char> {
    let b = pct_decode_bytes(encode_utf8(s));
    if valid_utf8(b) {
        decode_utf8(b)
    } else {
        utf8_lossy(b)
    }
}

fn hex_val_exec(b: u8) -> (r: u8)
    requires
        is_hex(b),
    ensures
        r == hex_val(b),
        r < 16,
{
    if b <= 57 {
        b - 48
    } else if b >= 97 {
        b - 87
    } else {
        b - 55
    }
}

fn pct_decode_exec(b: &[u8]) -> (r: Vec<u8>)
    ensures
        r@ == pct_decode_bytes(b@),
{
    let mut out: Vec<u8> = Vec::new();
    let mut i: usize = 0;
    assert(b@.skip(0) =~= b@);
    assert(out@ + pct_decode_bytes(b@) =~= pct_decode_bytes(b@));
    while i < b.len()
        invariant
            i <= b.len(),
            out@ + pct_decode_bytes(b@.skip(i as int)) == pct_decode_bytes(b@),
        decreases b.len() - i,
    {
        let ghost rest = b@.skip(i as int);
        if b[i] == 37 && b.len() - i > 2 && is_hex_exec(b[i + 1]) && is_hex_exec(b[i + 2]) {
            let h = hex_val_exec(b[i + 1]);
            let l = hex_val_exec(b[i + 2]);
            let v: u8 = h * 16 + l;
            proof {
                assert(rest[0] == b[i as int] && rest[1] == b[i + 1] && rest[2] == b[i + 2]);
                assert(rest.skip(3) =~= b@.skip(i + 3));
            }
            let ghost old_out = out@;
            out.push(v);
            assert(out@ + pct_decode_bytes(b@.skip(i + 3)) =~= old_out + pct_decode_bytes(rest));
            i = i + 3;
        } else {
            proof {
                assert(rest[0] == b[i as int]);
                if rest.len() > 2 {
                    assert(rest[1] == b[i + 1] && rest[2] == b[i + 2]);
                }
                assert(rest.skip(1) =~= b@.skip(i + 1));
            }
            let ghost old_out = out@;
            out.push(b[i]);
            assert(out@ + pct_decode_bytes(b@.skip(i + 1)) =~= old_out + pct_decode_bytes(rest));
            i = i + 1;
        }
    }
    assert(b@.skip(i as int) =~= Seq::<u8>::empty());
    assert(out@ + Seq::<u8>::empty() =~= out@);
    out
}

fn is_hex_exec(b: u8) -> (r: bool)
    ensures
        r == is_hex(b),
{
    (48 <= b && b <= 57) || (97 <= b && b <= 102) || (65 <= b && b <= 70)
}

/// Decodes `%XX` escapes (two hexadecimal digits) in the UTF-8 bytes of
/// `s`; the result is read as UTF-8, invalid sequences replaced.
pub fn percent_decode(s: &str) -> (r: String)
    ensures
        r@ == percent_decode_spec(s@),
        valid_utf8(pct_decode_bytes(encode_utf8(s@))) ==> r@ == decode_utf8(
            pct_decode_bytes(encode_utf8(s@)),
        ),
{
    let bytes = s.as_bytes();
    let dec = pct_decode_exec(bytes);
    from_utf8_lossy(dec.as_slice())
}

fn percent_decode_vec(v: &Vec<char>) -> (r: Vec<char>)
    ensures
        r@ == percent_decode_spec(v@),
{
    let s = string_of(v.as_slice());
    let d = percent_decode(s.as_str());
    chars_of(d.as_str())
}

// ------------------------------------------------------------------
// File names from headers
// ------------------------------------------------------------------

/// The last path component (split at `/` and `\`), trimmed.
pub open spec fn basename_spec(s: Seq<char>) -> Seq<char> {
    trim(after_last2(s, '/', '\\'))
}

fn basename_vec(v: &Vec<char>) -> (r: Vec<char>)
    ensures
        r@ == basename_spec(v@),
{
    let k = after_last2_start(v, 0, v.len(), '/', '\\');
    assert(v@.subrange(0, v@.len() as int) =~= v@);
    let (a, b) = trim_range(v, k, v.len());
    assert(v@.subrange(k as int, v@.len() as int) =~= after_last2(v@, '/', '\\'));
    slice_vec(v, a, b)
}

/// The last path component of `s` (after the last `/` or `\`), trimmed.
pub fn basename(s: &str) -> (r: String)
    ensures
        r@ == basename_spec(s@),
{
    let v = chars_of(s);
    let b = basename_vec(&v);
    string_of(b.as_slice())
}

/// `s.trim_matches('"')`.
pub open spec fn trim_quotes(s: Seq<char>) -> Seq<char>
    decreases s.len(),
{
    if s.len() > 0 && s[0] == '"' {
        trim_quotes(s.drop_first())
    } else if s.len() > 0 && s.last() == '"' {
        trim_quotes(s.drop_last())
    } else {
        s
    }
}

/// The `filename*=` form (RFC 5987): `charset'lang'percent-encoded`.
pub open spec fn cd_extended(v: Seq<char>) -> Option<Seq<char>> {
    match first_occ(lower_seq(v), "filename*="@, 0) {
        Some(i) => {
            let rest = trim(v.skip(i + 10));
            let enc = trim(before_first2(rest, ';', ';'));
            let value = after_last2(enc, '\'', '\'');
            let name = basename_spec(percent_decode_spec(value));
            if name.len() > 0 {
                Some(name)
            } else {
                None
            }
        },
        None => None,
    }
}

/// The plain `filename=` form, quoted or not.
pub open spec fn cd_plain(v: Seq<char>) -> Option<Seq<char>> {
    match first_occ(lower_seq(v), "filename="@, 0) {
        Some(i) => {
            let rest = trim(v.skip(i + 9));
            let raw = trim(before_first2(rest, ';', ';'));
            let name = basename_spec(trim(trim_quotes(raw)));
            if name.len() > 0 {
                Some(name)
            } else {
                None
            }
        },
        None => None,
    }
}

/// File name of a `Content-Disposition` value: the encoded `filename*=`
/// takes precedence over `filename=`; only the last path component is kept.
pub open spec fn content_disposition_name(v: Seq<char>) -> Option<Seq<char>> {
    if cd_extended(v) is Some {
        cd_extended(v)
    } else {
        cd_plain(v)
    }
}

/// Bounds of `trim_quotes(v[lo..hi])`.
fn trim_quotes_range(v: &Vec<char>, lo: usize, hi: usize) -> (r: (usize, usize))
    requires
        lo <= hi <= v.len(),
    ensures
        lo <= r.0 <= r.1 <= hi,
        v@.subrange(r.0 as int, r.1 as int) == trim_quotes(v@.subrange(lo as int, hi as int)),
{
    let mut a: usize = lo;
    let mut b: usize = hi;
    while a < b && (v[a] == '"' || v[b - 1] == '"')
        invariant
            lo <= a <= b <= hi <= v.len(),
            trim_quotes(v@.subrange(lo as int, hi as int)) == trim_quotes(
                v@.subrange(a as int, b as int),
            ),
        decreases b - a,
    {
        if v[a] == '"' {
            assert(v@.subrange(a as int, b as int).drop_first() =~= v@.subrange(a + 1, b as int));
            a = a + 1;
        } else {
            assert(v@.subrange(a as int, b as int).drop_last() =~= v@.subrange(a as int, b - 1));
            b = b - 1;
        }
    }
    (a, b)
}

/// Value part after `key=` at position `i` of `v`: trimmed, cut at `;`,
/// trimmed again.
fn param_value(v: &Vec<char>, start: usize) -> (r: (usize, usize))
    requires
        start <= v.len(),
    ensures
        r.0 <= r.1 <= v.len(),
        v@.subrange(r.0 as int, r.1 as int) == trim(
            before_first2(trim(v@.skip(start as int)), ';', ';'),
        ),
{
    let (a, b) = trim_range(v, start, v.len());
    assert(v@.subrange(start as int, v@.len() as int) =~= v@.skip(start as int));
    let ghost rest = v@.subrange(a as int, b as int);
    let e = before_first2_end(v, a, b, ';', ';');
    assert(v@.subrange(a as int, e as int) =~= before_first2(rest, ';', ';'));
    trim_range(v, a, e)
}

fn cd_extended_exec(v: &Vec<char>, low: &Vec<char>) -> (r: Option<Vec<char>>)
    requires
        low@ == lower_seq(v@),
    ensures
        r matches Some(n) ==> cd_extended(v@) == Some(n@),
        r is None ==> cd_extended(v@) is None,
{
    let key = chars_of("filename*=");
    proof {
        reveal_strlit("filename*=");
    }
    match find_from(low, &key, 0) {
        None => None,
        Some(i) => {
            proof {
                crate::text::lemma_first_occ(low@, key@, 0);
            }
            assert(low@.len() == v@.len());
            assert(i + 10 <= low.len());
            let (a, b) = param_value(v, i + 10);
            let k = after_last2_start(v, a, b, '\'', '\'');
            let value = slice_vec(v, k, b);
            assert(value@ =~= after_last2(v@.subrange(a as int, b as int), '\'', '\''));
            let dec = percent_decode_vec(&value);
            let name = basename_vec(&dec);
            if name.len() > 0 {
                Some(name)
            } else {
                None
            }
        },
    }
}

fn cd_plain_exec(v: &Vec<char>, low: &Vec<char>) -> (r: Option<Vec<char>>)
    requires
        low@ == lower_seq(v@),
    ensures
        r matches Some(n) ==> cd_plain(v@) == Some(n@),
        r is None ==> cd_plain(v@) is None,
{
    let key = chars_of("filename=");
    proof {
        reveal_strlit("filename=");
    }
    match find_from(low, &key, 0) {
        None => None,
        Some(i) => {
            proof {
                crate::text::lemma_first_occ(low@, key@, 0);
            }
            assert(low@.len() == v@.len());
            assert(i + 9 <= low.len());
            let (a, b) = param_value(v, i + 9);
            let (qa, qb) = trim_quotes_range(v, a, b);
            let (ta, tb) = trim_range(v, qa, qb);
            let unq = slice_vec(v, ta, tb);
            let name = basename_vec(&unq);
            if name.len() > 0 {
                Some(name)
            } else {
                None
            }
        },
    }
}

/// File name suggested by a `Content-Disposition` header value (see
/// `content_disposition_name`).
pub fn parse_content_disposition(v: &str) -> (r: Option<String>)
    ensures
        r matches Some(n) ==> content_disposition_name(v@) == Some(n@),
        r is None ==> content_disposition_name(v@) is None,
{
    let chars = chars_of(v);
    let low = lower_vec(&chars);
    match cd_extended_exec(&chars, &low) {
        Some(n) => Some(string_of(n.as_slice())),
        None => match cd_plain_exec(&chars, &low) {
            Some(n) => Some(string_of(n.as_slice())),
            None => None,
        },
    }
}

// ------------------------------------------------------------------
// Sizes and status
// ------------------------------------------------------------------

/// Total size in a `Content-Range` value such as `bytes 0-0/12345`
/// (`None` for `bytes 0-0/*` or anything unreadable).
pub open spec fn content_range_total(v: Seq<char>) -> Option<u64> {
    let p = last_pos2(v, '/', '/');
    if p < 0 {
        None
    } else {
        parse_u64(trim(v.skip(p + 1)))
    }
}

pub fn parse_content_range_total(v: &str) -> (r: Option<u64>)
    ensures
        r == content_range_total(v@),
{
    let chars = chars_of(v);
    let k = after_last2_start(&chars, 0, chars.len(), '/', '/');
    assert(chars@.subrange(0, chars@.len() as int) =~= chars@);
    if k == 0 {
        return None;
    }
    proof {
        lemma_last_pos2(chars@, '/', '/');
    }
    let (a, b) = trim_range(&chars, k, chars.len());
    assert(chars@.subrange(k as int, chars@.len() as int) =~= chars@.skip(k as int));
    parse_u64_range(&chars, a, b)
}

pub open spec fn is_success(status: u16) -> bool {
    200 <= status <= 299
}

/// The probe that a response describes, from its status and the headers
/// that matter (each present and readable as text, or `None`): with 206 the
/// total comes from `Content-Range` and the download is resumable; with
/// another 2xx from `Content-Length`, resumable when `Accept-Ranges` is
/// `bytes`. Resuming needs a known size.
pub open spec fn probe_of(
    status: u16,
    content_range: Option<Seq<char>>,
    content_length: Option<u64>,
    accept_ranges: Option<Seq<char>>,
) -> Option<(Option<u64>, bool)> {
    if status == 206 {
        let total = match content_range {
            Some(cr) => content_range_total(cr),
            None => None,
        };
        Some((total, total is Some))
    } else if is_success(status) {
        let accept = match accept_ranges {
            Some(a) => lower_seq(a) == "bytes"@,
            None => false,
        };
        Some((content_length, accept && content_length is Some))
    } else {
        None
    }
}

pub open spec fn opt_view(o: Option<String>) -> Option<Seq<char>> {
    match o {
        Some(s) => Some(s@),
        None => None,
    }
}

pub open spec fn opt_str_view(o: Option<&str>) -> Option<Seq<char>> {
    match o {
        Some(s) => Some(s@),
        None => None,
    }
}

/// Builds the probe of a response (see `probe_of`); a status that is neither
/// 206 nor 2xx is an error.
#[allow(clippy::too_many_arguments)]
pub fn probe_from_response(
    status: u16,
    content_range: Option<&str>,
    content_length: Option<u64>,
    accept_ranges: Option<&str>,
    etag: Option<String>,
    last_modified: Option<String>,
    content_disposition: Option<&str>,
) -> (r: Result<Probe, Error>)
    ensures
        probe_of(status, opt_str_view(content_range), content_length, opt_str_view(accept_ranges))
            is None <==> r is Err,
        r matches Err(e) ==> e == Error::BadStatus(status),
        r matches Ok(p) ==> {
            &&& probe_of(
                status,
                opt_str_view(content_range),
                content_length,
                opt_str_view(accept_ranges),
            ) == Some((p.total, p.resumable))
            &&& p.etag == etag
            &&& p.last_modified == last_modified
            &&& opt_view(p.suggested_filename) == match content_disposition {
                Some(cd) => content_disposition_name(cd@),
                None => None,
            }
        },
{
    let suggested = match content_disposition {
        Some(cd) => parse_content_disposition(cd),
        None => None,
    };
    let (total, resumable) = if status == 206 {
        let total = match content_range {
            Some(cr) => parse_content_range_total(cr),
            None => None,
        };
        (total, true)
    } else if 200 <= status && status <= 299 {
        let accept = match accept_ranges {
            Some(a) => {
                let av = chars_of(a);
                let low = lower_vec(&av);
                crate::category::eq_lit(&low, "bytes")
            },
            None => false,
        };
        (content_length, accept)
    } else {
        return Err(Error::BadStatus(status));
    };
    Ok(
        Probe {
            total,
            resumable: resumable && total.is_some(),
            etag,
            last_modified,
            suggested_filename: suggested,
        },
    )
}

/// Resuming is offered only when the size is known: a probe that reports
/// the download resumable also reports its total.
pub proof fn law_resumable_needs_size(
    status: u16,
    content_range: Option<Seq<char>>,
    content_length: Option<u64>,
    accept_ranges: Option<Seq<char>>,
)
    ensures
        probe_of(status, content_range, content_length, accept_ranges) matches Some((t, res)) ==> (
        res ==> t is Some),
{
}

} // verus!
