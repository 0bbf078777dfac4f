//! Native messaging between the browser extension and the bridge: each
//! message is a 4-byte little-endian length followed by that many bytes of
//! JSON. Also the check of extension ids given at registration, and the
//! download request that a message from the extension stands for.

use vstd::prelude::*;
use crate::batch::utf8_len;
use crate::probe::opt_view;
use crate::queue::DownloadAddParams;
use crate::text::chars_of;

verus! {

/// Largest message accepted from the browser (4 MiB).
pub const MAX_MESSAGE: u64 = 4194304;

pub open spec fn le_u32(h: Seq<u8>) -> nat {
    h[0] as nat + 256 * (h[1] as nat) + 65536 * (h[2] as nat) + 16777216 * (h[3] as nat)
}

/// Length announced by a message header, when the message may be read: not
/// empty and at most 4 MiB (otherwise the host stops).
pub open spec fn message_len_spec(h: Seq<u8>) -> Option<nat> {
    let n = le_u32(h);
    if n == 0 || n > MAX_MESSAGE {
        None
    } else {
        Some(n)
    }
}

pub fn message_len(header: [u8; 4]) -> (r: Option<u64>)
    ensures
        match r {
            Some(n) => message_len_spec(header@) == Some(n as nat),
            None => message_len_spec(header@) is None,
        },
{
    let n: u64 = header[0] as u64 + 256 * (header[1] as u64) + 65536 * (header[2] as u64) + 16777216
        * (header[3] as u64);
    if n == 0 || n > MAX_MESSAGE {
        None
    } else {
        Some(n)
    }
}

/// The frame of a message: its length in four little-endian bytes, then the
/// message.
pub open spec fn frame_spec(body: Seq<u8>) -> Seq<u8> {
    let n = body.len();
    seq![(n % 256) as u8, ((n / 256) % 256) as u8, ((n / 65536) % 256) as u8, ((n / 16777216) % 256) as u8]
        + body
}

pub fn frame_message(body: &[u8]) -> (r: Vec<u8>)
    requires
        body@.len() <= u32::MAX,
    ensures
        r@ == frame_spec(body@),
{
    let n: u64 = body.len() as u64;
    let mut out: Vec<u8> = Vec::new();
    out.push((n % 256) as u8);
    out.push(((n / 256) % 256) as u8);
    out.push(((n / 65536) % 256) as u8);
    out.push(((n / 16777216) % 256) as u8);
    let mut i: usize = 0;
    while i < body.len()
        invariant
            i <= body@.len(),
            n == body@.len(),
            out@ =~= frame_spec(body@).take(4 + i),
        decreases body.len() - i,
    {
        out.push(body[i]);
        i = i + 1;
        assert(out@ =~= frame_spec(body@).take(4 + i));
    }
    assert(frame_spec(body@).take(4 + i) =~= frame_spec(body@));
    out
}

/// Reading back the header of a frame gives the message length, for every
/// message the host accepts.
pub proof fn law_frame_roundtrip(body: Seq<u8>)
    requires
        0 < body.len() <= MAX_MESSAGE,
    ensures
        message_len_spec(frame_spec(body).take(4)) == Some(body.len()),
{
    let n = body.len();
    let h = frame_spec(body).take(4);
    assert(h[0] == (n % 256) as u8);
    assert(h[1] == ((n / 256) % 256) as u8);
    assert(h[2] == ((n / 65536) % 256) as u8);
    assert(h[3] == ((n / 16777216) % 256) as u8);
    assert(n == (n % 256) + 256 * ((n / 256) % 256) + 65536 * ((n / 65536) % 256) + 16777216 * ((n
        / 16777216) % 256)) by (nonlinear_arith)
        requires
            n <= 4194304,
    ;
}

/// A Chrome/Edge extension id: 32 letters from `a` to `p`.
pub open spec fn valid_extension_id_spec(id: Seq<char>) -> bool {
    utf8_len(id) == 32 && forall|i: int| 0 <= i < id.len() ==> 'a' <= #[trigger] id[i] && id[i] <= 'p'
}

proof fn lemma_ascii_utf8_len(s: Seq<char>)
    requires
        forall|i: int| 0 <= i < s.len() ==> 'a' <= #[trigger] s[i] && s[i] <= 'p',
    ensures
        utf8_len(s) == s.len(),
    decreases s.len(),
{
    if s.len() > 0 {
        assert forall|i: int| 0 <= i < s.drop_last().len() implies 'a' <= #[trigger] s.drop_last()[i]
            && s.drop_last()[i] <= 'p' by {
            assert(s.drop_last()[i] == s[i]);
        }
        lemma_ascii_utf8_len(s.drop_last());
        assert('a' <= s[s.len() - 1] && s[s.len() - 1] <= 'p');
    }
}

pub fn valid_extension_id(id: &str) -> (r: bool)
    ensures
        r == valid_extension_id_spec(id@),
{
    let v = chars_of(id);
    let mut i: usize = 0;
    while i < v.len()
        invariant
            i <= v@.len(),
            v@ == id@,
            forall|j: int| 0 <= j < i ==> 'a' <= #[trigger] v@[j] && v@[j] <= 'p',
        decreases v.len() - i,
    {
        if !('a' <= v[i] && v[i] <= 'p') {
            assert(!('a' <= v@[i as int] && v@[i as int] <= 'p'));
            return false;
        }
        i = i + 1;
    }
    proof {
        lemma_ascii_utf8_len(v@);
    }
    v.len() == 32
}

// ------------------------------------------------------------------
// Messages from the extension
// ------------------------------------------------------------------

/// The string value of the field `key` of a JSON message, as serde_json
/// reads it.
pub uninterp spec fn json_str_field(body: Seq<u8>, key: Seq<char>) -> Option<Seq<char>>;

/// `serde_json::from_slice::<serde_json::Value>` on the message (a message
/// that is not JSON reads as `null`), then `Value::get(key)` and
/// `Value::as_str`. The contract only names the result: what counts as JSON
/// and as a string field is serde_json's to decide.
#[verifier::external_body]
fn json_str(body: &[u8], key: &str) -> (r: Option<String>)
    ensures
        match r {
            Some(s) => json_str_field(body@, key@) == Some(s@),
            None => json_str_field(body@, key@) is None,
        },
{
    let v: serde_json::Value = serde_json::from_slice(body).unwrap_or_default();
    v.get(key).and_then(|x| x.as_str()).map(String::from)
}

/// The download request made of the string fields of a message: its `url`
/// must be present and non-empty, else the request is refused with the
/// error `url kosong` ("empty url"); the other fields are carried over.
pub fn params_from_fields(
    url: Option<String>,
    filename: Option<String>,
    referrer: Option<String>,
    user_agent: Option<String>,
    cookies: Option<String>,
) -> (r: Result<DownloadAddParams, String>)
    ensures
        r is Ok <==> (url matches Some(u) && u@.len() > 0),
        r matches Ok(p) ==> {
            &&& url == Some(p.url)
            &&& p.filename == filename
            &&& p.referrer == referrer
            &&& p.user_agent == user_agent
            &&& p.cookies == cookies
            &&& !p.insecure
        },
        r matches Err(e) ==> e@ == "url kosong"@,
{
    let url = match url {
        Some(u) => u,
        None => {
            return Err("url kosong".to_string());
        },
    };
    if url.as_str().is_empty() {
        return Err("url kosong".to_string());
    }
    Ok(DownloadAddParams { url, filename, insecure: false, referrer, user_agent, cookies })
}

/// The download a message from the extension asks for (see
/// `params_from_fields`), read from its `url`, `filename`, `referrer`,
/// `userAgent` and `cookies` fields.
pub fn params_from_message(body: &[u8]) -> (r: Result<DownloadAddParams, String>)
    ensures
        r is Ok <==> (json_str_field(body@, "url"@) matches Some(u) && u.len() > 0),
        r matches Ok(p) ==> {
            &&& json_str_field(body@, "url"@) == Some(p.url@)
            &&& opt_view(p.filename) == json_str_field(body@, "filename"@)
            &&& opt_view(p.referrer) == json_str_field(body@, "referrer"@)
            &&& opt_view(p.user_agent) == json_str_field(body@, "userAgent"@)
            &&& opt_view(p.cookies) == json_str_field(body@, "cookies"@)
            &&& !p.insecure
        },
        r matches Err(e) ==> e@ == "url kosong"@,
{
    params_from_fields(
        json_str(body, "url"),
        json_str(body, "filename"),
        json_str(body, "referrer"),
        json_str(body, "userAgent"),
        json_str(body, "cookies"),
    )
}

} // verus!
