//! The `.adm` sidecar: crash-safe resume state of a download (URL, total
//! size, validators and per-segment progress), and where it is kept.
//!
//! Sidecars live in the application's state folder rather than beside the
//! output file; the old location (`<file>.adm` beside the output) is still
//! recognised.

use vstd::prelude::*;
use vstd::utf8::encode_utf8;
use crate::probe::{opt_view, Probe};
use crate::text::{append_chars, chars_of, string_of, vec_eq};

verus! {

/// Progress of one segment: bytes `start..=end`, of which `downloaded`
/// (counted from `start`) are on disk.
#[derive(Debug, Clone, Copy, PartialEq, Eq, Structural)]
pub struct SegRecord {
    pub start: u64,
    /// Inclusive.
    pub end: u64,
    pub downloaded: u64,
}

impl SegRecord {
    /// A non-empty range of a file whose size fits in a `u64`.
    pub open spec fn wf(self) -> bool {
        self.start <= self.end < u64::MAX
    }

    pub open spec fn length(self) -> nat {
        (self.end - self.start + 1) as nat
    }

    /// Number of bytes in the segment.
    pub fn len(&self) -> (r: u64)
        requires
            self.wf(),
        ensures
            r == self.length(),
    {
        self.end - self.start + 1
    }

    /// Whether every byte of the segment is on disk.
    pub fn is_done(&self) -> (r: bool)
        requires
            self.wf(),
        ensures
            r == (self.downloaded >= self.length()),
    {
        self.downloaded >= self.len()
    }
}

/// Resume state of one download.
#[derive(Debug, Clone)]
pub struct Sidecar {
    pub url: String,
    pub total: u64,
    pub etag: Option<String>,
    pub last_modified: Option<String>,
    pub segments: Vec<SegRecord>,
}

/// Two validators agree unless both are present and differ.
pub open spec fn validators_agree(a: Option<Seq<char>>, b: Option<Seq<char>>) -> bool {
    match (a, b) {
        (Some(x), Some(y)) => x == y,
        _ => true,
    }
}

impl Sidecar {
    /// Resuming is safe: the total size matches the server's, and for the
    /// same URL the validators (ETag, Last-Modified) agree as well. A new URL
    /// for the same file ("Refresh Link") is judged by the size alone, since
    /// regenerated links often change their validators.
    pub open spec fn compatible_with(self, url: Seq<char>, probe: Probe) -> bool {
        &&& probe.total == Some(self.total)
        &&& self.url@ == url ==> {
            &&& validators_agree(opt_view(self.etag), opt_view(probe.etag))
            &&& validators_agree(opt_view(self.last_modified), opt_view(probe.last_modified))
        }
    }

    /// Whether this state may be resumed against `url` as `probe` found it
    /// (see `compatible_with`).
    pub fn is_compatible(&self, url: &str, probe: &Probe) -> (r: bool)
        ensures
            r == self.compatible_with(url@, *probe),
    {
        match probe.total {
            Some(t) => {
                if t != self.total {
                    return false;
                }
            },
            None => {
                return false;
            },
        }
        let a = chars_of(self.url.as_str());
        let b = chars_of(url);
        if vec_eq(&a, &b) {
            if let (Some(x), Some(y)) = (&self.etag, &probe.etag) {
                if !(*x == *y) {
                    return false;
                }
            }
            if let (Some(x), Some(y)) = (&self.last_modified, &probe.last_modified) {
                if !(*x == *y) {
                    return false;
                }
            }
        }
        true
    }
}

/// A sidecar whose size no longer matches the server's is never resumed.
pub proof fn law_size_mismatch_restarts(sc: Sidecar, url: Seq<char>, probe: Probe)
    requires
        probe.total != Some(sc.total),
    ensures
        !sc.compatible_with(url, probe),
{
}

/// "Refresh Link": for a different URL, the size alone decides, whatever the
/// validators say.
pub proof fn law_refresh_link_size_decides(sc: Sidecar, url: Seq<char>, probe: Probe)
    requires
        sc.url@ != url,
    ensures
        sc.compatible_with(url, probe) <==> probe.total == Some(sc.total),
{
}

/// For the same URL, a changed validator forbids resuming.
pub proof fn law_same_url_changed_etag_restarts(sc: Sidecar, probe: Probe)
    requires
        sc.etag is Some,
        probe.etag is Some,
        sc.etag->0@ != probe.etag->0@,
    ensures
        !sc.compatible_with(sc.url@, probe),
{
}

// ------------------------------------------------------------------
// Location
// ------------------------------------------------------------------

pub const FNV_OFFSET: u64 = 0xcbf2_9ce4_8422_2325;

pub const FNV_PRIME: u64 = 0x0000_0100_0000_01b3;

/// 64-bit FNV-1a over a byte sequence.
pub open spec fn fnv1a64_spec(b: Seq<u8>) -> u64
    decreases b.len(),
{
    if b.len() == 0 {
        FNV_OFFSET
    } else {
        (fnv1a64_spec(b.drop_last()) ^ (b.last() as u64)).wrapping_mul(FNV_PRIME)
    }
}

fn fnv1a64_bytes(b: &[u8]) -> (h: u64)
    ensures
        h == fnv1a64_spec(b@),
{
    let mut h: u64 = FNV_OFFSET;
    let mut i: usize = 0;
    while i < b.len()
        invariant
            i <= b.len(),
            h == fnv1a64_spec(b@.take(i as int)),
        decreases b.len() - i,
    {
        assert(b@.take(i + 1).drop_last() =~= b@.take(i as int));
        h = (h ^ (b[i] as u64)).wrapping_mul(FNV_PRIME);
        i = i + 1;
    }
    assert(b@.take(i as int) =~= b@);
    h
}

/// FNV-1a hash of the UTF-8 text of a path: stable across processes and
/// Rust versions.
pub fn fnv1a64(path: &str) -> (h: u64)
    ensures
        h == fnv1a64_spec(encode_utf8(path@)),
{
    fnv1a64_bytes(path.as_bytes())
}

pub open spec fn hex_digit(d: nat) -> char {
    if d < 10 {
        (d + 48) as char
    } else {
        (d + 87) as char
    }
}

/// The last `k` lower-case hexadecimal digits of `n` (`{:0k$x}` for values
/// that fit).
pub open spec fn hex_fixed(n: nat, k: nat) -> Seq<char>
    decreases k,
{
    if k == 0 {
        seq![]
    } else {
        hex_fixed(n / 16, (k - 1) as nat).push(hex_digit(n % 16))
    }
}

fn push_hex_fixed(out: &mut Vec<char>, n: u64, k: u32)
    ensures
        final(out)@ == old(out)@ + hex_fixed(n as nat, k as nat),
    decreases k,
{
    if k == 0 {
        assert(old(out)@ + hex_fixed(n as nat, 0) =~= old(out)@);
        return;
    }
    push_hex_fixed(out, n / 16, k - 1);
    let d: u8 = (n % 16) as u8;
    let c: char = if d < 10 {
        (d + 48) as char
    } else {
        (d + 87) as char
    };
    assert(c == hex_digit((n % 16) as nat));
    let ghost mid = out@;
    out.push(c);
    assert(out@ =~= old(out)@ + hex_fixed(n as nat, k as nat));
}

/// `dir` joined with `name`, with `\` as the separator (the layout of the
/// Windows state folder).
pub open spec fn join_path(dir: Seq<char>, name: Seq<char>) -> Seq<char> {
    if dir.len() > 0 && (dir.last() == '\\' || dir.last() == '/') {
        dir + name
    } else {
        dir + seq!['\\'] + name
    }
}

/// File name of the sidecar: `<stem>-<hash>.adm`, the stem being the first
/// 80 characters of the output's file name and the hash the 16-digit
/// FNV-1a of the output path.
pub open spec fn sidecar_name(output: Seq<char>, file_name: Seq<char>) -> Seq<char> {
    file_name.take(if file_name.len() < 80 {
        file_name.len() as int
    } else {
        80
    }) + seq!['-'] + hex_fixed(fnv1a64_spec(encode_utf8(output)) as nat, 16) + ".adm"@
}

/// The legacy location: `<output>.adm`, beside the output.
pub open spec fn legacy_path(output: Seq<char>) -> Seq<char> {
    output + ".adm"@
}

/// Sidecar path of an output file (see `sidecar_name`), in `state_dir`; with
/// no state folder, the legacy location beside the output.
pub open spec fn sidecar_path(
    output: Seq<char>,
    file_name: Option<Seq<char>>,
    state_dir: Option<Seq<char>>,
) -> Seq<char> {
    match state_dir {
        None => legacy_path(output),
        Some(dir) => join_path(
            dir,
            sidecar_name(
                output,
                match file_name {
                    Some(f) => f,
                    None => seq![],
                },
            ),
        ),
    }
}

/// Path of the sidecar in the old location beside the output file.
pub fn legacy_path_for(output: &str) -> (r: String)
    ensures
        r@ == legacy_path(output@),
{
    let mut v = chars_of(output);
    let ext = chars_of(".adm");
    append_chars(&mut v, &ext);
    string_of(v.as_slice())
}

/// Path of the sidecar for `output`, whose file name (`Path::file_name`) is
/// `file_name`, inside the state folder `state_dir` (`None` when it is not
/// known, which falls back to the legacy location).
pub fn path_for(output: &str, file_name: Option<&str>, state_dir: Option<&str>) -> (r: String)
    ensures
        r@ == sidecar_path(
            output@,
            crate::probe::opt_str_view(file_name),
            crate::probe::opt_str_view(state_dir),
        ),
{
    let dir = match state_dir {
        None => {
            return legacy_path_for(output);
        },
        Some(d) => d,
    };
    let name: Vec<char> = match file_name {
        Some(f) => chars_of(f),
        None => Vec::new(),
    };
    let mut v = chars_of(dir);
    if !(v.len() > 0 && (v[v.len() - 1] == '\\' || v[v.len() - 1] == '/')) {
        v.push('\\');
    }
    let ghost dir_part = v@;
    let keep: usize = if name.len() < 80 {
        name.len()
    } else {
        80
    };
    let stem = crate::text::slice_vec(&name, 0, keep);
    append_chars(&mut v, &stem);
    v.push('-');
    let h = fnv1a64(output);
    push_hex_fixed(&mut v, h, 16);
    let ext = chars_of(".adm");
    append_chars(&mut v, &ext);
    proof {
        assert(name@.subrange(0, keep as int) =~= name@.take(keep as int));
        let fname = match file_name {
            Some(f) => f@,
            None => seq![],
        };
        assert(name@ == fname);
        assert(v@ =~= join_path(dir@, sidecar_name(output@, fname)));
    }
    string_of(v.as_slice())
}

} // verus!
