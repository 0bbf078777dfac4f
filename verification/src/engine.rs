//! Events of the in-process engine and small decisions of the download list.

use vstd::prelude::*;
use crate::category::{category_of_ext, extension, folder_of, Category};
use crate::download::{Outcome, Progress, SegmentProgress};
use crate::names::{pick_filename, pick_filename_spec};
use crate::probe::opt_view;
use crate::queue::DownloadAddParams;
use crate::sidecar::join_path;
use crate::text::{chars_of, contains_vec_sub, decimal, lower_vec, push_decimal, string_of};

verus! {

/// What the engine reports about a download.
#[derive(Debug, Clone)]
pub enum EngineEvent {
    Queued { id: u64, url: String, output: String },
    Started { id: u64, url: String, output: String },
    /// The file name was corrected (e.g. from `Content-Disposition`).
    Renamed { id: u64, output: String },
    Progress {
        id: u64,
        downloaded: u64,
        total: Option<u64>,
        speed_bps: u64,
        segments: Vec<(u64, u64, u64)>,
    },
    Completed { id: u64, bytes: u64 },
    Paused { id: u64, downloaded: u64 },
    Failed { id: u64, error: String },
}

pub open spec fn segment_triples(s: Seq<SegmentProgress>) -> Seq<(u64, u64, u64)> {
    s.map_values(|p: SegmentProgress| (p.start, p.end, p.downloaded))
}

/// The progress event of download `id`.
pub fn progress_event(id: u64, p: &Progress) -> (r: EngineEvent)
    ensures
        match r {
            EngineEvent::Progress { id: i, downloaded, total, speed_bps, segments } => i == id
                && downloaded == p.downloaded && total == p.total && speed_bps == p.speed_bps
                && segments@ == segment_triples(p.segments@),
            _ => false,
        },
{
    let mut segs: Vec<(u64, u64, u64)> = Vec::new();
    let mut i: usize = 0;
    while i < p.segments.len()
        invariant
            i <= p.segments@.len(),
            segs@ =~= segment_triples(p.segments@.take(i as int)),
        decreases p.segments.len() - i,
    {
        let s = p.segments[i];
        segs.push((s.start, s.end, s.downloaded));
        i = i + 1;
        assert(segs@ =~= segment_triples(p.segments@.take(i as int)));
    }
    assert(p.segments@.take(i as int) =~= p.segments@);
    EngineEvent::Progress {
        id,
        downloaded: p.downloaded,
        total: p.total,
        speed_bps: p.speed_bps,
        segments: segs,
    }
}

/// The final event of download `id`: completed, paused, or failed with the
/// error text.
pub fn end_event(id: u64, res: Result<Outcome, String>) -> (r: EngineEvent)
    ensures
        match res {
            Ok(Outcome::Completed { bytes }) => r == EngineEvent::Completed { id, bytes },
            Ok(Outcome::Paused { downloaded, .. }) => r == EngineEvent::Paused { id, downloaded },
            Err(e) => r == EngineEvent::Failed { id, error: e },
        },
{
    match res {
        Ok(Outcome::Completed { bytes }) => EngineEvent::Completed { id, bytes },
        Ok(Outcome::Paused { downloaded, .. }) => EngineEvent::Paused { id, downloaded },
        Err(e) => EngineEvent::Failed { id, error: e },
    }
}

/// An error message that points at a TLS certificate problem (case
/// ignored).
pub open spec fn tls_error_spec(msg: Seq<char>) -> bool {
    let m = crate::text::lower_seq(msg);
    ||| crate::text::first_occ(m, "certificate"@, 0) is Some
    ||| crate::text::first_occ(m, "cert "@, 0) is Some
    ||| crate::text::first_occ(m, "tls"@, 0) is Some
    ||| crate::text::first_occ(m, "ssl"@, 0) is Some
    ||| crate::text::first_occ(m, "invalidcertificate"@, 0) is Some
    ||| crate::text::first_occ(m, "unknownissuer"@, 0) is Some
    ||| crate::text::first_occ(m, "notvalidforname"@, 0) is Some
}

pub fn is_tls_error(msg: &str) -> (r: bool)
    ensures
        r == tls_error_spec(msg@),
{
    let v = chars_of(msg);
    let m = lower_vec(&v);
    contains_vec_sub(&m, "certificate") || contains_vec_sub(&m, "cert ") || contains_vec_sub(
        &m,
        "tls",
    ) || contains_vec_sub(&m, "ssl") || contains_vec_sub(&m, "invalidcertificate")
        || contains_vec_sub(&m, "unknownissuer") || contains_vec_sub(&m, "notvalidforname")
}

/// Remaining time as `N hr`, `N min` or `N sec`; `none` when unknown.
pub open spec fn fmt_eta_spec(secs: Option<u64>, none: Seq<char>) -> Seq<char> {
    match secs {
        None => none,
        Some(s) => if s >= 3600 {
            decimal((s / 3600) as nat) + " hr"@
        } else if s >= 60 {
            decimal((s / 60) as nat) + " min"@
        } else {
            decimal(s as nat) + " sec"@
        },
    }
}

/// Remaining time for the download list (empty when unknown).
pub fn fmt_eta(secs: Option<u64>) -> (r: String)
    ensures
        r@ == fmt_eta_spec(secs, seq![]),
{
    proof {
        reveal_strlit("");
    }
    fmt_eta_or(secs, "")
}

/// Remaining time for the progress dialog (`-` when unknown).
pub fn fmt_eta_dash(secs: Option<u64>) -> (r: String)
    ensures
        r@ == fmt_eta_spec(secs, "-"@),
{
    fmt_eta_or(secs, "-")
}

fn fmt_eta_or(secs: Option<u64>, none: &str) -> (r: String)
    ensures
        r@ == fmt_eta_spec(secs, none@),
{
    match secs {
        None => none.to_string(),
        Some(s) => {
            let (n, unit) = if s >= 3600 {
                (s / 3600, " hr")
            } else if s >= 60 {
                (s / 60, " min")
            } else {
                (s, " sec")
            };
            let mut v: Vec<char> = Vec::new();
            push_decimal(&mut v, n);
            let u = chars_of(unit);
            crate::text::append_chars(&mut v, &u);
            string_of(v.as_slice())
        },
    }
}

/// Status column of a download that is receiving data: its percentage when
/// the size is known (and not zero).
pub fn status_percent(downloaded: u64, size: Option<u64>) -> (r: Option<u64>)
    requires
        downloaded * 100 <= u64::MAX,
    ensures
        r == match size {
            Some(t) => if t == 0 {
                None
            } else {
                Some(((downloaded * 100) / (t as int)) as u64)
            },
            None => None,
        },
{
    match size {
        Some(t) => (downloaded * 100).checked_div(t),
        None => None,
    }
}

// ------------------------------------------------------------------
// Where a download is saved
// ------------------------------------------------------------------

/// `dir` joined with `name` (see `join_path`).
fn join_vec(dir: &Vec<char>, name: &Vec<char>) -> (r: Vec<char>)
    ensures
        r@ == join_path(dir@, name@),
{
    let mut v: Vec<char> = Vec::new();
    crate::text::append_chars(&mut v, dir);
    if !(dir.len() > 0 && (dir[dir.len() - 1] == '\\' || dir[dir.len() - 1] == '/')) {
        v.push('\\');
    }
    crate::text::append_chars(&mut v, name);
    v
}

/// The file `name` in the download folder `dir`, inside the subfolder of
/// its category when it has one.
pub open spec fn output_path_spec(dir: Seq<char>, name: Seq<char>) -> Seq<char> {
    match folder_of(category_of_ext(extension(name))) {
        Some(f) => join_path(join_path(dir, f), name),
        None => join_path(dir, name),
    }
}

pub fn output_path(dir: &str, name: &str) -> (r: String)
    ensures
        r@ == output_path_spec(dir@, name@),
{
    let d = crate::text::chars_of(dir);
    let n = crate::text::chars_of(name);
    let base = match Category::from_filename(name).folder() {
        Some(f) => {
            let fv = crate::text::chars_of(f);
            join_vec(&d, &fv)
        },
        None => d,
    };
    let out = join_vec(&base, &n);
    crate::text::string_of(out.as_slice())
}

/// Where download `id` of `params` is saved before the server is asked for
/// a name: the name picked from the request (see `pick_filename`) in the
/// download folder `dir`.
pub fn output_for(dir: &str, params: &DownloadAddParams, id: u64) -> (r: String)
    ensures
        r@ == output_path_spec(dir@, pick_filename_spec(opt_view(params.filename), params.url@, id)),
{
    let name = match &params.filename {
        Some(f) => pick_filename(Some(f.as_str()), params.url.as_str(), id),
        None => pick_filename(None, params.url.as_str(), id),
    };
    output_path(dir, name.as_str())
}

/// Refresh Link: the URL pasted for a download (trimmed) replaces the old
/// one unless it is empty or the same; `None` leaves the download alone.
pub fn refresh_link_target(old_url: &str, input: &str) -> (r: Option<String>)
    ensures
        r matches Some(u) ==> u@ == crate::text::trim(input@) && u@.len() > 0 && u@ != old_url@,
        r is None ==> crate::text::trim(input@).len() == 0 || crate::text::trim(input@) == old_url@,
{
    let v = chars_of(input);
    let t = crate::text::trim_vec(&v);
    let o = chars_of(old_url);
    if t.len() == 0 || crate::text::vec_eq(&t, &o) {
        None
    } else {
        Some(string_of(t.as_slice()))
    }
}

/// What cancelling download `id` reports itself: a download that was only
/// waiting in the queue (no running session) is reported stopped at 0
/// bytes; a running one reports its own end when its task stops, and an
/// unknown one reports nothing.
pub fn cancel_event(id: u64, was_waiting: bool, has_session: bool) -> (r: Option<EngineEvent>)
    ensures
        was_waiting && !has_session ==> r == Some(EngineEvent::Paused { id, downloaded: 0 }),
        !(was_waiting && !has_session) ==> r is None,
{
    if was_waiting && !has_session {
        Some(EngineEvent::Paused { id, downloaded: 0 })
    } else {
        None
    }
}

} // verus!
