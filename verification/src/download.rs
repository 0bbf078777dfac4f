//! Decisions of the download engine: how a file is split over connections,
//! what is resumed, which bytes of a received chunk belong to a segment,
//! progress and ETA, and how a run ends. The network and file work itself
//! is done by the caller.

use vstd::prelude::*;
use crate::probe::{opt_view, Probe};
use crate::sidecar::{SegRecord, Sidecar};
use crate::text::{append_chars, chars_of, decimal, push_decimal, string_of};
use std::sync::Arc;
use std::sync::atomic::AtomicBool;

verus! {

/// Cancellation token (pause/stop), shared between tasks.
#[derive(Clone)]
pub struct CancelToken(Arc<AtomicBool>);

impl CancelToken {
    /// A token that is not cancelled. Its flag is a std atomic shared by all
    /// clones, whose contents vstd does not model, so no clause speaks of it.
    pub fn new() -> (r: CancelToken) {
        CancelToken(Arc::new(AtomicBool::new(false)))
    }

    /// Asks every holder of this token to stop.
    pub fn cancel(&self) {
        self.0.store(true, std::sync::atomic::Ordering::SeqCst);
    }

    /// Whether `cancel` has been called on this token or a clone of it. The
    /// answer depends on other threads, so nothing is promised about it.
    pub fn is_cancelled(&self) -> bool {
        self.0.load(std::sync::atomic::Ordering::SeqCst)
    }
}

/// A download request.
#[derive(Debug, Clone)]
pub struct DownloadRequest {
    pub url: String,
    pub output: String,
    /// Connections wanted (clamped to `1..=64`).
    pub connections: usize,
    /// Skip TLS certificate verification.
    pub insecure: bool,
    pub referrer: Option<String>,
    pub user_agent: Option<String>,
    pub cookies: Option<String>,
}

/// Progress of one segment/connection.
#[derive(Debug, Clone, Copy, PartialEq, Eq, Structural)]
pub struct SegmentProgress {
    pub start: u64,
    /// Inclusive.
    pub end: u64,
    pub downloaded: u64,
}

/// Progress snapshot handed to the progress callback.
#[derive(Debug, Clone)]
pub struct Progress {
    pub downloaded: u64,
    pub total: Option<u64>,
    /// Current speed (bytes per second).
    pub speed_bps: u64,
    /// Estimated seconds left; `None` when it cannot be computed.
    pub eta_secs: Option<u64>,
    pub connections: usize,
    /// Per-segment progress (empty for a single-connection download).
    pub segments: Vec<SegmentProgress>,
}

/// How a download ended.
#[derive(Debug, Clone, Copy, PartialEq, Eq, Structural)]
pub enum Outcome {
    Completed { bytes: u64 },
    Paused { downloaded: u64, total: Option<u64> },
}

pub const MAX_CONNECTIONS: usize = 64;

pub open spec fn clamp_spec(n: usize) -> usize {
    if n < 1 {
        1
    } else if n > MAX_CONNECTIONS {
        MAX_CONNECTIONS
    } else {
        n
    }
}

/// Connections actually used: `n` clamped to `1..=64`.
pub fn clamp_connections(n: usize) -> (r: usize)
    ensures
        r == clamp_spec(n),
        1 <= r <= MAX_CONNECTIONS,
{
    if n < 1 {
        1
    } else if n > MAX_CONNECTIONS {
        MAX_CONNECTIONS
    } else {
        n
    }
}

// ------------------------------------------------------------------
// Static segmentation
// ------------------------------------------------------------------

/// Split of `total` bytes over `conns` contiguous ranges of nearly equal
/// size: each gets `total / conns` bytes and the last one also the rest.
/// Nothing to split for an empty file.
pub open spec fn plan_spec(total: u64, conns: nat) -> Seq<SegRecord> {
    if total == 0 || conns == 0 {
        seq![]
    } else {
        let base = (total as nat) / conns;
        Seq::new(
            conns,
            |i: int|
                SegRecord {
                    start: (i * base) as u64,
                    end: if i == conns - 1 {
                        (total - 1) as u64
                    } else {
                        ((i + 1) * base - 1) as u64
                    },
                    downloaded: 0,
                },
        )
    }
}

pub open spec fn conns_of(conns: usize) -> nat {
    if conns == 0 {
        1
    } else {
        conns as nat
    }
}

/// Number of segments a file is split into: one per connection (at least
/// one), but never more than the file has bytes.
pub open spec fn seg_count(total: u64, conns: usize) -> nat {
    if (total as nat) < conns_of(conns) {
        total as nat
    } else {
        conns_of(conns)
    }
}

proof fn lemma_plan_bounds(total: u64, c: nat, i: nat)
    requires
        c >= 1,
        total >= c,
        i < c,
    ensures
        (total as nat) / c >= 1,
        (i + 1) * ((total as nat) / c) <= total,
        i * ((total as nat) / c) + ((total as nat) / c) == (i + 1) * ((total as nat) / c),
        i * ((total as nat) / c) < total,
{
    let base = (total as nat) / c;
    assert(base >= 1) by (nonlinear_arith)
        requires
            total >= c,
            c >= 1,
            base == (total as nat) / c,
    ;
    assert(c * base <= total) by (nonlinear_arith)
        requires
            c >= 1,
            base == (total as nat) / c,
    ;
    assert((i + 1) * base <= c * base) by (nonlinear_arith)
        requires
            i + 1 <= c,
            base >= 0,
    ;
    assert(i * base + base == (i + 1) * base) by (nonlinear_arith);
}

/// Static segmentation of `total` bytes over `conns` connections (at least
/// one, and at most one per byte); see `plan_spec` and `seg_count`.
pub fn plan_segments(total: u64, conns: usize) -> (r: Vec<SegRecord>)
    ensures
        r@ == plan_spec(total, seg_count(total, conns)),
{
    let mut c: u64 = if conns == 0 {
        1
    } else {
        conns as u64
    };
    if total < c {
        c = total;
    }
    let mut segs: Vec<SegRecord> = Vec::new();
    let mut start: u64 = 0;
    let mut i: u64 = 0;
    if total == 0 {
        assert(segs@ =~= plan_spec(total, seg_count(total, conns)));
        return segs;
    }
    let base: u64 = total / c;
    let ghost cn = seg_count(total, conns);
    while i < c
        invariant
            c == cn,
            cn >= 1,
            total >= cn,
            base == (total as nat) / cn,
            i <= c,
            start == i * base,
            segs@ =~= plan_spec(total, cn).take(i as int),
        decreases c - i,
    {
        proof {
            lemma_plan_bounds(total, cn, i as nat);
        }
        let mut end: u64 = start + base - 1;
        if i == c - 1 {
            end = total - 1;
        }
        segs.push(SegRecord { start, end, downloaded: 0 });
        assert(segs@ =~= plan_spec(total, cn).take(i + 1));
        if i < c - 1 {
            start = end + 1;
        } else {
            start = start + base;
        }
        i = i + 1;
    }
    assert(plan_spec(total, cn).take(c as int) =~= plan_spec(total, cn));
    segs
}

/// The plan covers the file exactly: it starts at byte 0, each segment is
/// non-empty and starts right after the previous one, the last ends at the
/// last byte, there is one segment per connection, and nothing is
/// downloaded yet.
pub proof fn law_plan_partitions(total: u64, conns: nat)
    requires
        conns >= 1,
        total >= conns,
    ensures
        plan_spec(total, conns).len() == conns,
        plan_spec(total, conns)[0].start == 0,
        plan_spec(total, conns)[conns - 1].end == total - 1,
        forall|i: int|
            0 <= i < conns ==> (#[trigger] plan_spec(total, conns)[i]).wf()
                && plan_spec(total, conns)[i].downloaded == 0,
        forall|i: int|
            0 <= i < conns - 1 ==> #[trigger] plan_spec(total, conns)[i + 1].start
                == plan_spec(total, conns)[i].end + 1,
{
    let p = plan_spec(total, conns);
    let base = (total as nat) / conns;
    assert(p[0].start == 0) by {
        assert(0 * base == 0);
    }
    assert forall|i: int| 0 <= i < conns implies (#[trigger] p[i]).wf() && p[i].downloaded
        == 0 by {
        lemma_plan_bounds(total, conns, i as nat);
    }
    assert forall|i: int| 0 <= i < conns - 1 implies #[trigger] p[i + 1].start == p[i].end + 1 by {
        lemma_plan_bounds(total, conns, i as nat);
        lemma_plan_bounds(total, conns, (i + 1) as nat);
    }
}

// ------------------------------------------------------------------
// Resume
// ------------------------------------------------------------------

pub open spec fn min_u64(a: u64, b: nat) -> u64 {
    if a as nat <= b {
        a
    } else {
        b as u64
    }
}

/// A segment taken over from a sidecar, its progress capped at its length.
pub open spec fn resumed(r: SegRecord) -> SegRecord {
    SegRecord { downloaded: min_u64(r.downloaded, r.length()), ..r }
}

/// The segments of a run: those of a compatible sidecar (progress capped),
/// otherwise a fresh plan for `total` bytes.
pub open spec fn resume_spec(
    sidecar: Option<Sidecar>,
    url: Seq<char>,
    probe: Probe,
    total: u64,
    connections: usize,
) -> Seq<SegRecord> {
    match sidecar {
        Some(sc) if sc.compatible_with(url, probe) => sc.segments@.map_values(
            |r: SegRecord| resumed(r),
        ),
        _ => plan_spec(total, seg_count(total, clamp_spec(connections))),
    }
}

/// The segments to download: resumed from `sidecar` when it is compatible
/// with `url` as `probe` found it, else planned afresh (see `resume_spec`).
pub fn resume_segments(
    sidecar: Option<&Sidecar>,
    url: &str,
    probe: &Probe,
    total: u64,
    connections: usize,
) -> (r: Vec<SegRecord>)
    requires
        match sidecar {
            Some(sc) => sc.compatible_with(url@, *probe) ==> forall|i: int|
                0 <= i < sc.segments@.len() ==> (#[trigger] sc.segments@[i]).wf(),
            None => true,
        },
    ensures
        r@ == resume_spec(
            match sidecar {
                Some(sc) => Some(*sc),
                None => None,
            },
            url@,
            *probe,
            total,
            connections,
        ),
{
    let conns = clamp_connections(connections);
    if let Some(sc) = sidecar {
        if sc.is_compatible(url, probe) {
            let mut out: Vec<SegRecord> = Vec::new();
            let mut i: usize = 0;
            while i < sc.segments.len()
                invariant
                    i <= sc.segments@.len(),
                    forall|j: int| 0 <= j < sc.segments@.len() ==> (#[trigger] sc.segments@[j]).wf(),
                    out@ =~= sc.segments@.take(i as int).map_values(|r: SegRecord| resumed(r)),
                decreases sc.segments.len() - i,
            {
                let r = sc.segments[i];
                let len = r.len();
                let d = if r.downloaded <= len {
                    r.downloaded
                } else {
                    len
                };
                out.push(SegRecord { start: r.start, end: r.end, downloaded: d });
                i = i + 1;
                assert(out@ =~= sc.segments@.take(i as int).map_values(|r: SegRecord| resumed(r)));
            }
            assert(sc.segments@.take(i as int) =~= sc.segments@);
            return out;
        }
    }
    plan_segments(total, conns)
}

/// Whether resumed or planned afresh, every segment of a run is a valid
/// range and claims no more bytes than it holds.
pub proof fn law_resume_progress_within_segments(
    sidecar: Option<Sidecar>,
    url: Seq<char>,
    probe: Probe,
    total: u64,
    connections: usize,
)
    requires
        sidecar matches Some(sc) ==> forall|i: int|
            0 <= i < sc.segments@.len() ==> (#[trigger] sc.segments@[i]).wf(),
    ensures
        forall|i: int|
            0 <= i < resume_spec(sidecar, url, probe, total, connections).len() ==> {
                let seg = #[trigger] resume_spec(sidecar, url, probe, total, connections)[i];
                seg.wf() && seg.downloaded <= seg.length()
            },
{
    let r = resume_spec(sidecar, url, probe, total, connections);
    match sidecar {
        Some(sc) if sc.compatible_with(url, probe) => {
            assert forall|i: int| 0 <= i < r.len() implies (#[trigger] r[i]).wf()
                && r[i].downloaded <= r[i].length() by {
                assert(r[i] == resumed(sc.segments@[i]));
            }
        },
        _ => {
            if total > 0 {
                law_plan_partitions(total, seg_count(total, clamp_spec(connections)));
            }
        },
    }
}

/// Resume picks up exactly where the run left off: the state recorded for a
/// run (see `sidecar_record`) gives back the recorded segments, progress
/// included, when the same URL is probed again and the server still
/// reports the same size and validators.
pub proof fn law_resume_restores_record(
    sc: Sidecar,
    url: Seq<char>,
    probe: Probe,
    connections: usize,
)
    requires
        sc.url@ == url,
        probe.total == Some(sc.total),
        sc.etag == probe.etag,
        sc.last_modified == probe.last_modified,
        forall|i: int|
            0 <= i < sc.segments@.len() ==> (#[trigger] sc.segments@[i]).wf()
                && sc.segments@[i].downloaded <= sc.segments@[i].length(),
    ensures
        resume_spec(Some(sc), url, probe, sc.total, connections) == sc.segments@,
{
    assert(sc.compatible_with(url, probe));
    let r = resume_spec(Some(sc), url, probe, sc.total, connections);
    assert(r =~= sc.segments@) by {
        assert forall|i: int| 0 <= i < r.len() implies r[i] == sc.segments@[i] by {
            assert(r[i] == resumed(sc.segments@[i]));
        }
    }
}

/// Refresh Link continues from the current offset: a new URL for the same
/// file resumes the recorded segments whenever the server reports the
/// recorded size, whatever its validators now are.
pub proof fn law_refresh_link_continues(
    sc: Sidecar,
    new_url: Seq<char>,
    probe: Probe,
    connections: usize,
)
    requires
        sc.url@ != new_url,
        probe.total == Some(sc.total),
        forall|i: int|
            0 <= i < sc.segments@.len() ==> (#[trigger] sc.segments@[i]).wf()
                && sc.segments@[i].downloaded <= sc.segments@[i].length(),
    ensures
        resume_spec(Some(sc), new_url, probe, sc.total, connections) == sc.segments@,
{
    assert(sc.compatible_with(new_url, probe));
    let r = resume_spec(Some(sc), new_url, probe, sc.total, connections);
    assert(r =~= sc.segments@) by {
        assert forall|i: int| 0 <= i < r.len() implies r[i] == sc.segments@[i] by {
            assert(r[i] == resumed(sc.segments@[i]));
        }
    }
}

/// Bytes already on disk over all segments.
pub open spec fn downloaded_sum(segs: Seq<SegRecord>) -> nat
    decreases segs.len(),
{
    if segs.len() == 0 {
        0
    } else {
        downloaded_sum(segs.drop_last()) + segs.last().downloaded as nat
    }
}

pub proof fn lemma_downloaded_sum_prefix(segs: Seq<SegRecord>, k: int)
    requires
        0 <= k <= segs.len(),
    ensures
        downloaded_sum(segs.take(k)) <= downloaded_sum(segs),
    decreases segs.len() - k,
{
    if k < segs.len() {
        lemma_downloaded_sum_prefix(segs, k + 1);
        assert(segs.take(k + 1).drop_last() =~= segs.take(k));
    } else {
        assert(segs.take(k) =~= segs);
    }
}

/// Bytes already on disk over all segments.
pub fn total_downloaded(segs: &Vec<SegRecord>) -> (r: u64)
    requires
        downloaded_sum(segs@) <= u64::MAX,
    ensures
        r == downloaded_sum(segs@),
{
    let mut acc: u64 = 0;
    let mut i: usize = 0;
    while i < segs.len()
        invariant
            i <= segs@.len(),
            downloaded_sum(segs@) <= u64::MAX,
            acc == downloaded_sum(segs@.take(i as int)),
        decreases segs.len() - i,
    {
        proof {
            lemma_downloaded_sum_prefix(segs@, i + 1);
            assert(segs@.take(i + 1).drop_last() =~= segs@.take(i as int));
        }
        acc = acc + segs[i].downloaded;
        i = i + 1;
    }
    assert(segs@.take(i as int) =~= segs@);
    acc
}

/// Every segment is complete.
pub open spec fn all_done(segs: Seq<SegRecord>) -> bool {
    forall|i: int| 0 <= i < segs.len() ==> (#[trigger] segs[i]).downloaded >= segs[i].length()
}

pub fn segments_complete(segs: &Vec<SegRecord>) -> (r: bool)
    requires
        forall|i: int| 0 <= i < segs@.len() ==> (#[trigger] segs@[i]).wf(),
    ensures
        r == all_done(segs@),
{
    let mut i: usize = 0;
    while i < segs.len()
        invariant
            i <= segs@.len(),
            forall|j: int| 0 <= j < segs@.len() ==> (#[trigger] segs@[j]).wf(),
            forall|j: int| 0 <= j < i ==> (#[trigger] segs@[j]).downloaded >= segs@[j].length(),
        decreases segs.len() - i,
    {
        if !segs[i].is_done() {
            return false;
        }
        i = i + 1;
    }
    true
}

// ------------------------------------------------------------------
// One connection
// ------------------------------------------------------------------

/// First byte a segment still needs, or `None` when it is complete.
pub fn segment_begin(seg: &SegRecord) -> (r: Option<u64>)
    requires
        seg.wf(),
        seg.downloaded <= seg.length(),
    ensures
        r == if seg.start + seg.downloaded > seg.end {
            None
        } else {
            Some((seg.start + seg.downloaded) as u64)
        },
{
    let begin = seg.start + seg.downloaded;
    if begin > seg.end {
        None
    } else {
        Some(begin)
    }
}

/// The `Range` header asking for bytes `begin..=end`.
pub open spec fn range_header_spec(begin: u64, end: u64) -> Seq<char> {
    "bytes="@ + decimal(begin as nat) + seq!['-'] + decimal(end as nat)
}

pub fn range_header(begin: u64, end: u64) -> (r: String)
    ensures
        r@ == range_header_spec(begin, end),
{
    let mut v = chars_of("bytes=");
    push_decimal(&mut v, begin);
    v.push('-');
    push_decimal(&mut v, end);
    string_of(v.as_slice())
}

/// How many bytes of a received chunk of `chunk_len` bytes, written at
/// `offset`, still belong to a segment ending at `end` (servers may ignore
/// the requested range).
pub fn chunk_take(end: u64, offset: u64, chunk_len: usize) -> (r: usize)
    requires
        offset <= end < u64::MAX,
    ensures
        r == if chunk_len as nat > (end + 1 - offset) as usize as nat {
            (end + 1 - offset) as usize
        } else {
            chunk_len
        },
{
    #[verifier::truncate]
    let allowed: usize = (end + 1 - offset) as usize;
    if chunk_len > allowed {
        allowed
    } else {
        chunk_len
    }
}

// ------------------------------------------------------------------
// Progress and outcome
// ------------------------------------------------------------------

/// Seconds left at `speed` bytes per second (`None` when the speed is 0).
pub open spec fn eta_spec(total: u64, cur: u64, speed: u64) -> Option<u64> {
    if speed == 0 {
        None
    } else {
        Some((if cur >= total {
            0
        } else {
            (total - cur) as u64
        }) / speed)
    }
}

pub fn eta_secs(total: u64, cur: u64, speed: u64) -> (r: Option<u64>)
    ensures
        r == eta_spec(total, cur, speed),
{
    total.saturating_sub(cur).checked_div(speed)
}

pub open spec fn progress_segments(segs: Seq<SegRecord>) -> Seq<SegmentProgress> {
    segs.map_values(
        |s: SegRecord| SegmentProgress { start: s.start, end: s.end, downloaded: s.downloaded },
    )
}

/// Snapshot of a multi-connection download.
pub fn progress_of(downloaded: u64, total: u64, speed_bps: u64, segs: &Vec<SegRecord>) -> (r:
    Progress)
    ensures
        r.downloaded == downloaded,
        r.total == Some(total),
        r.speed_bps == speed_bps,
        r.eta_secs == eta_spec(total, downloaded, speed_bps),
        r.connections == segs@.len(),
        r.segments@ == progress_segments(segs@),
{
    let mut out: Vec<SegmentProgress> = Vec::new();
    let mut i: usize = 0;
    while i < segs.len()
        invariant
            i <= segs@.len(),
            out@ =~= progress_segments(segs@.take(i as int)),
        decreases segs.len() - i,
    {
        let s = segs[i];
        out.push(SegmentProgress { start: s.start, end: s.end, downloaded: s.downloaded });
        i = i + 1;
        assert(out@ =~= progress_segments(segs@.take(i as int)));
    }
    assert(segs@.take(i as int) =~= segs@);
    Progress {
        downloaded,
        total: Some(total),
        speed_bps,
        eta_secs: eta_secs(total, downloaded, speed_bps),
        connections: segs.len(),
        segments: out,
    }
}

/// Snapshot of a single-connection download.
pub fn single_progress(downloaded: u64, total: Option<u64>) -> (r: Progress)
    ensures
        r.downloaded == downloaded,
        r.total == total,
        r.speed_bps == 0,
        r.eta_secs is None,
        r.connections == 1,
        r.segments@.len() == 0,
{
    Progress {
        downloaded,
        total,
        speed_bps: 0,
        eta_secs: None,
        connections: 1,
        segments: Vec::new(),
    }
}

/// End of a multi-connection run: a cancelled run is paused; otherwise the
/// first error is reported (`None`); otherwise the download is complete when
/// every segment is, and paused (resumable) when not. A paused run reports
/// the bytes on disk over all its segments.
pub open spec fn finish_spec(
    cancelled: bool,
    failed: bool,
    complete: bool,
    downloaded: u64,
    total: u64,
) -> Option<Outcome> {
    if cancelled {
        Some(Outcome::Paused { downloaded, total: Some(total) })
    } else if failed {
        None
    } else if complete {
        Some(Outcome::Completed { bytes: total })
    } else {
        Some(Outcome::Paused { downloaded, total: Some(total) })
    }
}

pub fn finish(cancelled: bool, failed: bool, segs: &Vec<SegRecord>, total: u64) -> (r: Option<
    Outcome,
>)
    requires
        forall|i: int| 0 <= i < segs@.len() ==> (#[trigger] segs@[i]).wf(),
        downloaded_sum(segs@) <= u64::MAX,
    ensures
        r == finish_spec(cancelled, failed, all_done(segs@), downloaded_sum(segs@) as u64, total),
{
    let downloaded = total_downloaded(segs);
    if cancelled {
        return Some(Outcome::Paused { downloaded, total: Some(total) });
    }
    if failed {
        return None;
    }
    if segments_complete(segs) {
        Some(Outcome::Completed { bytes: total })
    } else {
        Some(Outcome::Paused { downloaded, total: Some(total) })
    }
}

/// The resume state recorded for a run.
pub fn sidecar_record(url: &str, probe: &Probe, total: u64, segs: &Vec<SegRecord>) -> (r: Sidecar)
    ensures
        r.url@ == url@,
        r.total == total,
        r.etag == probe.etag,
        r.last_modified == probe.last_modified,
        r.segments@ == segs@,
{
    let mut copy: Vec<SegRecord> = Vec::new();
    let mut i: usize = 0;
    while i < segs.len()
        invariant
            i <= segs@.len(),
            copy@ =~= segs@.take(i as int),
        decreases segs.len() - i,
    {
        copy.push(segs[i]);
        i = i + 1;
        assert(copy@ =~= segs@.take(i as int));
    }
    assert(segs@.take(i as int) =~= segs@);
    let v = chars_of(url);
    Sidecar {
        url: string_of(v.as_slice()),
        total,
        etag: clone_opt(&probe.etag),
        last_modified: clone_opt(&probe.last_modified),
        segments: copy,
    }
}

fn clone_opt(o: &Option<String>) -> (r: Option<String>)
    ensures
        r == *o,
{
    match o {
        Some(s) => Some(s.clone()),
        None => None,
    }
}

} // verus!
