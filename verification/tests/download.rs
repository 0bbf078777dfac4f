use adm::download::{
    chunk_take, clamp_connections, eta_secs, finish, plan_segments, progress_of, range_header,
    resume_segments, segment_begin, segments_complete, sidecar_record, single_progress,
    total_downloaded, CancelToken, Outcome, SegmentProgress,
};
use adm::probe::Probe;
use adm::sidecar::{SegRecord, Sidecar};

fn seg(start: u64, end: u64, downloaded: u64) -> SegRecord {
    SegRecord { start, end, downloaded }
}

fn probe(total: Option<u64>, etag: Option<&str>) -> Probe {
    Probe {
        total,
        resumable: true,
        etag: etag.map(|s| s.to_string()),
        last_modified: None,
        suggested_filename: None,
    }
}

#[test]
fn clamp_connections_bounds() {
    assert_eq!(clamp_connections(0), 1);
    assert_eq!(clamp_connections(8), 8);
    assert_eq!(clamp_connections(1000), 64);
}

#[test]
fn plan_even_split_last_takes_rest() {
    let p = plan_segments(10, 3);
    assert_eq!(p, vec![seg(0, 2, 0), seg(3, 5, 0), seg(6, 9, 0)]);
}

#[test]
fn plan_single_connection_and_empty_file() {
    assert_eq!(plan_segments(100, 1), vec![seg(0, 99, 0)]);
    assert!(plan_segments(0, 4).is_empty());
}

#[test]
fn plan_covers_file_without_gaps() {
    let total = 1_000_003u64;
    let p = plan_segments(total, 7);
    assert_eq!(p.len(), 7);
    assert_eq!(p[0].start, 0);
    assert_eq!(p[6].end, total - 1);
    for w in p.windows(2) {
        assert_eq!(w[1].start, w[0].end + 1);
    }
}

#[test]
fn resume_from_compatible_sidecar_caps_progress() {
    let sc = Sidecar {
        url: "http://a/x".into(),
        total: 10,
        etag: Some("v1".into()),
        last_modified: None,
        segments: vec![seg(0, 4, 2), seg(5, 9, 99)],
    };
    let r = resume_segments(Some(&sc), "http://a/x", &probe(Some(10), Some("v1")), 10, 2);
    assert_eq!(r, vec![seg(0, 4, 2), seg(5, 9, 5)]);
}

#[test]
fn resume_from_incompatible_sidecar_replans() {
    let sc = Sidecar {
        url: "http://a/x".into(),
        total: 10,
        etag: Some("v1".into()),
        last_modified: None,
        segments: vec![seg(0, 9, 7)],
    };
    let r = resume_segments(Some(&sc), "http://a/x", &probe(Some(10), Some("v2")), 10, 2);
    assert_eq!(r, vec![seg(0, 4, 0), seg(5, 9, 0)]);
    let none = resume_segments(None, "http://a/x", &probe(Some(10), None), 10, 0);
    assert_eq!(none, vec![seg(0, 9, 0)]);
}

#[test]
fn totals_and_completion() {
    let segs = vec![seg(0, 4, 5), seg(5, 9, 3)];
    assert_eq!(total_downloaded(&segs), 8);
    assert!(!segments_complete(&segs));
    let done = vec![seg(0, 4, 5), seg(5, 9, 5)];
    assert!(segments_complete(&done));
    assert!(segments_complete(&vec![]));
}

#[test]
fn segment_begin_and_range_header() {
    assert_eq!(segment_begin(&seg(100, 199, 10)), Some(110));
    assert_eq!(segment_begin(&seg(100, 199, 100)), None);
    assert_eq!(range_header(110, 199), "bytes=110-199");
    assert_eq!(range_header(0, 0), "bytes=0-0");
}

#[test]
fn chunk_take_caps_at_segment_end() {
    assert_eq!(chunk_take(99, 90, 100), 10);
    assert_eq!(chunk_take(99, 0, 64), 64);
    assert_eq!(chunk_take(99, 99, 5), 1);
}

#[test]
fn eta_formula() {
    assert_eq!(eta_secs(1000, 400, 100), Some(6));
    assert_eq!(eta_secs(1000, 400, 0), None);
    assert_eq!(eta_secs(1000, 2000, 7), Some(0));
    assert_eq!(eta_secs(1000, 0, 3), Some(333));
}

#[test]
fn progress_snapshots() {
    let segs = vec![seg(0, 4, 2), seg(5, 9, 1)];
    let p = progress_of(3, 10, 1, &segs);
    assert_eq!(p.downloaded, 3);
    assert_eq!(p.total, Some(10));
    assert_eq!(p.eta_secs, Some(7));
    assert_eq!(p.connections, 2);
    assert_eq!(
        p.segments,
        vec![
            SegmentProgress { start: 0, end: 4, downloaded: 2 },
            SegmentProgress { start: 5, end: 9, downloaded: 1 }
        ]
    );
    let s = single_progress(5, None);
    assert_eq!(s.downloaded, 5);
    assert_eq!(s.total, None);
    assert_eq!(s.connections, 1);
    assert!(s.segments.is_empty());
}

#[test]
fn finish_outcomes() {
    let done = vec![seg(0, 4, 5)];
    let part = vec![seg(0, 4, 2)];
    assert_eq!(finish(false, false, &done, 5), Some(Outcome::Completed { bytes: 5 }));
    assert_eq!(
        finish(false, false, &part, 5),
        Some(Outcome::Paused { downloaded: 2, total: Some(5) })
    );
    assert_eq!(
        finish(true, true, &done, 5),
        Some(Outcome::Paused { downloaded: 5, total: Some(5) })
    );
    assert_eq!(finish(false, true, &done, 5), None);
}

#[test]
fn sidecar_record_copies_state() {
    let segs = vec![seg(0, 9, 4)];
    let sc = sidecar_record("http://a/x", &probe(Some(10), Some("e")), 10, &segs);
    assert_eq!(sc.url, "http://a/x");
    assert_eq!(sc.total, 10);
    assert_eq!(sc.etag.as_deref(), Some("e"));
    assert_eq!(sc.segments, segs);
}

#[test]
fn cancel_token_is_shared() {
    let t = CancelToken::new();
    let c = t.clone();
    assert!(!t.is_cancelled());
    c.cancel();
    assert!(t.is_cancelled());
}

#[test]
fn resume_restores_recorded_state() {
    let segs = vec![seg(0, 4, 3), seg(5, 9, 5)];
    let pr = probe(Some(10), Some("e"));
    let record = sidecar_record("http://a/x", &pr, 10, &segs);
    assert_eq!(resume_segments(Some(&record), "http://a/x", &pr, 10, 4), segs);
}

#[test]
fn refresh_link_continues_from_offset() {
    let segs = vec![seg(0, 4, 3), seg(5, 9, 1)];
    let record = sidecar_record("http://a/old?t=1", &probe(Some(10), Some("e1")), 10, &segs);
    let fresh = probe(Some(10), Some("e2"));
    assert_eq!(resume_segments(Some(&record), "http://a/new?t=2", &fresh, 10, 4), segs);
    let resized = probe(Some(11), Some("e1"));
    assert_eq!(
        resume_segments(Some(&record), "http://a/new?t=2", &resized, 11, 1),
        vec![seg(0, 10, 0)]
    );
}

#[test]
fn plan_small_file_one_byte_per_segment() {
    assert_eq!(plan_segments(3, 8), vec![seg(0, 0, 0), seg(1, 1, 0), seg(2, 2, 0)]);
    assert_eq!(plan_segments(1, 64), vec![seg(0, 0, 0)]);
    let r = resume_segments(None, "http://a/x", &probe(Some(2), None), 2, 8);
    assert_eq!(r, vec![seg(0, 0, 0), seg(1, 1, 0)]);
}
