use adm::download::{progress_of, Outcome};
use adm::engine::{
    end_event, fmt_eta, fmt_eta_dash, is_tls_error, output_for, output_path, progress_event,
    status_percent, EngineEvent,
};
use adm::queue::DownloadAddParams;
use adm::sidecar::SegRecord;

#[test]
fn progress_events_carry_segments() {
    let segs = vec![SegRecord { start: 0, end: 9, downloaded: 4 }];
    let p = progress_of(4, 10, 2, &segs);
    match progress_event(7, &p) {
        EngineEvent::Progress { id, downloaded, total, speed_bps, segments } => {
            assert_eq!(id, 7);
            assert_eq!(downloaded, 4);
            assert_eq!(total, Some(10));
            assert_eq!(speed_bps, 2);
            assert_eq!(segments, vec![(0, 9, 4)]);
        }
        other => panic!("unexpected {other:?}"),
    }
}

#[test]
fn end_events() {
    assert!(matches!(
        end_event(1, Ok(Outcome::Completed { bytes: 9 })),
        EngineEvent::Completed { id: 1, bytes: 9 }
    ));
    assert!(matches!(
        end_event(2, Ok(Outcome::Paused { downloaded: 3, total: None })),
        EngineEvent::Paused { id: 2, downloaded: 3 }
    ));
    match end_event(3, Err("boom".into())) {
        EngineEvent::Failed { id, error } => {
            assert_eq!(id, 3);
            assert_eq!(error, "boom");
        }
        other => panic!("unexpected {other:?}"),
    }
}

#[test]
fn tls_errors() {
    assert!(is_tls_error("invalid peer certificate: UnknownIssuer"));
    assert!(is_tls_error("SSL handshake failed"));
    assert!(is_tls_error("bad cert here"));
    assert!(!is_tls_error("connection reset by peer"));
}

#[test]
fn eta_text() {
    assert_eq!(fmt_eta(None), "");
    assert_eq!(fmt_eta_dash(None), "-");
    assert_eq!(fmt_eta(Some(59)), "59 sec");
    assert_eq!(fmt_eta(Some(60)), "1 min");
    assert_eq!(fmt_eta(Some(7300)), "2 hr");
    assert_eq!(fmt_eta_dash(Some(125)), "2 min");
}

#[test]
fn status_percentages() {
    assert_eq!(status_percent(50, Some(200)), Some(25));
    assert_eq!(status_percent(50, Some(0)), None);
    assert_eq!(status_percent(50, None), None);
}

#[test]
fn output_paths_use_category_folders() {
    assert_eq!(output_path("C:\\dl", "a.zip"), "C:\\dl\\Compressed\\a.zip");
    assert_eq!(output_path("C:\\dl\\", "a.bin"), "C:\\dl\\a.bin");
    let p = DownloadAddParams { url: "http://h/x/movie.mkv?s=1".into(), ..Default::default() };
    assert_eq!(output_for("D:\\d", &p, 3), "D:\\d\\Video\\movie.mkv");
    let q = DownloadAddParams { url: "http://h/".into(), ..Default::default() };
    assert_eq!(output_for("D:\\d", &q, 3), "D:\\d\\download-3.bin");
}

#[test]
fn refresh_link_inputs() {
    assert_eq!(adm::engine::refresh_link_target("http://a/x", "  http://a/y \n"), Some("http://a/y".to_string()));
    assert_eq!(adm::engine::refresh_link_target("http://a/x", " http://a/x "), None);
    assert_eq!(adm::engine::refresh_link_target("http://a/x", "   "), None);
}

#[test]
fn cancelling_reports_waiting_items_only() {
    assert!(matches!(
        adm::engine::cancel_event(5, true, false),
        Some(EngineEvent::Paused { id: 5, downloaded: 0 })
    ));
    assert!(adm::engine::cancel_event(5, true, true).is_none());
    assert!(adm::engine::cancel_event(5, false, false).is_none());
    assert!(adm::engine::cancel_event(5, false, true).is_none());
}
