use adm::probe::Probe;
use adm::sidecar::{fnv1a64, legacy_path_for, path_for, SegRecord, Sidecar};

fn sidecar(url: &str, total: u64, etag: Option<&str>) -> Sidecar {
    Sidecar {
        url: url.into(),
        total,
        etag: etag.map(|s| s.into()),
        last_modified: None,
        segments: vec![],
    }
}

fn probe(total: u64, etag: Option<&str>) -> Probe {
    Probe {
        total: Some(total),
        resumable: true,
        etag: etag.map(|s| s.into()),
        last_modified: None,
        suggested_filename: None,
    }
}

#[test]
fn same_url_same_size_compatible() {
    let sc = sidecar("http://a/x", 1000, Some("v1"));
    assert!(sc.is_compatible("http://a/x", &probe(1000, Some("v1"))));
}

#[test]
fn same_url_etag_changed_incompatible() {
    let sc = sidecar("http://a/x", 1000, Some("v1"));
    assert!(!sc.is_compatible("http://a/x", &probe(1000, Some("v2"))));
}

#[test]
fn refresh_link_new_url_same_size_compatible() {
    let sc = sidecar("http://a/old?token=expired", 1000, Some("v1"));
    assert!(sc.is_compatible("http://a/fresh?token=new", &probe(1000, Some("v2"))));
}

#[test]
fn refresh_link_size_mismatch_incompatible() {
    let sc = sidecar("http://a/old", 1000, None);
    assert!(!sc.is_compatible("http://a/fresh", &probe(2048, None)));
}

#[test]
fn unknown_size_is_incompatible() {
    let sc = sidecar("http://a/x", 1000, None);
    let mut p = probe(1000, None);
    p.total = None;
    assert!(!sc.is_compatible("http://a/x", &p));
}

#[test]
fn changed_last_modified_for_same_url_is_incompatible() {
    let mut sc = sidecar("http://a/x", 10, None);
    sc.last_modified = Some("Mon".into());
    let mut p = probe(10, None);
    p.last_modified = Some("Tue".into());
    assert!(!sc.is_compatible("http://a/x", &p));
    p.last_modified = None;
    assert!(sc.is_compatible("http://a/x", &p));
}

#[test]
fn fnv_known_values() {
    assert_eq!(fnv1a64(""), 0xcbf2_9ce4_8422_2325);
    assert_eq!(fnv1a64("a"), 0xaf63_dc4c_8601_ec8c);
}

#[test]
fn sidecar_locations() {
    assert_eq!(legacy_path_for("C:\\dl\\f.bin"), "C:\\dl\\f.bin.adm");
    assert_eq!(path_for("C:\\dl\\f.bin", Some("f.bin"), None), "C:\\dl\\f.bin.adm");
    let p = path_for("C:\\dl\\f.bin", Some("f.bin"), Some("C:\\state"));
    assert_eq!(p, format!("C:\\state\\f.bin-{:016x}.adm", fnv1a64("C:\\dl\\f.bin")));
    let p = path_for("x", Some("x"), Some("D:\\s\\"));
    assert_eq!(p, format!("D:\\s\\x-{:016x}.adm", fnv1a64("x")));
    let long = "n".repeat(100);
    let p = path_for(&long, Some(&long), Some("S"));
    assert_eq!(p, format!("S\\{}-{:016x}.adm", "n".repeat(80), fnv1a64(&long)));
}

#[test]
fn segment_length_and_completion() {
    let s = SegRecord { start: 10, end: 19, downloaded: 9 };
    assert_eq!(s.len(), 10);
    assert!(!s.is_done());
    let s = SegRecord { start: 10, end: 19, downloaded: 10 };
    assert!(s.is_done());
}
