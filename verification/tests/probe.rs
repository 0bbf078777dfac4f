use adm::probe::{
    basename, parse_content_disposition, parse_content_range_total, percent_decode,
    probe_from_response, Error,
};

#[test]
fn content_disposition() {
    assert_eq!(
        parse_content_disposition("attachment; filename=\"my file.rar\""),
        Some("my file.rar".into())
    );
    assert_eq!(
        parse_content_disposition("inline; filename=archive.zip"),
        Some("archive.zip".into())
    );
    assert_eq!(
        parse_content_disposition("attachment; filename*=UTF-8''na%20me.7z"),
        Some("na me.7z".into())
    );
    assert_eq!(
        parse_content_disposition("attachment; filename=\"..\\\\evil\\\\x.exe\""),
        Some("x.exe".into())
    );
    assert_eq!(parse_content_disposition("attachment"), None);
}

#[test]
fn extended_name_wins_and_decodes_utf8() {
    assert_eq!(
        parse_content_disposition("attachment; filename=\"plain.zip\"; filename*=UTF-8''caf%C3%A9.zip"),
        Some("café.zip".to_string())
    );
    assert_eq!(
        parse_content_disposition("ATTACHMENT; FILENAME=Upper.ZIP; size=3"),
        Some("Upper.ZIP".to_string())
    );
    assert_eq!(parse_content_disposition("attachment; filename=\"\""), None);
}

#[test]
fn percent_decoding() {
    assert_eq!(percent_decode("a%20b"), "a b");
    assert_eq!(percent_decode("100%"), "100%");
    assert_eq!(percent_decode("%zz%41"), "%zzA");
    assert_eq!(percent_decode("%4"), "%4");
    assert_eq!(percent_decode("%ff"), "\u{fffd}");
}

#[test]
fn basenames() {
    assert_eq!(basename("a/b\\c.txt "), "c.txt");
    assert_eq!(basename("plain"), "plain");
    assert_eq!(basename("dir/"), "");
}

#[test]
fn content_range_totals() {
    assert_eq!(parse_content_range_total("bytes 0-0/12345"), Some(12345));
    assert_eq!(parse_content_range_total("bytes 0-0/*"), None);
    assert_eq!(parse_content_range_total("bytes 0-0/ 77 "), Some(77));
    assert_eq!(parse_content_range_total("12345"), None);
    assert_eq!(parse_content_range_total("bytes 0-0/99999999999999999999"), None);
}

#[test]
fn probe_partial_content() {
    let p = probe_from_response(206, Some("bytes 0-0/1000"), Some(1), None, Some("\"v1\"".into()), None, Some("attachment; filename=a.zip")).unwrap();
    assert_eq!(p.total, Some(1000));
    assert!(p.resumable);
    assert_eq!(p.etag.as_deref(), Some("\"v1\""));
    assert_eq!(p.suggested_filename.as_deref(), Some("a.zip"));
}

#[test]
fn probe_without_range_support() {
    let p = probe_from_response(200, None, Some(512), None, None, None, None).unwrap();
    assert_eq!(p.total, Some(512));
    assert!(!p.resumable);
    let p = probe_from_response(200, None, Some(512), Some("Bytes"), None, None, None).unwrap();
    assert!(p.resumable);
    let p = probe_from_response(200, None, None, Some("bytes"), None, None, None).unwrap();
    assert!(!p.resumable);
    let p = probe_from_response(206, Some("bytes 0-0/*"), None, None, None, None, None).unwrap();
    assert_eq!(p.total, None);
    assert!(!p.resumable);
}

#[test]
fn probe_bad_status() {
    match probe_from_response(404, None, None, None, None, None, None) {
        Err(Error::BadStatus(404)) => {}
        other => panic!("unexpected: {:?}", other),
    }
}
