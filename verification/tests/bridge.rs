use adm::bridge::{
    frame_message, message_len, params_from_fields, params_from_message, valid_extension_id,
    MAX_MESSAGE,
};

#[test]
fn header_lengths() {
    assert_eq!(message_len([5, 0, 0, 0]), Some(5));
    assert_eq!(message_len([0, 1, 0, 0]), Some(256));
    assert_eq!(message_len([0, 0, 0, 0]), None);
    assert_eq!(message_len([0, 0, 64, 0]), Some(MAX_MESSAGE));
    assert_eq!(message_len([1, 0, 64, 0]), None);
    assert_eq!(message_len([255, 255, 255, 255]), None);
}

#[test]
fn frames_roundtrip() {
    let body = br#"{"ok":true}"#;
    let f = frame_message(body);
    assert_eq!(&f[..4], &[11, 0, 0, 0]);
    assert_eq!(&f[4..], &body[..]);
    let h = [f[0], f[1], f[2], f[3]];
    assert_eq!(message_len(h), Some(body.len() as u64));
    let big = vec![b'x'; 300];
    let g = frame_message(&big);
    assert_eq!(&g[..4], &[44, 1, 0, 0]);
}

#[test]
fn extension_ids() {
    assert!(valid_extension_id("abcdefghijklmnopabcdefghijklmnop"));
    assert!(!valid_extension_id("abcdefghijklmnopabcdefghijklmno"));
    assert!(!valid_extension_id("abcdefghijklmnopabcdefghijklmnoq"));
    assert!(!valid_extension_id("ABCDEFGHIJKLMNOPABCDEFGHIJKLMNOP"));
}

#[test]
fn message_to_download_params() {
    let body = br#"{"url":"https://h/a.zip","filename":"a.zip","userAgent":"UA","cookies":"k=v","referrer":"https://h/"}"#;
    let p = params_from_message(body).unwrap();
    assert_eq!(p.url, "https://h/a.zip");
    assert_eq!(p.filename.as_deref(), Some("a.zip"));
    assert_eq!(p.user_agent.as_deref(), Some("UA"));
    assert_eq!(p.cookies.as_deref(), Some("k=v"));
    assert_eq!(p.referrer.as_deref(), Some("https://h/"));
    assert!(!p.insecure);
}

#[test]
fn message_without_url_is_refused() {
    assert_eq!(params_from_message(br#"{"url":""}"#).unwrap_err(), "url kosong");
    assert_eq!(params_from_message(br#"{"filename":"x"}"#).unwrap_err(), "url kosong");
    assert_eq!(params_from_message(b"not json").unwrap_err(), "url kosong");
    assert_eq!(params_from_message(br#"{"url":5}"#).unwrap_err(), "url kosong");
    assert!(params_from_fields(None, None, None, None, None).is_err());
    assert_eq!(
        params_from_fields(Some("u".into()), None, None, None, None).unwrap().url,
        "u"
    );
}
