use adm::names::{
    guess_filename, looks_generic, needs_probe, pick_filename, resolve_filename, sanitize,
    url_basename,
};

#[test]
fn sanitize_replaces_forbidden_chars() {
    assert_eq!(sanitize("a:b*c?.txt"), "a_b_c_.txt");
    assert_eq!(sanitize("x/y\\z|w.zip"), "x_y_z_w.zip");
    assert_eq!(sanitize("tab\there.txt"), "tab_here.txt");
}

#[test]
fn sanitize_trims_trailing_dots_and_spaces() {
    assert_eq!(sanitize("file.txt. . "), "file.txt");
    assert_eq!(sanitize("..."), "");
}

#[test]
fn sanitize_guards_device_names() {
    assert_eq!(sanitize("con.txt"), "_con.txt");
    assert_eq!(sanitize("NUL"), "_NUL");
    assert_eq!(sanitize("com1.log"), "_com1.log");
    assert_eq!(sanitize("LPT9"), "_LPT9");
    assert_eq!(sanitize("console.txt"), "console.txt");
    assert_eq!(sanitize("COMX.txt"), "COMX.txt");
}

#[test]
fn generic_names() {
    assert!(looks_generic("download.bin"));
    assert!(looks_generic("DOWNLOAD"));
    assert!(looks_generic("download-42.bin"));
    assert!(looks_generic("noextension"));
    assert!(!looks_generic("movie.mp4"));
}

#[test]
fn basename_from_url() {
    assert_eq!(url_basename("http://h/a/b%20c.zip?x=1#f"), Some("b c.zip".to_string()));
    assert_eq!(url_basename("http://h/a/"), None);
    assert_eq!(url_basename("http://h/a/noext"), None);
}

#[test]
fn pick_filename_prefers_given_then_url_then_fallback() {
    assert_eq!(pick_filename(Some("my:file.zip"), "http://h/x.bin", 1), "my_file.zip");
    assert_eq!(pick_filename(Some(""), "http://h/dir/x.bin", 1), "x.bin");
    assert_eq!(pick_filename(None, "http://h/dir/", 7), "download-7.bin");
    assert_eq!(pick_filename(None, "http://h/dir/noext", 7), "noext");
}

#[test]
fn needs_probe_when_name_missing_or_generic() {
    assert!(needs_probe(None));
    assert!(needs_probe(Some("download")));
    assert!(needs_probe(Some("...")));
    assert!(!needs_probe(Some("song.mp3")));
}

#[test]
fn resolve_filename_order() {
    assert_eq!(resolve_filename(Some("song.mp3"), "http://h/x.zip", 1, Some("cd.zip")), "song.mp3");
    assert_eq!(resolve_filename(Some("download"), "http://h/x.zip", 1, Some("cd.zip")), "cd.zip");
    assert_eq!(resolve_filename(Some("download"), "http://h/x.zip", 1, None), "download");
    assert_eq!(resolve_filename(None, "http://h/x.zip", 1, Some("download.bin")), "x.zip");
    assert_eq!(resolve_filename(None, "http://h/dir/", 3, None), "download-3.bin");
}

#[test]
fn guess_filename_from_url() {
    assert_eq!(guess_filename("http://h/a/file.iso?tok=1"), "file.iso");
    assert_eq!(guess_filename("http://h/a/"), "download.bin");
    assert_eq!(guess_filename("C:\\dir\\f.txt"), "f.txt");
}

#[test]
fn sanitize_is_idempotent() {
    for n in ["con.txt", "a:b?.zip. ", "LPT1", "ok.mp4", "...", "nul.tar.gz"] {
        let once = sanitize(n);
        assert_eq!(sanitize(&once), once);
    }
}
