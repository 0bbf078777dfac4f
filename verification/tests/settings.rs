use adm::settings::{
    copy_settings, effective_dark, effective_queue_max, get, global_limit_bps, update, Settings,
    THEME_DARK, THEME_SYSTEM,
};

#[test]
fn defaults() {
    let s = Settings::default();
    assert_eq!(s.theme, THEME_SYSTEM);
    assert_eq!(s.download_dir, None);
    assert_eq!(s.queue_max, 1);
    assert_eq!(s.global_limit_kbps, 0);
    assert!(!s.autostart);
    assert_eq!(s.language, "en");
    assert!(s.show_complete_dialog);
    assert_eq!(s.youtube_ytdlp, None);
    assert_eq!(s.youtube_ffmpeg, None);
}

#[test]
fn get_returns_loaded_or_default() {
    assert_eq!(get(&None).queue_max, 1);
    let mut s = Settings::default();
    s.queue_max = 4;
    s.download_dir = Some("D:\\dl".into());
    let g = get(&Some(copy_settings(&s)));
    assert_eq!(g.queue_max, 4);
    assert_eq!(g.download_dir.as_deref(), Some("D:\\dl"));
}

#[test]
fn derived_values() {
    let mut s = Settings::default();
    s.queue_max = 0;
    assert_eq!(effective_queue_max(&s), 1);
    s.queue_max = 3;
    assert_eq!(effective_queue_max(&s), 3);
    s.global_limit_kbps = 100;
    assert_eq!(global_limit_bps(&s), 102_400);
    s.global_limit_kbps = u64::MAX;
    assert_eq!(global_limit_bps(&s), u64::MAX);
    assert!(!effective_dark(THEME_DARK));
}

#[test]
fn update_applies_to_loaded_or_default() {
    let mut cur: Option<Settings> = None;
    let saved = update(&mut cur, |mut s| {
        s.queue_max = 5;
        s
    });
    assert_eq!(saved.queue_max, 5);
    assert_eq!(saved.language, "en");
    assert_eq!(cur.as_ref().map(|s| s.queue_max), Some(5));
    let saved2 = update(&mut cur, |mut s| {
        s.autostart = true;
        s
    });
    assert_eq!(saved2.queue_max, 5);
    assert!(saved2.autostart);
    assert!(cur.unwrap().autostart);
}

#[test]
fn updates_compose() {
    let mut s0 = Settings::default();
    s0.queue_max = 2;
    let mut cur = Some(copy_settings(&s0));
    update(&mut cur, |mut s| {
        s.queue_max *= 3;
        s
    });
    let last = update(&mut cur, |mut s| {
        s.queue_max += 1;
        s
    });
    assert_eq!(last.queue_max, 7);
    assert_eq!(cur.unwrap().queue_max, 7);
}
