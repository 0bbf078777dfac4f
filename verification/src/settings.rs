//! Persistent application settings (kept as JSON by the application).

use vstd::prelude::*;

verus! {

/// Theme codes of `Settings::theme`.
pub const THEME_SYSTEM: u8 = 0;

pub const THEME_LIGHT: u8 = 1;

pub const THEME_DARK: u8 = 2;

#[derive(Debug, Clone)]
pub struct Settings {
    /// 0 = System, 1 = Light, 2 = Dark.
    pub theme: u8,
    /// Download folder (`None` = the user's Downloads folder).
    pub download_dir: Option<String>,
    /// Queued downloads running at once.
    pub queue_max: usize,
    /// Global speed limit in KB/s (0 = none).
    pub global_limit_kbps: u64,
    /// Start at login.
    pub autostart: bool,
    /// UI language ("en" / "id").
    pub language: String,
    /// Show the "Download complete" dialog when a download ends.
    pub show_complete_dialog: bool,
    /// Path of yt-dlp.exe (`None` = application folder, then PATH).
    pub youtube_ytdlp: Option<String>,
    /// Path of ffmpeg.exe (`None` = application folder, then PATH).
    pub youtube_ffmpeg: Option<String>,
}

/// The settings of a fresh installation.
pub open spec fn is_default(s: Settings) -> bool {
    &&& s.theme == THEME_SYSTEM
    &&& s.download_dir is None
    &&& s.queue_max == 1
    &&& s.global_limit_kbps == 0
    &&& !s.autostart
    &&& s.language@ == "en"@
    &&& s.show_complete_dialog
    &&& s.youtube_ytdlp is None
    &&& s.youtube_ffmpeg is None
}

impl Default for Settings {
    fn default() -> (r: Settings)
        ensures
            is_default(r),
    {
        Settings {
            theme: THEME_SYSTEM,
            download_dir: None,
            queue_max: 1,
            global_limit_kbps: 0,
            autostart: false,
            language: "en".to_string(),
            show_complete_dialog: true,
            youtube_ytdlp: None,
            youtube_ffmpeg: None,
        }
    }
}

fn clone_opt_string(o: &Option<String>) -> (r: Option<String>)
    ensures
        r == *o,
{
    match o {
        Some(s) => Some(s.clone()),
        None => None,
    }
}

/// A field-by-field copy.
pub fn copy_settings(s: &Settings) -> (r: Settings)
    ensures
        r == *s,
{
    Settings {
        theme: s.theme,
        download_dir: clone_opt_string(&s.download_dir),
        queue_max: s.queue_max,
        global_limit_kbps: s.global_limit_kbps,
        autostart: s.autostart,
        language: s.language.clone(),
        show_complete_dialog: s.show_complete_dialog,
        youtube_ytdlp: clone_opt_string(&s.youtube_ytdlp),
        youtube_ffmpeg: clone_opt_string(&s.youtube_ffmpeg),
    }
}

/// The settings in effect: those loaded, else the defaults.
pub fn get(current: &Option<Settings>) -> (r: Settings)
    ensures
        match current {
            Some(s) => r == *s,
            None => is_default(r),
        },
{
    match current {
        Some(s) => copy_settings(s),
        None => Settings::default(),
    }
}

/// `saved` is what `f` makes of the settings in effect under `current`
/// (those loaded, else the defaults).
pub open spec fn updated_by<F: FnOnce(Settings) -> Settings>(
    current: Option<Settings>,
    f: F,
    saved: Settings,
) -> bool {
    match current {
        Some(s) => f.ensures((s,), saved),
        None => exists|d: Settings| is_default(d) && #[trigger] f.ensures((d,), saved),
    }
}

/// Applies `f` to the settings in effect (those loaded, else the defaults)
/// and keeps the result as the loaded settings; returns a copy of it for
/// the caller to write to disk.
pub fn update<F: FnOnce(Settings) -> Settings>(current: &mut Option<Settings>, f: F) -> (saved:
    Settings)
    requires
        forall|s: Settings| #[trigger] f.requires((s,)),
    ensures
        *final(current) == Some(saved),
        updated_by(*old(current), f, saved),
{
    let base = get(current);
    let next = f(base);
    let saved = copy_settings(&next);
    *current = Some(next);
    saved
}

/// Queue limit applied at start-up: the setting, at least 1.
pub fn effective_queue_max(s: &Settings) -> (r: usize)
    ensures
        r == if s.queue_max >= 1 {
            s.queue_max
        } else {
            1
        },
{
    if s.queue_max >= 1 {
        s.queue_max
    } else {
        1
    }
}

/// Global limit in bytes per second (KB/s times 1024, saturating).
pub fn global_limit_bps(s: &Settings) -> (r: u64)
    ensures
        r == if s.global_limit_kbps * 1024 > u64::MAX {
            u64::MAX as int
        } else {
            s.global_limit_kbps * 1024
        },
{
    if s.global_limit_kbps > u64::MAX / 1024 {
        u64::MAX
    } else {
        s.global_limit_kbps * 1024
    }
}

/// Whether the dark theme is in effect. Dark mode is switched off for now
/// (its rendering is being reworked), so the answer is always light.
pub fn effective_dark(theme_setting: u8) -> (r: bool)
    ensures
        !r,
{
    false
}

/// Two updates compose: after `update(f)` on loaded settings `s0` and then
/// `update(g)`, the settings in effect are `g(f(s0))`, for changes whose
/// result depends only on the settings they are given.
pub proof fn law_updates_compose<F: FnOnce(Settings) -> Settings, G: FnOnce(Settings) -> Settings>(
    s0: Settings,
    f: F,
    ff: spec_fn(Settings) -> Settings,
    g: G,
    gg: spec_fn(Settings) -> Settings,
    s1: Settings,
    s2: Settings,
)
    requires
        forall|s: Settings, r: Settings| #[trigger] f.ensures((s,), r) ==> r == ff(s),
        forall|s: Settings, r: Settings| #[trigger] g.ensures((s,), r) ==> r == gg(s),
        updated_by(Some(s0), f, s1),
        updated_by(Some(s1), g, s2),
    ensures
        s1 == ff(s0),
        s2 == gg(ff(s0)),
{
}

} // verus!
