//! YouTube downloads through yt-dlp: the command-line arguments for each
//! mode, reading the final file name from yt-dlp's log, size estimates from
//! the format list, and small text helpers.

use vstd::prelude::*;
use crate::category::eq_lit;
use crate::text::{
    after_last2, after_last2_start, append_chars, chars_of, decimal, last_pos2, push_decimal,
    slice_vec, starts_with, string_of, string_views, trim, trim_range, zero_pad, padded_decimal_vec,
};

verus! {

#[derive(Debug, Clone, Copy, PartialEq, Eq, Structural)]
pub enum Mode {
    /// Video and audio (merged by ffmpeg).
    Video,
    /// Audio only (extracted to mp3).
    AudioOnly,
    /// Video without audio.
    VideoOnly,
    /// A whole playlist or channel.
    Playlist,
}

/// A YouTube download request from the dialog.
#[derive(Debug, Clone)]
pub struct YtRequest {
    pub url: String,
    pub mode: Mode,
    /// Highest video height in pixels; `None` = best quality.
    pub height: Option<u32>,
}

pub open spec fn mode_tag_spec(m: Mode) -> Seq<char> {
    match m {
        Mode::Video => "video"@,
        Mode::AudioOnly => "audio"@,
        Mode::VideoOnly => "video_only"@,
        Mode::Playlist => "playlist"@,
    }
}

pub open spec fn mode_of_tag(s: Seq<char>) -> Option<Mode> {
    if s == "video"@ {
        Some(Mode::Video)
    } else if s == "audio"@ {
        Some(Mode::AudioOnly)
    } else if s == "video_only"@ {
        Some(Mode::VideoOnly)
    } else if s == "playlist"@ {
        Some(Mode::Playlist)
    } else {
        None
    }
}

/// Tag stored with a row so that Resume knows how to restart it.
pub fn mode_tag(m: Mode) -> (r: &'static str)
    ensures
        r@ == mode_tag_spec(m),
{
    match m {
        Mode::Video => "video",
        Mode::AudioOnly => "audio",
        Mode::VideoOnly => "video_only",
        Mode::Playlist => "playlist",
    }
}

pub fn mode_from_tag(s: &str) -> (r: Option<Mode>)
    ensures
        r == mode_of_tag(s@),
{
    let v = chars_of(s);
    if eq_lit(&v, "video") {
        Some(Mode::Video)
    } else if eq_lit(&v, "audio") {
        Some(Mode::AudioOnly)
    } else if eq_lit(&v, "video_only") {
        Some(Mode::VideoOnly)
    } else if eq_lit(&v, "playlist") {
        Some(Mode::Playlist)
    } else {
        None
    }
}

/// Every mode is restored from its tag.
pub proof fn law_mode_tag_roundtrip(m: Mode)
    ensures
        mode_of_tag(mode_tag_spec(m)) == Some(m),
{
    reveal_strlit("video");
    reveal_strlit("audio");
    reveal_strlit("video_only");
    reveal_strlit("playlist");
    assert("video"@[0] != "audio"@[0]);
    assert("video"@.len() != "video_only"@.len());
    assert("video"@[0] != "playlist"@[0]);
    assert("audio"@[0] != "video_only"@[0]);
    assert("audio"@[0] != "playlist"@[0]);
    assert("video_only"@[0] != "playlist"@[0]);
}

/// `[height<=H]` when a height cap is asked for, else nothing.
pub open spec fn height_filter_spec(h: Option<u32>) -> Seq<char> {
    match h {
        Some(v) => "[height<="@ + decimal(v as nat) + "]"@,
        None => seq![],
    }
}

fn height_filter_vec(h: Option<u32>) -> (r: Vec<char>)
    ensures
        r@ == height_filter_spec(h),
{
    match h {
        Some(v) => {
            let mut out = chars_of("[height<=");
            push_decimal(&mut out, v as u64);
            let close = chars_of("]");
            append_chars(&mut out, &close);
            out
        },
        None => Vec::new(),
    }
}

pub fn height_filter(h: Option<u32>) -> (r: String)
    ensures
        r@ == height_filter_spec(h),
{
    let v = height_filter_vec(h);
    string_of(v.as_slice())
}

/// Format selection arguments of a mode (no URL, output or progress).
pub open spec fn format_args_spec(mode: Mode, height: Option<u32>) -> Seq<Seq<char>> {
    let hf = height_filter_spec(height);
    match mode {
        Mode::AudioOnly => seq!["-x"@, "--audio-format"@, "mp3"@, "--audio-quality"@, "0"@],
        Mode::VideoOnly => seq!["-f"@, "bv"@ + hf + "/bv*"@ + hf],
        _ => seq!["-f"@, "bv*"@ + hf + "+ba/b"@ + hf, "--merge-output-format"@, "mp4"@],
    }
}

fn cat3(a: &str, b: &Vec<char>, c: &str, d: &Vec<char>) -> (r: String)
    ensures
        r@ == a@ + b@ + c@ + d@,
{
    let mut v = chars_of(a);
    append_chars(&mut v, b);
    let cv = chars_of(c);
    append_chars(&mut v, &cv);
    append_chars(&mut v, d);
    string_of(v.as_slice())
}

pub fn format_args(req: &YtRequest) -> (r: Vec<String>)
    ensures
        string_views(r@) == format_args_spec(req.mode, req.height),
{
    let hf = height_filter_vec(req.height);
    let r = match req.mode {
        Mode::AudioOnly => vec![
            "-x".to_string(),
            "--audio-format".to_string(),
            "mp3".to_string(),
            "--audio-quality".to_string(),
            "0".to_string(),
        ],
        Mode::VideoOnly => vec!["-f".to_string(), cat3("bv", &hf, "/bv*", &hf)],
        _ => vec![
            "-f".to_string(),
            cat3("bv*", &hf, "+ba/b", &hf),
            "--merge-output-format".to_string(),
            "mp4".to_string(),
        ],
    };
    assert(string_views(r@) =~= format_args_spec(req.mode, req.height));
    r
}

/// `%` doubled (yt-dlp reads it as a template field).
pub open spec fn escape_percent(s: Seq<char>) -> Seq<char>
    decreases s.len(),
{
    if s.len() == 0 {
        seq![]
    } else {
        escape_percent(s.drop_last()) + if s.last() == '%' {
            seq!['%', '%']
        } else {
            seq![s.last()]
        }
    }
}

/// Drops trailing `\` and `/`.
pub open spec fn strip_trailing_seps(s: Seq<char>) -> Seq<char>
    decreases s.len(),
{
    if s.len() > 0 && (s.last() == '\\' || s.last() == '/') {
        strip_trailing_seps(s.drop_last())
    } else {
        s
    }
}

/// Output template: `<dir>\%(title)s.%(ext)s`.
pub open spec fn output_template(dir: Seq<char>) -> Seq<char> {
    strip_trailing_seps(escape_percent(dir)) + "\\%(title)s.%(ext)s"@
}

/// Arguments shared by every run: format, output template, playlist flag.
pub open spec fn common_args_spec(mode: Mode, height: Option<u32>, dir: Seq<char>) -> Seq<
    Seq<char>,
> {
    format_args_spec(mode, height) + seq![
        "-o"@,
        output_template(dir),
        if mode == Mode::Playlist {
            "--yes-playlist"@
        } else {
            "--no-playlist"@
        },
    ]
}

fn output_template_vec(dir: &str) -> (r: Vec<char>)
    ensures
        r@ == output_template(dir@),
{
    let d = chars_of(dir);
    let mut e: Vec<char> = Vec::new();
    let mut i: usize = 0;
    while i < d.len()
        invariant
            i <= d.len(),
            e@ == escape_percent(d@.take(i as int)),
        decreases d.len() - i,
    {
        assert(d@.take(i + 1).drop_last() =~= d@.take(i as int));
        let ghost before = e@;
        if d[i] == '%' {
            e.push('%');
            e.push('%');
        } else {
            e.push(d[i]);
        }
        i = i + 1;
        assert(e@ =~= escape_percent(d@.take(i as int)));
    }
    assert(d@.take(i as int) =~= d@);
    let ghost escaped = e@;
    while e.len() > 0 && (e[e.len() - 1] == '\\' || e[e.len() - 1] == '/')
        invariant
            strip_trailing_seps(escaped) == strip_trailing_seps(e@),
        decreases e.len(),
    {
        let ghost before = e@;
        e.pop();
        assert(e@ =~= before.drop_last());
    }
    let tail = chars_of("\\%(title)s.%(ext)s");
    append_chars(&mut e, &tail);
    e
}

pub fn common_args(req: &YtRequest, dir: &str) -> (r: Vec<String>)
    ensures
        string_views(r@) == common_args_spec(req.mode, req.height, dir@),
{
    let mut a = format_args(req);
    let ghost fa = a@;
    a.push("-o".to_string());
    let t = output_template_vec(dir);
    a.push(string_of(t.as_slice()));
    a.push(
        if req.mode == Mode::Playlist {
            "--yes-playlist".to_string()
        } else {
            "--no-playlist".to_string()
        },
    );
    assert(string_views(a@) =~= string_views(fa) + seq![
        "-o"@,
        output_template(dir@),
        if req.mode == Mode::Playlist {
            "--yes-playlist"@
        } else {
            "--no-playlist"@
        },
    ]);
    a
}

/// The line format asked of yt-dlp for progress: a marker, then the
/// downloaded bytes, the total, the estimated total and the speed.
pub open spec fn progress_template() -> Seq<char> {
    "download:ADMPROG %(progress.downloaded_bytes)s %(progress.total_bytes)s %(progress.total_bytes_estimate)s %(progress.speed)s"@
}

fn push_str(a: &mut Vec<String>, s: &str)
    ensures
        string_views(final(a)@) == string_views(old(a)@).push(s@),
{
    let ghost before = a@;
    a.push(s.to_string());
    assert(string_views(a@) =~= string_views(before).push(s@));
}

/// Arguments of the yt-dlp run that downloads `req` into `dir`: the common
/// arguments, where ffmpeg is, line-by-line progress in the marked format,
/// then the URL after `--` (so that a URL starting with `-` is no option).
pub fn download_args(req: &YtRequest, dir: &str, ffmpeg: &str) -> (r: Vec<String>)
    ensures
        string_views(r@) == common_args_spec(req.mode, req.height, dir@) + seq![
            "--ffmpeg-location"@,
            ffmpeg@,
            "--newline"@,
            "--no-color"@,
            "--no-warnings"@,
            "--progress-template"@,
            progress_template(),
            "--"@,
            req.url@,
        ],
{
    let mut a = common_args(req, dir);
    push_str(&mut a, "--ffmpeg-location");
    push_str(&mut a, ffmpeg);
    push_str(&mut a, "--newline");
    push_str(&mut a, "--no-color");
    push_str(&mut a, "--no-warnings");
    push_str(&mut a, "--progress-template");
    push_str(
        &mut a,
        "download:ADMPROG %(progress.downloaded_bytes)s %(progress.total_bytes)s %(progress.total_bytes_estimate)s %(progress.speed)s",
    );
    push_str(&mut a, "--");
    push_str(&mut a, req.url.as_str());
    a
}

/// Arguments of the yt-dlp run that only prints the final file name.
pub fn probe_args(req: &YtRequest, dir: &str) -> (r: Vec<String>)
    ensures
        string_views(r@) == common_args_spec(req.mode, req.height, dir@) + seq![
            "--print"@,
            "filename"@,
            "--no-download"@,
            "--no-warnings"@,
            "--quiet"@,
            "--"@,
            req.url@,
        ],
{
    let mut a = common_args(req, dir);
    push_str(&mut a, "--print");
    push_str(&mut a, "filename");
    push_str(&mut a, "--no-download");
    push_str(&mut a, "--no-warnings");
    push_str(&mut a, "--quiet");
    push_str(&mut a, "--");
    push_str(&mut a, req.url.as_str());
    a
}

/// The numbers of a progress line (after its `ADMPROG ` marker), or `None`
/// for any other line.
pub fn progress_payload(line: &str) -> (r: Option<String>)
    ensures
        match r {
            Some(p) => line@.len() >= 8 && line@.take(8) == "ADMPROG "@ && p@ == line@.skip(8),
            None => !(line@.len() >= 8 && line@.take(8) == "ADMPROG "@),
        },
{
    let v = chars_of(line);
    let marker = chars_of("ADMPROG ");
    proof {
        reveal_strlit("ADMPROG ");
    }
    if starts_with(&v, &marker) {
        let rest = slice_vec(&v, 8, v.len());
        assert(rest@ =~= line@.skip(8));
        Some(string_of(rest.as_slice()))
    } else {
        None
    }
}

/// How a yt-dlp run ended: successful when it was not cancelled and exited
/// with success; a failure reports yt-dlp's last error line, or a generic
/// message when it printed none.
pub open spec fn run_end_spec(cancelled: bool, exit_ok: bool, last_err: Seq<char>) -> (bool, Seq<char>) {
    let success = !cancelled && exit_ok;
    (
        success,
        if success || cancelled {
            seq![]
        } else if last_err.len() == 0 {
            "yt-dlp gagal (kode error non-nol)."@
        } else {
            last_err
        },
    )
}

pub fn run_end(cancelled: bool, exit_ok: bool, last_err: String) -> (r: (bool, String))
    ensures
        (r.0, r.1@) == run_end_spec(cancelled, exit_ok, last_err@),
{
    let success = !cancelled && exit_ok;
    if success || cancelled {
        (success, String::new())
    } else if last_err.as_str().is_empty() {
        (success, "yt-dlp gagal (kode error non-nol).".to_string())
    } else {
        (success, last_err)
    }
}

/// Outcome of a single-video run: a cancelled run is paused at the last
/// reported byte count; a successful one is complete with the size of the
/// final file (else the last count); otherwise it failed with `error`.
pub fn run_outcome(
    cancelled: bool,
    success: bool,
    last_downloaded: u64,
    final_size: Option<u64>,
    error: String,
) -> (r: Result<crate::download::Outcome, String>)
    ensures
        cancelled ==> r == Ok::<crate::download::Outcome, String>(
            crate::download::Outcome::Paused { downloaded: last_downloaded, total: None },
        ),
        !cancelled && success ==> r == Ok::<crate::download::Outcome, String>(
            crate::download::Outcome::Completed {
                bytes: match final_size {
                    Some(n) => n,
                    None => last_downloaded,
                },
            },
        ),
        !cancelled && !success ==> r == Err::<crate::download::Outcome, String>(error),
{
    if cancelled {
        Ok(crate::download::Outcome::Paused { downloaded: last_downloaded, total: None })
    } else if success {
        Ok(
            crate::download::Outcome::Completed {
                bytes: match final_size {
                    Some(n) => n,
                    None => last_downloaded,
                },
            },
        )
    } else {
        Err(error)
    }
}

/// Progress event of a single-video run: one bar from 0 to the total (or to
/// the bytes so far while the total is unknown).
pub fn run_progress_event(id: u64, downloaded: u64, total: Option<u64>, speed: u64) -> (r:
    crate::engine::EngineEvent)
    ensures
        match r {
            crate::engine::EngineEvent::Progress { id: i, downloaded: d, total: t, speed_bps, segments } => {
                &&& i == id
                &&& d == downloaded
                &&& t == total
                &&& speed_bps == speed
                &&& segments@ == seq![
                    (
                        0u64,
                        match total {
                            Some(n) => n,
                            None => downloaded,
                        },
                        downloaded,
                    ),
                ]
            },
            _ => false,
        },
{
    let end = match total {
        Some(n) => n,
        None => downloaded,
    };
    let segments = vec![(0u64, end, downloaded)];
    crate::engine::EngineEvent::Progress { id, downloaded, total, speed_bps: speed, segments }
}

/// Placeholder name shown before yt-dlp reports the real title.
pub fn hint_name(mode: Mode) -> (r: String)
    ensures
        r@ == match mode {
            Mode::Playlist => "YouTube playlist"@,
            Mode::AudioOnly => "YouTube audio"@,
            _ => "YouTube video"@,
        },
{
    match mode {
        Mode::Playlist => "YouTube playlist".to_string(),
        Mode::AudioOnly => "YouTube audio".to_string(),
        _ => "YouTube video".to_string(),
    }
}

// ------------------------------------------------------------------
// yt-dlp log lines
// ------------------------------------------------------------------

pub open spec fn is_digits(s: Seq<char>) -> bool {
    forall|i: int| 0 <= i < s.len() ==> '0' <= #[trigger] s[i] && s[i] <= '9'
}

/// A pre-merge stream such as `title.f396.mp4`: the file name has at least
/// two dots and the part before the extension is `f` and digits.
pub open spec fn is_intermediate_spec(path: Seq<char>) -> bool {
    let name = after_last2(path, '\\', '/');
    let p = last_pos2(name, '.', '.');
    let before = name.take(p);
    let q = last_pos2(before, '.', '.');
    let piece = before.skip(q + 1);
    p >= 0 && q >= 0 && piece.len() >= 2 && piece[0] == 'f' && is_digits(piece.drop_first())
}

pub fn is_intermediate(path: &str) -> (r: bool)
    ensures
        r == is_intermediate_spec(path@),
{
    let v = chars_of(path);
    let k = after_last2_start(&v, 0, v.len(), '\\', '/');
    assert(v@.subrange(0, v@.len() as int) =~= v@);
    let name = slice_vec(&v, k, v.len());
    let p1 = after_last2_start(&name, 0, name.len(), '.', '.');
    assert(name@.subrange(0, name@.len() as int) =~= name@);
    if p1 == 0 {
        return false;
    }
    let p = p1 - 1;
    let q1 = after_last2_start(&name, 0, p, '.', '.');
    assert(name@.subrange(0, p as int) =~= name@.take(p as int));
    if q1 == 0 {
        return false;
    }
    let piece = slice_vec(&name, q1, p);
    assert(piece@ =~= name@.take(p as int).skip(q1 as int));
    if piece.len() < 2 || piece[0] != 'f' {
        return false;
    }
    assert(is_intermediate_spec(path@) == (piece@.len() >= 2 && piece@[0] == 'f' && is_digits(
        piece@.drop_first(),
    )));
    let mut i: usize = 1;
    while i < piece.len()
        invariant
            1 <= i <= piece.len(),
            is_intermediate_spec(path@) == (piece@.len() >= 2 && piece@[0] == 'f' && is_digits(
                piece@.drop_first(),
            )),
            forall|j: int| 1 <= j < i ==> '0' <= #[trigger] piece@[j] && piece@[j] <= '9',
        decreases piece.len() - i,
    {
        if !('0' <= piece[i] && piece[i] <= '9') {
            assert(!('0' <= piece@.drop_first()[i - 1] && piece@.drop_first()[i - 1] <= '9'));
            return false;
        }
        i = i + 1;
    }
    assert forall|j: int| 0 <= j < piece@.drop_first().len() implies '0' <= #[trigger] piece@.drop_first()[j]
        && piece@.drop_first()[j] <= '9' by {
        assert(piece@.drop_first()[j] == piece@[j + 1]);
    }
    true
}

/// What follows `prefix` in `s`, when `s` starts with it.
pub open spec fn after_prefix(s: Seq<char>, prefix: Seq<char>) -> Option<Seq<char>> {
    if prefix.len() <= s.len() && s.take(prefix.len() as int) == prefix {
        Some(s.skip(prefix.len() as int))
    } else {
        None
    }
}

/// `s` with every `"` removed from both ends.
pub open spec fn trim_quotes_both(s: Seq<char>) -> Seq<char> {
    crate::probe::trim_quotes(s)
}

/// Final file path from one line of yt-dlp's normal log: the merged or
/// extracted output first, then a download destination that is not a
/// pre-merge stream, then a file that was already downloaded.
pub open spec fn final_name_spec(line: Seq<char>) -> Option<Seq<char>> {
    let l = trim(line);
    match after_prefix(l, "[Merger] Merging formats into "@) {
        Some(rest) => {
            let p = trim_quotes_both(trim(rest));
            if p.len() > 0 {
                Some(p)
            } else {
                None
            }
        },
        None => match after_prefix(l, "[ExtractAudio] Destination: "@) {
            Some(rest) => {
                let p = trim(rest);
                if p.len() > 0 {
                    Some(p)
                } else {
                    None
                }
            },
            None => match after_prefix(l, "[download] Destination: "@) {
                Some(rest) => {
                    let p = trim(rest);
                    if p.len() > 0 && !is_intermediate_spec(p) {
                        Some(p)
                    } else {
                        None
                    }
                },
                None => match after_prefix(l, "[download] "@) {
                    Some(rest) => match crate::text::first_occ(
                        rest,
                        " has already been downloaded"@,
                        0,
                    ) {
                        Some(idx) => {
                            let p = trim(rest.take(idx));
                            if p.len() > 0 {
                                Some(p)
                            } else {
                                None
                            }
                        },
                        None => None,
                    },
                    None => None,
                },
            },
        },
    }
}

fn after_prefix_exec(s: &Vec<char>, prefix: &str) -> (r: Option<Vec<char>>)
    ensures
        r matches Some(v) ==> after_prefix(s@, prefix@) == Some(v@),
        r is None ==> after_prefix(s@, prefix@) is None,
{
    let p = chars_of(prefix);
    if starts_with(s, &p) {
        let rest = slice_vec(s, p.len(), s.len());
        assert(rest@ =~= s@.skip(p@.len() as int));
        Some(rest)
    } else {
        None
    }
}

fn trim_vec_opt(v: &Vec<char>) -> (r: Option<Vec<char>>)
    ensures
        r matches Some(t) ==> t@ == trim(v@) && t@.len() > 0,
        r is None ==> trim(v@).len() == 0,
{
    let t = crate::text::trim_vec(v);
    if t.len() > 0 {
        Some(t)
    } else {
        None
    }
}

/// Final file path named by a yt-dlp log line (see `final_name_spec`).
pub fn parse_final_name(line: &str) -> (r: Option<String>)
    ensures
        r matches Some(p) ==> final_name_spec(line@) == Some(p@),
        r is None ==> final_name_spec(line@) is None,
{
    let v = chars_of(line);
    let l = crate::text::trim_vec(&v);
    if let Some(rest) = after_prefix_exec(&l, "[Merger] Merging formats into ") {
        let t = crate::text::trim_vec(&rest);
        let (a, b) = trim_quotes_range_vec(&t);
        let p = slice_vec(&t, a, b);
        return if p.len() > 0 {
            Some(string_of(p.as_slice()))
        } else {
            None
        };
    }
    if let Some(rest) = after_prefix_exec(&l, "[ExtractAudio] Destination: ") {
        return match trim_vec_opt(&rest) {
            Some(p) => Some(string_of(p.as_slice())),
            None => None,
        };
    }
    if let Some(rest) = after_prefix_exec(&l, "[download] Destination: ") {
        return match trim_vec_opt(&rest) {
            Some(p) => {
                let s = string_of(p.as_slice());
                if is_intermediate(s.as_str()) {
                    None
                } else {
                    Some(s)
                }
            },
            None => None,
        };
    }
    if let Some(rest) = after_prefix_exec(&l, "[download] ") {
        let needle = chars_of(" has already been downloaded");
        match crate::text::find_from(&rest, &needle, 0) {
            Some(idx) => {
                proof {
                    crate::text::lemma_first_occ(rest@, needle@, 0);
                }
                let (a, b) = trim_range(&rest, 0, idx);
                assert(rest@.subrange(0, idx as int) =~= rest@.take(idx as int));
                let p = slice_vec(&rest, a, b);
                return if p.len() > 0 {
                    Some(string_of(p.as_slice()))
                } else {
                    None
                };
            },
            None => {
                return None;
            },
        }
    }
    None
}

fn trim_quotes_range_vec(v: &Vec<char>) -> (r: (usize, usize))
    ensures
        r.0 <= r.1 <= v@.len(),
        v@.subrange(r.0 as int, r.1 as int) == crate::probe::trim_quotes(v@),
{
    let mut a: usize = 0;
    let mut b: usize = v.len();
    assert(v@.subrange(0, v@.len() as int) =~= v@);
    while a < b && (v[a] == '"' || v[b - 1] == '"')
        invariant
            a <= b <= v.len(),
            crate::probe::trim_quotes(v@) == crate::probe::trim_quotes(
                v@.subrange(a as int, b as int),
            ),
        decreases b - a,
    {
        if v[a] == '"' {
            assert(v@.subrange(a as int, b as int).drop_first() =~= v@.subrange(a + 1, b as int));
            a = a + 1;
        } else {
            assert(v@.subrange(a as int, b as int).drop_last() =~= v@.subrange(a as int, b - 1));
            b = b - 1;
        }
    }
    (a, b)
}

/// The numbers of yt-dlp's progress line "downloaded total estimate speed",
/// each `None` when missing or unreadable: the downloaded bytes (required),
/// the total (else the estimate; a zero size counts as unknown) and the
/// speed in bytes per second (0 when unknown).
pub open spec fn progress_spec(
    downloaded: Option<u64>,
    total: Option<u64>,
    estimate: Option<u64>,
    speed: Option<u64>,
) -> Option<(u64, Option<u64>, u64)> {
    match downloaded {
        None => None,
        Some(d) => {
            let size = if total is Some {
                total
            } else {
                estimate
            };
            Some(
                (
                    d,
                    match size {
                        Some(t) if t > 0 => Some(t),
                        _ => None,
                    },
                    match speed {
                        Some(v) => v,
                        None => 0,
                    },
                ),
            )
        },
    }
}

pub fn progress_from_fields(
    downloaded: Option<u64>,
    total: Option<u64>,
    estimate: Option<u64>,
    speed: Option<u64>,
) -> (r: Option<(u64, Option<u64>, u64)>)
    ensures
        r == progress_spec(downloaded, total, estimate, speed),
{
    let d = match downloaded {
        Some(d) => d,
        None => {
            return None;
        },
    };
    let size = match total {
        Some(t) => Some(t),
        None => estimate,
    };
    let size = match size {
        Some(t) => if t > 0 {
            Some(t)
        } else {
            None
        },
        None => None,
    };
    let speed = match speed {
        Some(v) => v,
        None => 0,
    };
    Some((d, size, speed))
}

/// What one line of yt-dlp's output tells a running download.
#[derive(Debug, Clone, PartialEq, Eq)]
pub enum LineEvent {
    /// A progress line: the numbers after its marker.
    Progress(String),
    /// The final file name, when it differs from the one already known.
    Name(String),
    Nothing,
}

pub open spec fn is_progress_line(line: Seq<char>) -> bool {
    line.len() >= 8 && line.take(8) == "ADMPROG "@
}

/// Reads one line of yt-dlp's output, given the file name known so far.
pub fn classify_line(line: &str, known: Option<&str>) -> (r: LineEvent)
    ensures
        is_progress_line(line@) ==> (r matches LineEvent::Progress(p) && p@ == line@.skip(8)),
        !is_progress_line(line@) ==> match final_name_spec(line@) {
            Some(n) => if crate::probe::opt_str_view(known) == Some(n) {
                r matches LineEvent::Nothing
            } else {
                (r matches LineEvent::Name(m) && m@ == n)
            },
            None => r matches LineEvent::Nothing,
        },
{
    if let Some(p) = progress_payload(line) {
        return LineEvent::Progress(p);
    }
    match parse_final_name(line) {
        Some(path) => {
            let same = match known {
                Some(k) => {
                    let kv = chars_of(k);
                    let pv = chars_of(path.as_str());
                    crate::text::vec_eq(&kv, &pv)
                },
                None => false,
            };
            if same {
                LineEvent::Nothing
            } else {
                LineEvent::Name(path)
            }
        },
        None => LineEvent::Nothing,
    }
}

// ------------------------------------------------------------------
// Size estimate
// ------------------------------------------------------------------

/// One format of a video, reduced to what the size estimate reads.
#[derive(Debug, Clone, Copy, PartialEq, Eq, Structural)]
pub struct FmtLite {
    pub height: Option<u32>,
    pub has_video: bool,
    pub has_audio: bool,
    /// Size in bytes (exact, approximate, or estimated from the bit rate).
    pub size: Option<u64>,
}

/// Metadata of one video.
#[derive(Debug, Clone)]
pub struct VideoMeta {
    pub title: String,
    pub formats: Vec<FmtLite>,
}

/// Kinds of formats the estimate looks for.
pub enum FmtKind {
    AudioOnly,
    VideoOnly,
    Progressive,
}

/// Whether a height fits under an optional cap (unknown heights count as 0).
pub open spec fn fits(h: Option<u32>, cap: Option<u32>) -> bool {
    match cap {
        None => true,
        Some(c) => (match h {
            Some(v) => v,
            None => 0,
        }) <= c,
    }
}

pub open spec fn kind_matches(f: FmtLite, kind: FmtKind, cap: Option<u32>) -> bool {
    match kind {
        FmtKind::AudioOnly => f.has_audio && !f.has_video,
        FmtKind::VideoOnly => f.has_video && !f.has_audio && fits(f.height, cap),
        FmtKind::Progressive => f.has_video && f.has_audio && fits(f.height, cap),
    }
}

pub open spec fn h0(f: FmtLite) -> u32 {
    match f.height {
        Some(v) => v,
        None => 0,
    }
}

pub open spec fn s0(f: FmtLite) -> u64 {
    match f.size {
        Some(v) => v,
        None => 0,
    }
}

/// `a`'s key (height, size) is at least `b`'s.
pub open spec fn key_ge(a: FmtLite, b: FmtLite) -> bool {
    h0(a) > h0(b) || (h0(a) == h0(b) && s0(a) >= s0(b))
}

/// Largest known audio-only size.
pub open spec fn max_audio_size(fs: Seq<FmtLite>) -> Option<u64>
    decreases fs.len(),
{
    if fs.len() == 0 {
        None
    } else {
        let acc = max_audio_size(fs.drop_last());
        let f = fs.last();
        if kind_matches(f, FmtKind::AudioOnly, None) && f.size is Some {
            match acc {
                Some(a) => if f.size->0 >= a {
                    f.size
                } else {
                    acc
                },
                None => f.size,
            }
        } else {
            acc
        }
    }
}

/// The matching format with the greatest (height, size), the last one among
/// equals (`Iterator::max_by_key`).
pub open spec fn best_of(fs: Seq<FmtLite>, kind: FmtKind, cap: Option<u32>) -> Option<FmtLite>
    decreases fs.len(),
{
    if fs.len() == 0 {
        None
    } else {
        let acc = best_of(fs.drop_last(), kind, cap);
        let f = fs.last();
        if kind_matches(f, kind, cap) && (acc is None || key_ge(f, acc->0)) {
            Some(f)
        } else {
            acc
        }
    }
}

pub open spec fn size_of_best(b: Option<FmtLite>) -> Option<u64> {
    match b {
        Some(f) => f.size,
        None => None,
    }
}

/// Estimated download size for a mode and height cap: audio alone; the best
/// video-only stream (else the best progressive one); or best video plus
/// audio, else the best progressive stream.
pub open spec fn size_for_spec(fs: Seq<FmtLite>, mode: Mode, cap: Option<u32>) -> Option<int> {
    let audio = max_audio_size(fs);
    let best_vo = size_of_best(best_of(fs, FmtKind::VideoOnly, cap));
    let best_prog = size_of_best(best_of(fs, FmtKind::Progressive, cap));
    match mode {
        Mode::AudioOnly => match audio {
            Some(a) => Some(a as int),
            None => None,
        },
        Mode::VideoOnly => match best_vo {
            Some(v) => Some(v as int),
            None => match best_prog {
                Some(p) => Some(p as int),
                None => None,
            },
        },
        _ => match (best_vo, audio) {
            (Some(v), Some(a)) => Some(v + a),
            _ => match best_prog {
                Some(p) => Some(p as int),
                None => None,
            },
        },
    }
}

fn fits_exec(h: Option<u32>, cap: Option<u32>) -> (r: bool)
    ensures
        r == fits(h, cap),
{
    match cap {
        None => true,
        Some(c) => {
            let v: u32 = match h {
                Some(x) => x,
                None => 0,
            };
            v <= c
        },
    }
}

fn kind_matches_exec(f: &FmtLite, kind: &FmtKind, cap: Option<u32>) -> (r: bool)
    ensures
        r == kind_matches(*f, *kind, cap),
{
    match kind {
        FmtKind::AudioOnly => f.has_audio && !f.has_video,
        FmtKind::VideoOnly => f.has_video && !f.has_audio && fits_exec(f.height, cap),
        FmtKind::Progressive => f.has_video && f.has_audio && fits_exec(f.height, cap),
    }
}

fn key_ge_exec(a: &FmtLite, b: &FmtLite) -> (r: bool)
    ensures
        r == key_ge(*a, *b),
{
    let ha: u32 = match a.height {
        Some(v) => v,
        None => 0,
    };
    let hb: u32 = match b.height {
        Some(v) => v,
        None => 0,
    };
    let sa: u64 = match a.size {
        Some(v) => v,
        None => 0,
    };
    let sb: u64 = match b.size {
        Some(v) => v,
        None => 0,
    };
    ha > hb || (ha == hb && sa >= sb)
}

fn best_of_exec(fs: &Vec<FmtLite>, kind: FmtKind, cap: Option<u32>) -> (r: Option<FmtLite>)
    ensures
        r == best_of(fs@, kind, cap),
{
    let mut acc: Option<FmtLite> = None;
    let mut i: usize = 0;
    while i < fs.len()
        invariant
            i <= fs@.len(),
            acc == best_of(fs@.take(i as int), kind, cap),
        decreases fs.len() - i,
    {
        assert(fs@.take(i + 1).drop_last() =~= fs@.take(i as int));
        let f = fs[i];
        let take = kind_matches_exec(&f, &kind, cap) && match acc {
            None => true,
            Some(a) => key_ge_exec(&f, &a),
        };
        if take {
            acc = Some(f);
        }
        i = i + 1;
    }
    assert(fs@.take(i as int) =~= fs@);
    acc
}

fn max_audio_exec(fs: &Vec<FmtLite>) -> (r: Option<u64>)
    ensures
        r == max_audio_size(fs@),
{
    let mut acc: Option<u64> = None;
    let mut i: usize = 0;
    while i < fs.len()
        invariant
            i <= fs@.len(),
            acc == max_audio_size(fs@.take(i as int)),
        decreases fs.len() - i,
    {
        assert(fs@.take(i + 1).drop_last() =~= fs@.take(i as int));
        let f = fs[i];
        if f.has_audio && !f.has_video {
            if let Some(s) = f.size {
                acc = match acc {
                    Some(a) => if s >= a {
                        Some(s)
                    } else {
                        Some(a)
                    },
                    None => Some(s),
                };
            }
        }
        i = i + 1;
    }
    assert(fs@.take(i as int) =~= fs@);
    acc
}

/// Estimated size of a download (see `size_for_spec`); `None` when unknown.
pub fn size_for(meta: &VideoMeta, mode: Mode, cap: Option<u32>) -> (r: Option<u64>)
    requires
        size_for_spec(meta.formats@, mode, cap) matches Some(v) ==> v <= u64::MAX,
    ensures
        match r {
            Some(v) => size_for_spec(meta.formats@, mode, cap) == Some(v as int),
            None => size_for_spec(meta.formats@, mode, cap) is None,
        },
{
    let f = &meta.formats;
    let audio = max_audio_exec(f);
    let best_vo = match best_of_exec(f, FmtKind::VideoOnly, cap) {
        Some(x) => x.size,
        None => None,
    };
    let best_prog = match best_of_exec(f, FmtKind::Progressive, cap) {
        Some(x) => x.size,
        None => None,
    };
    match mode {
        Mode::AudioOnly => audio,
        Mode::VideoOnly => match best_vo {
            Some(v) => Some(v),
            None => best_prog,
        },
        _ => match (best_vo, audio) {
            (Some(v), Some(a)) => Some(v + a),
            _ => best_prog,
        },
    }
}

// ------------------------------------------------------------------
// Text helpers
// ------------------------------------------------------------------

/// Duration as `m:ss`, or `h:mm:ss` from one hour on.
pub open spec fn fmt_duration_spec(secs: u32) -> Seq<char> {
    let h = secs / 3600;
    let m = (secs % 3600) / 60;
    let s = secs % 60;
    if h > 0 {
        decimal(h as nat) + seq![':'] + zero_pad(decimal(m as nat), 2) + seq![':'] + zero_pad(
            decimal(s as nat),
            2,
        )
    } else {
        decimal(m as nat) + seq![':'] + zero_pad(decimal(s as nat), 2)
    }
}

pub fn fmt_duration(secs: u32) -> (r: String)
    ensures
        r@ == fmt_duration_spec(secs),
{
    let h: u32 = secs / 3600;
    let m: u32 = (secs % 3600) / 60;
    let s: u32 = secs % 60;
    let mut v: Vec<char> = Vec::new();
    if h > 0 {
        push_decimal(&mut v, h as u64);
        v.push(':');
        let mm = padded_decimal_vec(m as u64, 2);
        append_chars(&mut v, &mm);
    } else {
        push_decimal(&mut v, m as u64);
    }
    v.push(':');
    let ss = padded_decimal_vec(s as u64, 2);
    append_chars(&mut v, &ss);
    assert(v@ =~= fmt_duration_spec(secs));
    string_of(v.as_slice())
}

/// URL of a playlist entry: its own http(s) URL, else the watch page of its
/// id, else none.
pub open spec fn entry_url_spec(url: Option<Seq<char>>, id: Option<Seq<char>>) -> Option<Seq<char>> {
    match url {
        Some(u) if u.len() >= 4 && u.take(4) == "http"@ => Some(u),
        _ => match id {
            Some(i) => Some("https://www.youtube.com/watch?v="@ + i),
            None => None,
        },
    }
}

pub fn entry_url(url: Option<&str>, id: Option<&str>) -> (r: Option<String>)
    ensures
        match r {
            Some(s) => entry_url_spec(
                crate::probe::opt_str_view(url),
                crate::probe::opt_str_view(id),
            ) == Some(s@),
            None => entry_url_spec(
                crate::probe::opt_str_view(url),
                crate::probe::opt_str_view(id),
            ) is None,
        },
{
    if let Some(u) = url {
        let uv = chars_of(u);
        let http = chars_of("http");
        proof {
            reveal_strlit("http");
        }
        if starts_with(&uv, &http) {
            return Some(string_of(uv.as_slice()));
        }
    }
    match id {
        Some(i) => {
            let mut v = chars_of("https://www.youtube.com/watch?v=");
            let iv = chars_of(i);
            append_chars(&mut v, &iv);
            Some(string_of(v.as_slice()))
        },
        None => None,
    }
}

/// Tooltip of the disabled YouTube menu, naming the missing tools (empty
/// when both are there).
pub open spec fn missing_tooltip_spec(has_ytdlp: bool, has_ffmpeg: bool) -> Seq<char> {
    let tail = " tidak ditemukan. Pasang di PATH atau atur lokasinya di Options."@;
    if has_ytdlp && has_ffmpeg {
        seq![]
    } else if !has_ytdlp && !has_ffmpeg {
        "yt-dlp & ffmpeg"@ + tail
    } else if !has_ytdlp {
        "yt-dlp"@ + tail
    } else {
        "ffmpeg"@ + tail
    }
}

pub fn missing_tooltip(has_ytdlp: bool, has_ffmpeg: bool) -> (r: String)
    ensures
        r@ == missing_tooltip_spec(has_ytdlp, has_ffmpeg),
{
    let head = if has_ytdlp && has_ffmpeg {
        return String::new();
    } else if !has_ytdlp && !has_ffmpeg {
        chars_of("yt-dlp & ffmpeg")
    } else if !has_ytdlp {
        chars_of("yt-dlp")
    } else {
        chars_of("ffmpeg")
    };
    let mut v = head;
    let tail = chars_of(" tidak ditemukan. Pasang di PATH atau atur lokasinya di Options.");
    append_chars(&mut v, &tail);
    string_of(v.as_slice())
}

/// `sub` occurs somewhere in `s`.
pub open spec fn has_sub(s: Seq<char>, sub: Seq<char>) -> bool {
    exists|k: int| crate::text::occurs_at(s, sub, k)
}

proof fn lemma_filter_chars(h: u32)
    ensures
        forall|i: int|
            0 <= i < height_filter_spec(Some(h)).len() ==> #[trigger] height_filter_spec(Some(h))[i]
                != '/',
{
    reveal_strlit("[height<=");
    reveal_strlit("]");
    crate::text::lemma_decimal_digits(h as nat);
    let d = decimal(h as nat);
    let hf = height_filter_spec(Some(h));
    assert forall|i: int| 0 <= i < hf.len() implies #[trigger] hf[i] != '/' by {
        if 9 <= i < 9 + d.len() {
            assert(hf[i] == d[i - 9]);
            assert(crate::text::is_digit(d[i - 9]));
        }
    }
}

proof fn lemma_no_slash_cat(a: Seq<char>, b: Seq<char>)
    requires
        forall|i: int| 0 <= i < a.len() ==> #[trigger] a[i] != '/',
        forall|i: int| 0 <= i < b.len() ==> #[trigger] b[i] != '/',
    ensures
        forall|i: int| 0 <= i < (a + b).len() ==> #[trigger] (a + b)[i] != '/',
{
    assert forall|i: int| 0 <= i < (a + b).len() implies #[trigger] (a + b)[i] != '/' by {
        if i >= a.len() {
            assert((a + b)[i] == b[i - a.len()]);
        }
    }
}

/// A height cap reaches yt-dlp on every alternative: for each video mode,
/// the format selector after `-f` is two alternatives separated by `/`,
/// and each holds the filter `[height<=H]`.
pub proof fn law_height_cap_on_every_alternative(mode: Mode, h: u32)
    requires
        mode != Mode::AudioOnly,
    ensures
        format_args_spec(mode, Some(h)).len() >= 2,
        format_args_spec(mode, Some(h))[0] == "-f"@,
        exists|x: Seq<char>, y: Seq<char>|
            format_args_spec(mode, Some(h))[1] == x + seq!['/'] + y && !x.contains('/')
                && !y.contains('/') && has_sub(x, height_filter_spec(Some(h))) && has_sub(
                y,
                height_filter_spec(Some(h)),
            ),
{
    let hf = height_filter_spec(Some(h));
    lemma_filter_chars(h);
    let sel = format_args_spec(mode, Some(h))[1];
    if mode == Mode::VideoOnly {
        reveal_strlit("bv");
        reveal_strlit("/bv*");
        reveal_strlit("bv*");
        let x = "bv"@ + hf;
        let y = "bv*"@ + hf;
        assert("/bv*"@ =~= seq!['/'] + "bv*"@);
        assert(sel =~= x + seq!['/'] + y);
        lemma_no_slash_cat("bv"@, hf);
        lemma_no_slash_cat("bv*"@, hf);
        assert(!x.contains('/'));
        assert(!y.contains('/'));
        assert(crate::text::occurs_at(x, hf, 2)) by {
            assert(x.subrange(2, 2 + hf.len() as int) =~= hf);
        }
        assert(crate::text::occurs_at(y, hf, 3)) by {
            assert(y.subrange(3, 3 + hf.len() as int) =~= hf);
        }
    } else {
        reveal_strlit("bv*");
        reveal_strlit("+ba/b");
        reveal_strlit("+ba");
        reveal_strlit("b");
        let x = "bv*"@ + hf + "+ba"@;
        let y = "b"@ + hf;
        assert("+ba/b"@ =~= "+ba"@ + seq!['/'] + "b"@);
        assert(sel =~= x + seq!['/'] + y);
        lemma_no_slash_cat("bv*"@, hf);
        lemma_no_slash_cat("bv*"@ + hf, "+ba"@);
        lemma_no_slash_cat("b"@, hf);
        assert(!x.contains('/'));
        assert(!y.contains('/'));
        assert(crate::text::occurs_at(x, hf, 3)) by {
            assert(x.subrange(3, 3 + hf.len() as int) =~= hf);
        }
        assert(crate::text::occurs_at(y, hf, 1)) by {
            assert(y.subrange(1, 1 + hf.len() as int) =~= hf);
        }
    }
}

/// Without a height cap no selector holds a filter, and audio downloads
/// ignore the cap altogether.
pub proof fn law_no_cap_no_filter(mode: Mode, h: Option<u32>)
    ensures
        mode != Mode::AudioOnly ==> format_args_spec(mode, None)[0] == "-f"@ && !format_args_spec(
            mode,
            None,
        )[1].contains('['),
        format_args_spec(Mode::AudioOnly, h) == format_args_spec(Mode::AudioOnly, None),
{
    reveal_strlit("bv");
    reveal_strlit("/bv*");
    reveal_strlit("bv*");
    reveal_strlit("+ba/b");
    let e: Seq<char> = seq![];
    assert("bv"@ + e + "/bv*"@ + e =~= seq!['b', 'v', '/', 'b', 'v', '*']);
    assert("bv*"@ + e + "+ba/b"@ + e =~= seq!['b', 'v', '*', '+', 'b', 'a', '/', 'b']);
}

} // verus!
