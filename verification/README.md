# adm

A multi-connection download manager whose decisions are verified with Verus.

- `src/` is the verified library. Each module states its behaviour in
  `requires`/`ensures` over `Seq`, `Map` and spec functions:
  - `text`: character-level helpers (ASCII case, Unicode trimming, search, decimals);
  - `batch`: URLs in free text, `[a-b]` wildcard expansion, batch lists;
  - `category`, `names`: categories by extension, safe and generic file names;
  - `probe`: `Content-Disposition` and `Content-Range` parsing, probe results;
  - `sidecar`, `download`: resume state, segment planning, resume, progress, outcome;
  - `queue`: the "Download Later" queue and the table of running sessions;
  - `grabber`: file links of an HTML page (URL resolution by the `url` crate);
  - `youtube`, `playlist`: yt-dlp arguments and log lines, playlist item states;
  - `schedule`, `settings`, `autostart`, `bridge`, `engine`: scheduler ticks,
    settings, start-at-login decisions, native-messaging frames, engine events.
  Public `law_*` proof functions state properties that span several calls.
- `app/` is the command-line program around it: HTTP through reqwest and
  tokio, positioned file writes, JSON files through serde, the speed limiter,
  and running yt-dlp.
- `tests/` exercises the library on concrete values.
