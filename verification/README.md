# codenotch-win

The usage logic of a side-notch status panel for Windows, as a Verus-verified
library, with the Tauri shell around it in `app/`.

- `src/json.rs` — the JSON document model the library reads, and serde_json's parse into it.
- `src/number.rs` — JSON numbers read exactly from their decimal text.
- `src/usage.rs` — limit windows from the usage service's reply: the `limits` list,
  the `five_hour`/`seven_day` fallbacks and their de-duplication, session first;
  the snapshot and its restoration after a restart.
- `src/credentials.rs` — the OAuth token and its expiry from the CLI's store; the
  diagnostic report.
- `src/poll.rs` — the poll cycle as a state machine (back-off on 429, one retry
  after a refused token, stale marking on failure), the refresh request.
- `src/process.rs` — whether a process listing holds a process id.
- `src/notch.rs` — the notch window's extended style bits.
- `src/text.rs` — decimal rendering and parsing, text comparison.
- `app/` — window placement, Win32 calls, HTTP, files, the polling thread.

Each public function states its result in its `ensures`; the properties that span
several functions are the `law_*` proof functions.
