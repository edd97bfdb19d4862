# dsh-desktop

The desktop shell of DeepSeek Harness: it starts the bundled dsh web server,
shows its UI in a WebView window and keeps the server payload up to date.

- `src/` is the Verus-verified core:
  - `text` — Unicode white space, trimming, splitting, substring search and
    decimal parsing over character sequences;
  - `semver`, `precedence` — version parsing and precedence, with the laws that
    make "newer than" a strict order;
  - `server` — readiness-line recognition and the server watcher's decisions;
  - `payload` — which stylesheets to patch and which prebuilds to prune;
  - `update` — npm command lines, npm's answer, scheduling and the updater's
    decision machine;
  - `json` — the `package.json` version, read with `serde_json`.
- `app/` is the unverified shell: Tauri window, menus, tray, processes, files.
- `tests/` exercises the library, including agreement with `std` on white
  space, trimming, splitting and number parsing.
