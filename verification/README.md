# openkakao_cli (verified core)

The logic of the KakaoTalk macOS command-line tool, written in Verus and
proved against its contracts:

- `src/text.rs` — characters, decimal formatting and parsing (the grammar of
  Rust's integer `FromStr`), Unicode trimming, lines, splitting, searching.
- `src/local_db.rs` — the local database: platform UUID, user id recovery
  from the preferences property list (parsed with the `plist` crate), the
  SHA-512 search behind a revision hash, the longest common suffix,
  PBKDF2-HMAC-SHA256, the database name and SQLCipher key, file discovery
  that skips directories and `-wal`/`-shm` sidecars, and row decoding.
- `src/crypto.rs` — SHA-1, SHA-256, SHA-512, HMAC-SHA256, base64 and hex,
  called through the `sha1`, `sha2`, `hmac`, `base64` and `hex` crates.
- `src/ax_send.rs` — the decisions behind driving the app's UI: process id,
  exact chat matching, window and field selection, message scraping,
  polling.
- `src/config.rs` — settings, their safe defaults and the send guards.
- `src/auth.rs` — remaining-time and token display, and the cache watcher.
- `src/doctor.rs` — the verdict and detail line of each diagnostic, and the
  order of the report.

`app/` holds the parts that touch the machine (processes, files, SQLite, the
Accessibility API, terminal output); `tests/` exercises the library.
