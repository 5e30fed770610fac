# arenacoach

The logic of the Arena Coach desktop companion as a verified library: it reads the
opted-in MTG Arena log, assembles each finished game into a compact match payload,
keeps the matches waiting for upload, and decides what the watcher shows and does.
The strings under identity keys (screen and player names, user and session ids) are
emptied before the assembler reads a value, so two logs that differ only in them give
the same match (`law_identity_never_read`). Every function in `src/` carries a contract
that Verus proves, except the few trusted wrappers around std, `serde_json` and `dirs`,
whose contracts are taken as given.

- `src/text.rs`, `src/json.rs`: strings and the JSON model the rest reads.
- `src/identity.rs`: which keys name a person, and stripping them from a value.
- `src/log_follower.rs`: splitting the log into entries, and where reading stands.
- `src/gre_assembler.rs`: from log entries to a finished `Match`.
- `src/match_payload.rs`: the match payload and its format rules.
- `src/local_stats.rs`, `src/outbox.rs`: the all-time record and the upload queue.
- `src/settings.rs`, `src/config.rs`, `src/log_path.rs`: preferences, session and places.
- `src/poster.rs`, `src/watcher.rs`: what each server answer and each watcher event means.

`app/` holds the plumbing around it: files, the credential store, HTTP and the watch
loop. `tests/` runs the library on concrete inputs.
