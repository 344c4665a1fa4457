# storm_almanac

The verified core of a desktop companion for Heroes of the Storm, written in
Verus.

- `src/battle_lobby_probe.rs`: finds the printable ASCII strings in a
  `.battlelobby` file (every maximal run, with its offset), decides which
  file events concern lobby files, names dump files, and formats the log
  lines.
- `src/game_focus.rs`: the shared focus flag, the poller that tells watchers
  of focus changes, the foreground-window check with its cache of the game's
  process id, and the parser for `tasklist` output.
- `src/game_session.rs`: when to start and stop recording input sessions,
  session file names and how pending uploads are found again, the time span
  of a session, and the upload of a session as a state machine.
- `src/text.rs`: character scanning, trimming, file-name splitting and
  decimal parsing used by the modules above.
- `app/`: the desktop side (file watching, processes, HTTP, Tauri state),
  which performs the actions the library decides on.
- `tests/`: tests of the library on concrete values.
