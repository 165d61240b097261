# oops_terminal

The verified core of OopsTerminal, a tabbed desktop terminal for PowerShell,
and of the session server it talks to. Every function in `src/` carries a
contract, and Verus proves all of them except the few marked
`#[verifier::external_body]`: thin wrappers around std and base64 calls
(UTF-8 decoding, `String::push`, path comparison, `Path::is_absolute`,
`Path::extension`, base64 decoding, JSON parsing with serde_json), whose
contracts are trusted.

Of the session server only its decisions and its state live here: the swarm
roster, client connections, per-session signals, cancel epochs, reload and
subscribe rules. The server's request handlers, tasks and transport are not
part of this crate.

## Layout

- `src/text.rs`, `src/textset.rs`, `src/keyed.rs`: text helpers, sets of
  texts, and a map keyed by text, with their specifications.
- `src/ansi.rs`, `src/prompt.rs`, `src/tracker.rs`, `src/stream.rs`: terminal
  output: stripping ANSI sequences, recognising `PS <path>> ` prompts and the
  commands the user submitted, and releasing only complete UTF-8 text
  (invalid sequences become U+FFFD; output after them keeps flowing).
- `src/terminal.rs`: the session table, start directories, the shell, and
  the input log (its JSON lines read back into records).
- `src/history.rs`: the command history files (the app's JSONL history and
  PSReadLine's history).
- `src/settings.rs`, `src/fonts.rs`, `src/desktop.rs`: settings, terminal
  font files and the font request URL, and the window/tray decisions.
- `src/signals.rs`, `src/swarm.rs`, `src/roster.rs`, `src/control.rs`,
  `src/cancel.rs`, `src/sessions.rs`, `src/reload.rs`, `src/subscribe.rs`:
  the session server: per-session signals, file touches, swarm membership,
  client connections, cancel epochs, the steps that move a session to a new
  id, reload interruption, and subscribe directories.
- `app/`: the unverified desktop side (SQLite, files, pseudo-terminals,
  logging) calling the core.
- `tests/`: tests of the core.
