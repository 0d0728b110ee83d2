# termdeck

The verified core of a terminal workspace backend, written in Verus.

- `src/osc52.rs`: finds OSC 52 clipboard requests in terminal output that
  arrives in pieces, and encodes each read in base64 for the front end;
  `src/osc52_laws.rs` proves that splitting the output over reads does not
  change what is found, unless a read throws away an unfinished request
  that has grown past the payload limit (the rest of such a request, read
  later, is scanned afresh).
- `src/session.rs`: checks on session IDs, terminal input and PTY sizes, and
  the file stem of a session.
- `src/sessions.rs`: the table of running sessions, keyed by session ID, and
  the counter of the generations that tell sessions apart.
- `src/shell.rs`: which shell a session starts, how it is launched, where
  its integration files go and the startup files that seed its history;
  `src/shell_laws.rs` proves that the quoting reads back.
- `src/paths.rs`: working directories, Windows verbatim prefixes, dropped
  paths and the directory they dock at, and the lines of `where.exe` output.
- `src/text.rs`: string building, lines of text, decimal numbers.
- `app/`: the Tauri commands, PTY processes, files and environment around
  the library.
