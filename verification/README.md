# sqwok

The core of an end-to-end encrypted terminal chat client, written in Verus.

- `src/` is the verified library: group key chains and their persistent form,
  message and key-bundle encryption, bearer tokens, the channel protocol and
  sync bookkeeping, reconnect backoff, registration checks, and the state
  behind the terminal interface (panes, editing, the rows a pane shows, word
  wrapping, mentions, the command bar and dialogs). Calls into the
  cryptography, encoding, uuid and text-width crates go through small
  trusted wrappers whose contracts name what the crates compute.
- `app/` is the program around it: the command line, terminal drawing with
  ratatui, the websocket loop, HTTP, SQLite storage and file I/O.
- `tests/` runs the library on concrete inputs.
