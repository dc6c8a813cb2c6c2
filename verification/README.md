# lethe

A store of plain-text notes, verified with Verus.

Each note is a directory named by the note's identifier, holding
`meta.toml` (written by the `toml` crate: its identifier, creation and
modification times, aliases and any user-defined keys) and `body.md` (its
body).

- `src/` is the verified library. Its contracts state what each operation
  returns and how it changes a note, a store's dirty flags and a
  repository's alias index; laws such as the round trip of identifiers, what
  setting and removing keys gives back, how an alias edit moves the index and
  the idempotence of edits are proved as proof functions.
- A store writes and reads a note one file-system request at a time:
  `write_first`/`write_next` and `read_first`/`read_next` say exactly which
  directory or file is asked for, with what text, and what each answer of
  the file system leads to; the store's `write` and `read` make those
  requests through the user's `NoteIO` and hand the answers back.
- `app/` is the command-line program: argument parsing, the real file
  system, and printing.
- `tests/` exercise the library through an in-memory file system and clock.
