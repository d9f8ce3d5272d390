# FWOB

FWOB is the Fixed-Width Ordered Binary file format: frames of one fixed width, ordered by a key
field. There are two versions of it. A v1 file is a plain sequence of frames, a v2 file a sequence
of fixed-size pages that hold compressed frames.

This crate holds the rules of the FWOB facade and of the `fwob` command-line tool as verified Verus
code: which frames a selector selects, what a deletion leaves of each page, where a file is split,
which files can be joined and what the result holds, how values are decoded and printed, what the
words of a command mean and when a command is refused.

## Layout

- `src/` is the library. Every function states in `requires` and `ensures` what it does; public
  `proof fn` items state what holds across functions.
  - `text`, `number`: texts and numbers, character by character.
  - `schema`, `key`, `options`, `error`: the values everything else speaks of.
  - `selection`, `deletion`, `editor`, `organization`: selecting, deleting, editing, splitting and
    joining.
  - `formatting`: decoding frames and writing them in six formats.
  - `toml`: a writer of TOML, in color on terminals.
  - `cli`: the commands.
- `tests/` runs the library on concrete values.
- `app/` is the command itself: arguments, files, threads and the terminal. It reads and writes
  files through the storage crates `fwob_core`, `fwob_v1` and `fwob_v2`.

## Boundaries

Floating-point numbers do not occur in the library. A floating-point key is held by its bits and
compared through them; the text of a floating-point number, a ratio or a time is handed in by the
caller.

What is taken from other crates is declared next to its use, with a comment on what is relied on:
JSON objects and their text from `serde_json`, the width of a text on a screen from
`unicode-width`, relative paths from `pathdiff`, and small letters, UTF-8 and `String::push` from
the standard library.
