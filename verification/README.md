# ripsed

A stream editor for files, pipes and JSON requests: find and replace, delete,
insert, transform, surround, indent and dedent, by literal or regular
expression, with ranges, limits, backups, undo and atomic batches.

`src/` is the library. It is verified with Verus, but for the bodies of a few
small wrappers, each around one call into another crate or the standard library:

- `engine`, `edits`, `multiline`, `splice`, `range`, `transform` apply one
  operation to one text; `stream` does the same line by line;
- `matcher`, `rex`, `needles`, `spans`, `lines`, `offsets`, `strings` are what
  they stand on;
- `operation`, `script`, `request`, `cli`, `config`, `modes` are what a user can
  ask for, and how it is read;
- `process`, `confirm`, `json_run`, `writer`, `pipe`, `apply`, `run` decide, step
  by step, what is done to files: each takes how the last step went and says
  which is next;
- `files`, `globs` choose the files; `encoding`, `undo`, `diff`, `human`, `error`
  hold what is read, kept and shown; `bench` says what is measured;
- `laws`, `script_laws`, `splice_laws`, `stream_laws`, and the laws at the end of other modules,
  state what holds of several functions together.

What is believed without proof is the behaviour of `regex`, `memchr`, `globset`,
`ignore`, `serde_json` and a few functions of the standard library; each is
declared with a contract in `rex`, `lines`, `globs`, `matcher`, `encoding`,
`modes`, `offsets`, `strings` or `transform`.

`app/` is the program around the library: arguments, files, locks, threads and
output. `tests/` runs the library on concrete values.
