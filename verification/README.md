# sedx

A stream editor in the manner of GNU `sed`, with previews, context diffs
and backups. This crate is its verified core: the parts that decide what an
edit does are written in Verus and carry contracts that the verifier checks.

## Layout

- `src/` — the library, every function verified:
  - `parser/` reads sed scripts into commands (addresses, ranges, groups,
    substitutions, labels and branches, file commands), and rewrites BRE
    patterns for the regex engine (`bre_converter`, `ere_converter`);
  - `file_processor/in_memory.rs` runs GNU sed's cycle over a whole file;
    `file_processor/streaming.rs` runs a script line by line with a bounded
    context window, as a state machine fed one line at a time;
    `file_processor/line_diff.rs` pairs the line diff of two versions into
    modified, added and deleted lines;
  - `diff_formatter` chooses the lines shown around changes and renders
    them; `plan` decides engine, backup and display for a run;
  - `regex_engine` holds the calls into the `regex` crate; `regex_error`
    explains compilation failures; `path_policy`, `error_helpers`,
    `config`, `backup_manager`, `cli` and `text` hold the smaller rules.
- `tests/` — the test suite, run against the compiled library.
- `app/` — the `sedx` program: command line, files, standard input and
  output, backups on disk, colours.

## Contracts worth knowing

- A script with no commands outputs its input unchanged, in both engines.
- The streaming engine's context window never exceeds the context size.
- Lines written to a file and read back are the same lines.
- No change is ever hidden from the diff display.
- The regex mode never changes which scripts parse.
- Accepted script file names are normalised, and normalising is stable. A
  name is accepted exactly when it is relative, has no `..` part and names
  something; it is normalised to its named parts.
- The history lists backups by time, then by id, each once; pruning to N
  backups removes the first ones in it, so none removed is newer than one
  kept.
- The context size changes only the diff: streams that differ in it write
  and print the same lines and give the same answers.
- A script with no commands records unchanged lines only.
- `q` without an address ends a stream before the current line is written.
- Parse errors carry their messages: every parser's contract states the
  message of the errors it raises itself.
- On scripts of substitutions (each on every line, no `p` flag) the two
  engines write the same lines, and a script the program chooses to stream
  is not refused by the streaming engine unless a group holds `q` or
  another group.

## Lookup tables

The engines keep small tables: the state of each pattern range (keyed by
its two patterns), of each mixed range (keyed by command index), the lines
of files read by `r`/`R` and the read position in each (keyed by file
name). They are held as vectors of key/value pairs, with a spec lookup that
finds the first entry for a key and an update that changes that entry or
adds one; the engines' contracts are stated over these. vstd's `HashMap` contracts need the key
type to obey its key model, which `String` and tuples of strings are not
shown to do; holding every table in one form keeps the range-state proofs
uniform across both engines.
