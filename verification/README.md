# openwarrant

The decision logic of `war`, the OpenWarrant command line, written in Verus
and proved against its contracts.

- `src/` is the library. Each module holds the rules of one command or
  record: what a check reports for given records, what a signature screen
  offers, which context a stage receives, how a draft session admits its
  snapshots, when an authority store refuses a snapshot. Functions take
  plain values (texts, byte strings, what the file system reported) and
  return findings, messages or records; their `ensures` clauses say exactly
  which. Public `lemma_*` proof functions state the rules that hold across
  calls.
- `tests/` runs the library on concrete records.
- `app/` is a thin command line over part of the library: the `commit`,
  `compat` and `stray` commands. It reads files and runs `git`, hands the
  library plain values and prints what the library returns.

Outside crates the library calls: `sha2` (SHA-256), `serde_json` and `toml`
(reading a JSON or TOML text into the plain values of `structured`, which
verified code then inspects) and `rustix` (the operator's user id). Each
call stands behind one small trusted function whose contract says what is
assumed of it.
