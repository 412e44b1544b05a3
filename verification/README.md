# win-terminal-commands (verified core)

Small Unix-style command-line tools for Windows — `md5`, `gzip`/`gunzip`,
`open`, `say`, `sw_vers` and `which` — whose logic is a Verus-verified
library.

- `src/` — the verified library.
  - `md5.rs`: MD5 (RFC 1321) as a streaming hasher, specified by the RFC's
    padding and compression function.
  - `checksum.rs`: the `md5` command: hex rendering, checksum-line parsing
    (GNU and BSD formats), the command line, and the `--check` tally.
  - `gzip.rs`: the `gzip` engine: command line, output names, per-file
    decisions, the header time stamp, and compression through `flate2`.
  - `open.rs`, `say.rs`, `sw_vers.rs`, `which.rs`: the other commands'
    command lines and text processing.
  - `paths.rs`, `text.rs`: paths as text, and character-level helpers.
- `app/` — the executable: argument handling, files, standard streams and
  Windows system calls around the library. It picks the command by the name
  it is run under.
- `tests/` — tests of the library.

`flate2` does the compressing; the `windows` crate is used only by `say`'s
speech engine on Windows.
