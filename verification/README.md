# freearc_cellar

A verified library for the FreeArc archive container format (`.arc`,
FitGirl's `fg-*.bin`) and the decision logic of *cellar*, a launcher
that runs Windows games in Wine bottles.

- `src/` is the library, written in Verus: every function carries a
  contract that Verus proves. The archive reader, writer, directory
  parser, codec dispatch, extraction planning and surveys are there,
  with the laws that tie them together (what the writer writes, the
  reader opens, parses and extracts back). The launcher's game library,
  profiles, installer recognition, bottle layout, launch commands,
  prerequisite checks and report parsing are under `src/cellar/`.
- Decoding LZMA and zstd streams, CRC-32, lower-casing text and making
  random ids are done by the crates `lzma-rs`, `zstd`, `crc32fast`, std
  and `uuid`, behind small trusted functions whose contracts say what
  is relied on.
- `app/` is the command-line front end: the archive tools (`ls`,
  `files`, `x`, `c`, `survey`, `dump`, `scan`), the CLS plugin host,
  the `unarc.dll` shim, and the launcher's commands. It does the file
  and process work and leaves every decision to the library.
- `tests/` exercises the library on concrete inputs.
