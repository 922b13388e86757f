# mds

Reading `.mds`/`.mdf` disc images, verified with Verus.

The `.mds` file describes the sessions and tracks of a disc whose sectors are
stored in an `.mdf` data file. The library parses the `.mds` metadata, converts
a single data track to an `.iso`, converts a single session to `.bin`/`.cue`,
and reads the ISO9660 file system of a data track directly from its raw
sectors (listing it or planning its extraction).

## Layout

- `src/` — the verified library.
  - `mds/` — the `.mds` format: header, sessions, tracks, index and file name
    blocks, each parsed by a function whose contract is a spec over the bytes.
  - `cooked.rs` — the 2048-byte logical view of a track's raw sectors.
  - `iso9660.rs` — volume descriptors, directory records, names (primary and
    Joliet), the directory tree and file contents.
  - `convert.rs`, `cue.rs` — `.iso` and `.bin`/`.cue` output.
  - `extract.rs` — safe names, the `--list` view and the extraction plan.
  - `info.rs` — the text that `mds info` prints.
  - `paths.rs` — path text that reads the same on every platform, and what
    std's path operations make of it.
  - `source.rs` — byte sources and sinks; `bytes.rs`, `text.rs`,
    `unicode.rs` — integer fields, decimal/hex text, UTF-16 and Latin-1.
  - `laws.rs` — properties that span several functions.
- `tests/` — tests of the library on concrete images.
- `app/` — the command-line program: argument parsing, files, printing, and
  carrying out extraction plans on disk.

## Commands

```
mds info <FILE.mds>
mds convert --format iso|cue <FILE.mds>
mds extract [-o DIR] [--list] [--force] <FILE.mds>
```
