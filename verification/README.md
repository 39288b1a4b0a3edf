# mitos_packages_toolkit

The logic behind the package-repository tools — recipe checks and
template resolution, the repository's file layout, metadata entries,
folding metadata into a channel index, and the hex encodings used for
seeds and signatures — written in Verus and proved against its
contracts.

- `src/` — the verified library (`recipe`, `paths`, `metadata`, `index`,
  `version`, `sign`, `builder`, `publish`, `text`, `error`).
- `tests/` — tests of the library on concrete values.
- `app/` — the command-line tools and file I/O around the library:
  reading recipes and templates, walking a metadata directory,
  checksums and Ed25519 signing through the package-format crate.
