# sax

A simple but smart archive extraction tool: `sax <archive> <out>` detects the
archive type from the file name (zip, tar, tar.gz/tgz, tar.xz/txz,
tar.bz2/tbz2, tar.zst/tzst, 7z, rar) and extracts it into `out`, stripping a
single top-level directory unless told otherwise (`--strip`, `--no-strip`, or
`extract_prefs.strip_top_level_dir` in `$XDG_CONFIG_HOME/sax/config.yaml` or
`~/.config/sax/config.yaml`).

Layout:

- `src/` is the verified library. Paths are byte strings with Unix semantics
  (`path`); `fs_utils` holds `safe_join`, which refuses archive entry paths that
  are empty, absolute or climb with `..`, with proofs that an accepted path
  stays under its base; `extract` detects archive types and decides, entry by
  entry, what to create or write; `config` and `cli` hold the configuration
  and command-line decisions.
- `app/` is the program around it: argument parsing, the archive readers, the
  file system, and YAML.
- `tests/` runs the library on concrete values and compares its path functions
  with `std::path` on every short path.
