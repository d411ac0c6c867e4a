# cargo_crap

The decision-making core of `cargo crap`, a tool that scores Rust functions
by CRAP (Change Risk Anti-Patterns: cyclomatic complexity combined with test
coverage), written in Verus and verified.

## Layout

- `src/` — the verified library:
  - `paths` — component-wise path arithmetic (Unix rules) and path order;
  - `merge` — binding analyzed source files to LCOV records (exact
    canonical tier, longest component-suffix tier), scope diagnostics,
    file order;
  - `workspace` — `-p` member selection, member scope for baselines,
    exclude-list precedence, flag resolution, `cargo metadata` members;
  - `filters` — `--allow` and baseline exclude filters over `globset`,
    crate attribution;
  - `delta` — pairing a run with a baseline, by key and, for functions
    that moved between files, by name;
  - `duplicates` — a plain model of a function's syntax, its normalization
    (names and literal values dropped, shape kept), FNV-1a structural
    fingerprints, fingerprint-set overlap;
  - `report` — source links, Location-cell layout, fixed report text,
    per-crate rollups;
  - `text` — string building blocks.
- `tests/` — tests of the library.
- `app/` — the command-line program: argument parsing, file and process
  I/O, the `syn` walk that reads a function's syntax into the library's model, and everything that
  computes with floating point (scores, thresholds, renderers).
