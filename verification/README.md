# takopack

The verified core of TakoPack, a tool that packages Rust crates and Python
packages as RPM spec files.

- `src/` — the library, verified with Verus:
  - `model.rs`: the cargo-free crate model and its feature graph, with the
    transitive crate dependencies of a feature;
  - `crates.rs`: load options, the projection of what the loader read into
    the crate model (dev-dependencies dropped unless asked for), and the
    backend's failure messages;
  - `version.rs`: the full version text and the compat key of a version;
  - `source.rs`: crate sources, their descriptions, and the preparation of a
    local crate directory or of a single manifest as a sequence of
    file-system questions;
  - `local.rs`, `paths.rs`: local project paths;
  - `pypi.rs`, `digest.rs`: which PyPI release file to download and the
    SHA-256 check of the download;
  - `error.rs`, `cli.rs`, `text.rs`: errors, command decisions, text helpers.
- `app/` — the command-line program: option parsing, network and file-system
  access, unpacking archives.
- `tests/` — tests of the library.
