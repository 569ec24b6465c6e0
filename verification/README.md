# update_versions_lsp

Version hints for the dependencies that package manifests declare, as a verified library in Verus
and a language server around it.

- `src/` is the library: it reads manifests (`package.json`, `Cargo.toml`, `requirements.txt`,
  `pyproject.toml`, `composer.json`, `Gemfile`, `deno.json`, import maps), classifies constraints
  against the versions that registries list, and decides on hints, code actions, lookups and what is
  cached. Every function there has a contract; the proof functions whose names begin with `law_`
  state what holds across functions.
- `app/` holds what talks to the outside: the protocol, the network, the clock and the editor's
  extension.
- `tests/` runs the library.

A dependency is located by an outline of its document: `src/outline/` tells of every string where it
stands and under which keys, so that equal entries of two sections keep ranges of their own.

Texts are sequences of characters, and positions count the bytes of a line. Versions are ordered by
their numbers, then by the prerelease tag, then by the build tag.

The library believes, without proof, what `src/version.rs` says of the `semver` crate, and what
`src/document.rs` says of `serde_json` and `toml`: that they read a text the same way every time.
