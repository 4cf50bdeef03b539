# dependable_core

Reads dependency manifests and lockfiles, and decides what a version check says about each
dependency. Text goes in, plain data comes out: no files, no network. The library is
written in Verus, and what each function does is stated in its contract and proved.

- `src/parsers/`: one reader per manifest format. An item that has a place in the text records
  the line and the byte columns of its version. Where the format writes the version plainly,
  without escapes, quoting or parts joined from elsewhere, the version is proved to stand
  there: `parse` ensures it, and each reader's `plain` says which of its items are so written.
- `src/lockfiles/`: locked versions by package, and the resolved packages behind a
  dependency graph.
- `src/graph/`: the dependency graph, its walk, the tree drawn from it, and their laws.
- `src/semver/`: constraint dialects, exact pins, pre-releases, and the classification of a
  dependency against the versions available.
- `src/result.rs`, `src/npmrc.rs`, `src/ecosystem.rs`, `src/manifest.rs`, `src/item.rs`: the
  data the rest speaks of.
- `src/toml.rs`, `src/xml.rs`, `src/pattern.rs`, `src/semver/version.rs`: what is taken from
  `toml_edit`, `roxmltree`, `regex` and `semver`, as plain values. Their contracts are
  trusted; each says what it claims.
- `app/`: serialization, error messages, paths and floating-point scores around the library.
