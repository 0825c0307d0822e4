# blast_radius_engine

A code-dependency engine: it parses the files of a workspace with tree-sitter,
records their definitions, imports and references in an index, resolves those
references into relations between symbols and between files, and answers what a
change to a symbol or a file reaches (its "blast radius"). The library is
written in Verus: its own functions carry contracts that Verus proves. The
calls into tree-sitter, regex, blake3 and a few std functions stand behind
small trusted wrappers (`#[verifier::external_body]`), whose contracts Verus
believes without proof; each says in its doc comment what it claims.

Layout:

- `src/text.rs`, `src/lemmas.rs`: string operations with their specifications,
  and general lemmas.
- `src/syntax.rs`, `src/analysis/`: parsing a file and extracting its
  definitions, imports, literals and boundary, per language.
- `src/schema.rs`, `src/models.rs`: the index and the analysis results.
- `src/indexer/`: keeping the index up to date (recording and removing files,
  with the consistency they keep), and the resolution passes
  (`resolution.rs` chains them), with laws in `laws.rs`.
- `src/analyzer.rs`: call chains, related symbols and source context.
- `src/inference/`, `src/manifest.rs`, `src/settings.rs`: framework route
  inference, package manifests, user settings.
- `app/main.rs`: the command-line program (directory walking, file reading
  and path canonicalisation); `app/manifests.rs` reads manifests and
  decodes their JSON and TOML; `app/settings_store.rs` keeps the settings file.
- `tests/`: the tests, run against the compiled library.
