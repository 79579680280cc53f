# oxur

Oxur represents the Rust AST as S-expressions and comes with tooling for design
documents. This crate is the library, written in Verus: each public function carries
a `requires`/`ensures` contract, and Verus proves it.

## Layout

- `src/sexp/`: the S-expression lexer, parser and printer, plus the proofs that
  printed text parses back to the same expression.
- `src/ast/`, `src/builder/`: the AST types and building them from S-expressions.
- `src/design/`: design documents. This covers states and state directories, file
  names and slugs, frontmatter, markdown normalization, the index and keeping it in
  sync, the record of document states and scans, validation, statistics and search.
- `src/table.rs`: table themes and the styling plan they produce.
- `src/text.rs`, `src/textops.rs`, `src/pattern.rs`, `src/paths.rs`: text, regular
  expressions and paths. The calls into std, `regex`, `sha2` and
  `unicode-normalization` sit behind small trusted wrappers, and each one's doc
  comment says what its contract claims.
- `tests/`: the tests, run against the compiled library.
- `app/`: the command-line program. It handles files, git, the terminal, YAML, TOML
  and JSON, and calls the library for every decision.
