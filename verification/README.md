# gx

The core of the GX scripting runtime, written in Verus: every function in
`src/` carries a contract and is verified.

- `src/lexer.rs` — the tokenizer, specified as a function from source text
  to tokens (or the first error), with the positions of the tokens.
- `src/value.rs` — runtime values and the insertion-ordered object map.
- `src/interpreter/` — control-flow signals and variable environments,
  the value-shaping builtins and methods (`builtins.rs`, `indexing.rs`,
  with reading and writing `value[key]`), `pick`, `omit`, `has`,
  `contains`, `group_by`, `join` and `index_of` (`selection.rs`), the
  path builtins (`paths.rs`), `schema_validate` (`schema.rs`), the
  swaps of `shuffle` (`shuffle.rs`), the statement runner's decisions —
  import cycles, `try`/`catch`, the assertion tally, loop limits
  (`statements.rs`) — the database
  connection pool and nested transactions (`db.rs`), the decisions of
  `retry` (`retry.rs`), and text, path, cron, data-format and `.env`
  helpers (`util.rs`).
- `src/lsp.rs` — the language server's pure parts: builtin hover docs, the
  word under the cursor, header lines and routing; `src/framing.rs` —
  `Content-Length` framing on bytes, written and read back.
- `src/text.rs` — character classes, decimal rendering, lines and trimming
  shared by the rest.

`app/` holds what talks to the outside world (stdio framing, the process
environment, the clock, sleeping, floating-point conversions) and calls
the library for every decision. `tests/` exercises the library on
concrete values.
