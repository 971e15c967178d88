# densleaf

The front end of the Densleaf language (`.dl` files: models, controllers,
middleware, migrations, policies, events, listeners, notifications and mails),
written in Verus: every function states what it computes and is proved to do
so, without panicking.

## Layout

- `src/token.rs` — positions, spans and tokens.
- `src/text.rs` — character and string helpers (decimal digits, UTF-8 widths,
  Unicode whitespace).
- `src/diagnostic.rs` — diagnostics and their source-aware rendering.
- `src/lexer.rs` — the lexical grammar as spec functions, and `lex`, proved to
  produce exactly its tokens and diagnostics.
- `src/ast.rs` — the syntax tree and its views.
- `src/parser.rs` — the grammar with its error recovery as spec functions, and
  the recursive-descent `parse`, proved to follow it.
- `src/semantic.rs` — what the semantic checks report, and `analyze`, proved to
  report exactly that.
- `src/error_spans.rs` — every syntax and semantic error points at a token.
- `src/pipeline.rs` — `check`: lexing, parsing and analysis, stopping at the
  first stage that reports anything.
- `app/main.rs` — the `densleaf check|build <file>` command.
- `tests/` — scenario tests for each stage.
