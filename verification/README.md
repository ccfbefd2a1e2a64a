# lex_core

Core text logic of the Lex document format, written in Verus: every
function in `src/` carries a contract over mathematical models (sequences
of characters, byte offsets, token views) and is proved against it.

Layout of `src/`:

- `escape` — inline and structural escaping, escape-aware splitting and
  searching.
- `lexing` — line classification, sequence markers, line grouping, and the
  token transformations (document start, line-token grouping, semantic
  indentation).
- `extraction` — plain data from tokens: parameters, paragraphs, verbatim
  blocks (wall stripping, groups), tables (pipe rows, merges, footnotes),
  dedenting of cell text.
- `inlines` — references (classification, citations, page ranges) and math.
- `includes` — include configuration, load and include errors with their
  messages, loaders and their admission rules, lexical path resolution
  under a root, and the mapping of handler failures back to include errors.
- `builtins` — the canonical labels, `doc.*` rendering, pipe tables, the
  verbatim built-ins' IR-build and format hooks, and the `lex.include`
  handler's error protocol.
- `migrate` — legacy label detection and rewriting.
- `mojibake`, `location`, `token`, `text` — supporting models.

`app/` holds the filesystem side of the include loader.
