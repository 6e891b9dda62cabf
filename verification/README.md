# tax_engine

A tax engine for Nigerian bank statements, verified with Verus.

A statement PDF is checked (loadable, locked or not), its pages' text is turned into
statement rows (date, narration, signed amount, other party), each row is categorised
(multi-word patterns, then keywords, after spelling correction against the keyword
dictionary; then refined by the kind of payer and the direction of the money), and the
calculator reports personal income tax or company income tax and development levy for
the statement and the year to date. Transactions the rules cannot place can be handed to
an AI model, whose validated answer is also taught back to the lexicon.

Layout:

- `src/` — the verified library.
  - `money.rs` — decimal amounts; arithmetic is delegated to `rust_decimal`.
  - `text.rs` — character-level text handling shared by the parsers.
  - `domain/` — entities, error types, the categoriser, the tax calculator and the
    deterministic parts of the AI classifier.
  - `infrastructure/` — statement reconstruction from page text, PDF checks, the
    lexicon table's logic, and token/pool configuration.
  - `application/` — the AI fallback decisions, statement ingestion and login decisions.
- `tests/` — tests of the library's public functions.
- `app/` — the service around it: HTTP handlers, the Gemini client, the Postgres stores,
  JWT signing, reading the lexicon file, and extracting the text of PDF pages (where a
  panic of the extractor on a malformed file is caught).
