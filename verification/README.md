# syntaqlite

Semantic validation of SQLite SQL against a layered schema catalog, written
in Verus: every function of the library in `src/` carries a contract and is
proved against it.

Statements reach the library already parsed, as trees of semantic roles
(`tree::Node`, and `ast::Stmt` for the validation walker). From them the
library

- keeps a catalog of four layers (dialect, database, connection, document)
  that DDL statements add to; temporary tables and views always go to the
  connection layer (`catalog`, `ddl`);
- walks each statement with a scope of FROM sources, resolving table, column
  and function references and reporting what does not resolve, with "did you
  mean?" suggestions (`pass`, `analyzer`, `fuzzy`, `functions`);
- records resolutions and definition sites for go-to-definition and
  find-references (`model`);
- computes the column lineage of the last query of a document: where each
  result column comes from, and which relations and tables it reads
  (`resolver`, `lineage`);
- validates statements against a session schema with a simpler walker
  (`validation`, `accumulate`, `walker`);
- prepares rustc-style reports of diagnostics (`render`) and the decisions
  completion makes on a token stream (`completion`).

Laws that hold across calls are stated as public proof functions named
`law_*` in the module they concern.

Layout:

- `src/` — the verified library;
- `tests/` — tests that run the compiled library;
- `app/` — JSON schema input, JSON diagnostic output and the writing of
  rendered reports, around the library.
