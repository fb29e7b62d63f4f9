# nixvulns

Triage of security-report mail kept in a notmuch database. Threads tagged
`suggested:<package>` are grouped by package and listed as a Markdown report,
one collapsible block per thread, with a heading per message up to the first
message that carries MIME parts.

Layout:

- `src/` — the verified library (Verus):
  - `memhelp` — trace labels that follow each object back to the database,
    and the log line that reports one (long traces are cut on a UTF-8
    character boundary);
  - `triage` — reading `suggested:` tags and grouping threads by package;
  - `report` — the report text, with `mailparse` counting a message's parts;
  - `cache` — one message object per notmuch message handle within a query;
  - `cursor` — the decisions of a walk over a notmuch cursor.
- `app/` — the program: the notmuch C bindings (raw pointers, FFI calls,
  resource release), file reading and printing, built on the library.
- `tests/` — tests of the library on concrete values.
