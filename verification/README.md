# bcrm_backend

The back end of a small customer-management system: a generic JSON API over an
SQLite database whose tables are described by a whitelist (`schema.json`), so
that one implementation of list, count, read, create, upsert, update, delete,
child rows and CSV export serves every table.

The library (`src/`) is verified with Verus. It holds the logic:

- `schema`: the whitelist of tables, columns and relations (`Registry`, kept
  sorted by name as its type invariant).
- `json`, `text`, `value`: the JSON model, string helpers, and the conversion
  between JSON values and SQL values.
- `query`: the query language — parsing of query strings and JSON bodies
  (`parse`), the `where` expression language (`where_dsl`), the condition tree
  and its SQL (`ast`), the SELECT/COUNT statements (`builder`), and the laws
  that every value of a condition is bound and never written into the SQL text
  (`binding`).
- `crud`: the plans of writes (insert, upsert, update), batch outcomes, child
  rows.
- `routes`: the decisions of the HTTP handlers (keys, patches, deletes, dry
  runs, CSV cells, health data).
- `db`, `report`: where the database file goes, the fallback log, and the
  diagnostics report.
- `cli`, `desktop`: command-line options, and what the desktop shell decides
  about the WebView2 user data folder.

`app/` is the program around it: argument handling, the SQLite connection
(rusqlite), the HTTP server (axum, tokio, tower-http) and the serde copies of
the library's types. It reads `schema.sql` and `schema.json` from the folder
named by `BCRM_RESOURCES`, from `resources/` beside the program, or from
`./resources`.

`tests/` exercises the library on concrete values.
