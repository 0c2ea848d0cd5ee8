# aminos

A set of small Windows command-line tools (`ls`, `e`/`env`, `ss`, `pp`,
`as`/`aspkg`, `as4`, `lw`) whose logic is a Verus-verified library.

## Layout

- `src/` — the verified library. Every function carries a `requires`/`ensures`
  contract over spec models (`Seq`, `Map`, `int`) and is proved by Verus.
  - `text`, `order`, `glob`, `datetime`, `environ`: strings, stable sorting,
    `*` patterns, calendar text, an environment snapshot.
  - `ls`: the directory listing (scan model, `.lnk` and junction reading,
    sorting, tree layout, colours and sizes).
  - `colors`, `tags`, `tag_table`, `ss`, `rules`, `config`: the `e`/`env`
    colour settings, tags and their table, variable and PATH listings, paths.
  - `aspkg`, `as4`: the package catalogue, version order, registry matching,
    install decisions, the rows and table of `as list`.
  - `net`: download backends, their order and fallback, range planning,
    request headers, file checks, progress parsing.
  - `window`: the `lw` window placement and its key/wheel state machine.
  - `sys`: where bundled tools are looked for.
- `app/` — the programs: argument handling, file, registry and network
  I/O, process spawning, threads and terminal output. It hands plain values
  to the library and prints what it returns.
- `tests/` — tests of the library on concrete values.

Calls into outside crates that the logic needs (`ring` for SHA-256,
`unicode-width` for column widths) and a few std functions sit behind small
trusted wrappers whose contracts state what the crates document.
