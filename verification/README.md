# MiniKV

A small key-value store. Its state is the pairs of a data file (`.minikv.data`,
one `"key" "value"` line per pair) with the operations of a log
(`.minikv.log`, lines `set "key" "value"` and `set "key"`) applied in order.
`snapshot` rewrites the data file from the current state and empties the log.

Layout:

- `src/` — the verified library (Verus):
  - `parser.rs`: splitting a line into arguments (quotes and `\` escapes) and
    serializing a text; the round-trip law.
  - `storage.rs`: cutting a file into lines, validating and applying data and
    log lines, rebuilding the state from what was read of both files.
  - `diccionario.rs`: the in-memory map (a list of pairs with unique keys).
  - `comandos.rs`: command names, building operations from words, the log
    lines of `set`, and `get`/`length`/`snapshot` over the rebuilt state.
  - `comunicacion.rs`: the server's per-request decisions, reading a client
    line, formatting a response.
  - `errores.rs`: error kinds and their messages.
  - `leyes.rs`: laws that span several functions (a write is read back, a
    snapshot keeps the state, the server's memory matches its files, ...).
  - `texto.rs`: the few `String`/`str`/`char` operations of std that the
    library trusts.
- `app/` — the programs: the local command-line store, the TCP server and
  client; all file and network I/O lives here.
- `tests/` — tests of the library.
