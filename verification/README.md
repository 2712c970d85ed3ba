# tlm_server

A telemetry (TLM) packet server. The library in `src/` is verified with Verus;
the program in `app/` is the HTTP front end (actix-web), multipart reading and
SQLite access (rusqlite) around it.

- `src/database/connection.rs`: the bounded connection pool, modelled as
  `PoolView` with `lease_outcome`, `return_outcome` and `drop_outcome`; the
  pool's laws are the `lemma_*` proof functions at the end of the file.
- `src/database/context.rs`: database paths and kinds, and `DbContext`, which
  turns requests into `DbRequest`s (a leased connection and a statement) that
  the program carries out.
- `src/database/migrations.rs`: the schema, rendered to SQL by barrel.
- `src/database/single_value.rs`: statements of the single-value store.
- `src/packet.rs`: taking an upload apart, the insert statement, and the
  record to store.
- `src/errors.rs`, `src/handlers/`, `src/config.rs`, `src/clock.rs`: error
  texts, handler payloads, configuration, and the system clock.
