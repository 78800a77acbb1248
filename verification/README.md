# brom

The verified core of brom, a headless CMS framework for SQLite: entity schemas and
their `#[brom(...)]` attributes, the schema diff engine and its SQL, migration
scripts, SQL statements for entity storage, authentication rules and secrets, and
the decisions of the admin interface. Verus checks every function in `src/`; the
public ones carry contracts that it proves. The calls into other crates (Argon2,
SHA-256, hex, chrono, the operating system's randomness) and a few std functions go
through small wrappers whose contracts are trusted, each documented where it stands.

Layout:

- `src/` — the library, one module per concern (`entity`, `attrs`, `derive`,
  `routes`, `schema`, `diff`, `migration`, `sql`, `auth`, `password`,
  `credentials`, `digest`, `admin`, `config`, `error`, `text`, `introspect`,
  `relation`).
- `tests/` — tests of the library on concrete values.
- `app/` — the `brom` command-line tool and the database side: the connection
  pool, schema introspection, the migration runner, the SQLite repository and the
  session and API key stores, built on the library.
