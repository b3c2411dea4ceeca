# generate_sql

Builds SQL statements (`insert`, `update`, `select`, `delete`) from the fields
of a struct, for a `GenSql` derive.

- `src/scan.rs` reads a struct declaration, token by token, into the struct's
  name and one description per field (name, last identifier of the type,
  whether the type is an `Option`); `src/scan_laws.rs` proves what it makes of
  ordinary declarations.
- `src/sql.rs` builds the four statements from the columns of a struct value;
  `src/sql_laws.rs` proves properties that hold of all of them.
- `app/lib.rs` is the derive: it turns the compiler's tokens into the
  reader's tokens and emits the four methods, which call the builders.
