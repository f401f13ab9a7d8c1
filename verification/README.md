# ducia

A small document listing framework: documents with deprecated, deleted and
locked marks, a role-based permission model with inheritance, locale packs
with request-based locale selection, a plugin registry, and two
authentication schemes (sequence codes with in-memory sessions, and users
with hashed passwords and signed tokens).

## Layout

- `src/` — the library, verified with Verus.
  - `text.rs`, `keyed.rs` — string helpers and string-keyed association lists.
  - `doc.rs` — document model, formats, the permission each operation
    needs and the rule for locked documents.
  - `perm.rs` — identities, roles and permission resolution.
  - `i18n.rs` — locale packs and locale selection.
  - `storage.rs` — the document index of the file-system storage.
  - `standalone.rs` — the document index of the standalone server.
  - `session.rs` — sessions, request headers, sequence codes.
  - `auth.rs` — registration, login, and signing and checking tokens
    (`bcrypt`, `jsonwebtoken`).
  - `registry.rs` — plugin registry and application state.
  - `web.rs` — server decisions that touch neither network nor disk.
  - `json.rs`, `clock.rs`, `markdown.rs` — calls into `serde_json`, the
    system clock, `uuid` and `pulldown-cmark`.
- `app/` — the HTTP servers, plugin implementations, file and database I/O.
- `tests/` — tests of the library.
