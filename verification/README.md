# kc_core

The core of a local knowledge vault: documents are stored by content hash,
split into chunks, tied together by a lineage graph, guarded by locks and
policies, exported as deterministic bundles and synced between devices.

## Layout

- `src/` is the library, verified with Verus. Each module states what its
  functions return over spec functions and views; the laws of the library
  (canonical JSON text identifies values up to key order, what the object store writes it reads
  back, a lease holds its lock for its term, deny policies win, escrow reads
  find what was written, and others) are public proof functions named
  `law_*`.
- `app/` is ordinary Rust around the library: the SQLite database, files,
  zip packaging, S3 and the service entry points. It hands the library plain
  values and acts on what comes back.
- `tests/` runs the library on concrete values.

The outside crates the library calls (BLAKE3, XChaCha20-Poly1305, Argon2id,
regex, uuid) are reached through a few small wrappers whose contracts are
trusted; each says in its doc comment what it claims of the call.
