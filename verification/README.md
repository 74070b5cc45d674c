# remote_file_system

A remote file system: a FUSE client that shows a directory tree kept by an
HTTP server, with an LRU cache of file metadata and a TTL cache of directory
listings, and the server that stores the files under one root directory.

Layout:

- `src/` is the verified library (Verus). The client's operations are split
  into steps that decide, from the state and what the server answered, how
  the state changes and what request comes next (`fs.rs`); the caches
  (`cache.rs`, `lru_store.rs`), open-file buffers (`file.rs`), attributes
  (`attr.rs`), request texts and status handling (`api.rs`), and the
  server's decisions: byte ranges, path safety, rename targets (`server.rs`).
  `laws.rs` states properties that span several operations.
- `app/` is the program around it: the FUSE binding, the HTTP client, the
  HTTP server and the command line. Run `remote_file_system serve` for the
  server, or with `--mount-point` for the client.
- `tests/` exercises the library on concrete values.
