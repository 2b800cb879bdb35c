# taurigo

The verified core of a Tauri desktop shell that supervises a local backend
process and keeps a SQLite database.

- `src/` (Verus): the backend's `PORT=<port>` handshake (parsing, the loopback
  base URL), the restart policy of its supervisor, the handling of one run's
  events, the shared process handle, the selection and order of migration
  files and the migration session over a pooled connection, and the values
  exchanged with the frontend.
- `app/`: the Tauri program around it: plugins, commands, process spawning,
  the async supervision loop, directory listing and file reading, HTTP, and
  the serde/thiserror copies of the library's types.
- `tests/`: tests of the library on concrete values.
