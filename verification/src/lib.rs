//! Verified core of a desktop shell that supervises a local backend process:
//! the handshake protocol the backend prints on startup, the restart policy of
//! its supervisor, the per-run event handling, the shared process handle, the
//! selection and bookkeeping of database migrations, and the small request and
//! response values exchanged with the frontend.

pub mod text;
pub mod handshake;
pub mod supervisor;
pub mod migrations;
pub mod db;
pub mod run;
pub mod state;
pub mod services;

