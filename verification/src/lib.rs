//! A local, single-user encrypted key/value store: key-material lifecycle,
//! an authenticated-encryption blob codec, an encrypted store contract with
//! an in-memory implementation, and a read-modify-write record repository
//! layered on top.

pub mod agent;
pub mod cli;
pub mod b64;
pub mod config;
pub mod sync;
pub mod codec;
pub mod keys;
pub mod repo;
pub mod store;
pub mod taskdoc;
pub mod tasks;
pub mod tui;
