//! Verified core of a remote file system: the client's caches, open-file
//! bookkeeping and operation logic, and the server's request decisions.

pub mod seq_util;
pub mod text;
pub mod entry;
pub mod lru_store;
pub mod api;
pub mod cache;
pub mod file;
pub mod attr;
pub mod fs;
pub mod server;
pub mod laws;
