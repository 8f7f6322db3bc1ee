//! An in-memory file system with a Unix-style permission model, and a local
//! port allocator.

pub mod perms;
pub mod errors;
pub mod path;
pub mod table;
pub mod store;
pub mod fs;
pub mod local_ports;
