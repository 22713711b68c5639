//! A verified shell emulator over a read-only virtual filesystem.
//!
//! The virtual filesystem (VFS) is a flat collection of absolute path
//! strings. A fixed family of commands (`ls`, `cd`, `find`, `chmod`,
//! `exit`, `clear`) is interpreted against it, and a session tracks the
//! current working directory and an append-only audit log.

pub mod commands;
pub mod session;
pub mod strutil;
