//! An in-memory file system: the state behind a FUSE mount, its operations,
//! and the laws that relate them.
pub mod types;
pub mod names;
pub mod inode;
pub mod file;
pub mod clock;
pub mod spec;
pub mod fs;
pub mod laws;
