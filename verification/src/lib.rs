//! An in-memory filesystem engine with POSIX permission semantics.
//!
//! The crate holds the inode-indexed tree of directories and regular files,
//! the permission kernel (access checks, SUID/SGID rules), and the request
//! dispatcher that maps each kernel-protocol operation to a mutation or query
//! of that state. Transport, mounting and host lookups (group membership,
//! wall-clock time) live outside the engine and hand it plain values.

pub mod attr;
pub mod perm;
pub mod tree;
pub mod tree_fs;
pub mod mem_fs;
pub mod laws;
