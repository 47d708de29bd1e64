//! Deploys a declarative set of source-to-target mappings as filesystem
//! symlinks, protects selected source files with passphrase-based
//! encryption, and keeps a VCS ignore file in sync with which paths are
//! encrypted.
//!
//! The filesystem is modelled as data: callers snapshot the relevant parts
//! of the tree and hand the snapshot to the planner, which computes an
//! ordered list of operations without touching the disk.

pub mod cli;
pub mod config;
pub mod crypto;
pub mod fsmodel;
pub mod gitignore;
pub mod ops;
pub mod paths;
