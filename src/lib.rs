//! Keeps a home directory and named groups of configuration files in step
//! through symlinks, and moves files between the two trees.
//!
//! The library decides; the caller probes the filesystem and carries out
//! the plans that come back.
pub mod discard;
pub mod import;
pub mod link;
pub mod moves;
pub mod path;
pub mod path_set;
pub mod probe;
pub mod target;
pub mod unlink;
pub mod utils;
