//! A sandboxed filesystem access library.
//!
//! Every operation offered here is restricted to a configured allow-list of
//! root directories.  The heart of the crate is the path resolver in
//! [`security`]: given a caller-supplied path and a resolution intent it
//! produces a canonical path that is proven to lie under one of the sandbox
//! roots, or a typed rejection.  Around it stand bounded directory-tree
//! rendering, bounded glob search, and the pure text-shaping helpers that the
//! filesystem tools use.

pub mod config;
pub mod edit;
pub mod error;
pub mod fsops;
pub mod info;
pub mod list;
pub mod order;
pub mod paths;
pub mod read;
pub mod search;
pub mod security;
pub mod tree;
pub mod util;

pub use config::Config;
pub use error::FsError;
pub use security::SecurityContext;
