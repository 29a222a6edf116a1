//! The package builder: build targets, the manifest written into a
//! package, checksum lists, and the layout decisions of a build.
pub mod backend;
pub mod rewrite;
pub mod layout;
pub mod cli;
pub mod index;
