//! Core of the command-line tool: version ordering and selectors.
pub mod version;
pub mod selector;
pub mod repo;
pub mod io;
