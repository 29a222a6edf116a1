//! The repository command-line tool: options, paths, locking and the
//! decisions of its install, query and sync commands.
pub mod types;
pub mod lock;
pub mod install;
pub mod system;
pub mod dispatch;
pub mod size;
pub mod query;
pub mod helpers;
pub mod steps;
pub mod remove;
