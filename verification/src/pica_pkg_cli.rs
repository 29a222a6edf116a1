//! The package-format command-line tool: options, paths, package managers
//! and the decisions of its install, sync and remove commands.
pub mod types;
pub mod pkgmgr;
pub mod feed;
pub mod candidate;
pub mod install;
pub mod system;
pub mod helpers;
pub mod pipeline;
pub mod deploy;
pub mod precheck;
pub mod sync;
pub mod lifecycle;
pub mod state;
pub mod dispatch;
pub mod route;
