//! Package-format core: version ordering and manifests.
pub mod version;
pub mod manifest;
pub mod reread;
pub mod version_order;
