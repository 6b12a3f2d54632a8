//! A release engine: semantic-version resolution, versioned-file adapters,
//! changelog building, and a dry-run-aware workflow step pipeline.
pub mod changelog;
pub mod json;
pub mod package_json;
pub mod semver;
pub mod step;
