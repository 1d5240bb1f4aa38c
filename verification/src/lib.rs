//! Resolution and installation engine of a package installer.

pub mod archive;
pub mod cache;
pub mod comparators;
pub mod error;
pub mod foo;
pub mod model;
pub mod paths;
pub mod range;
pub mod registry;
pub mod resolver;
pub mod semver;
pub mod text;
pub mod walker;
