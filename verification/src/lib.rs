//! Dependency graphs of Unreal Engine `.uasset` files.
//!
//! Starting from one root asset, the library resolves every import
//! reference it finds to a concrete file path, classifies each discovered
//! asset by origin, and assembles a dependency tree together with a
//! deduplicated list of the references that could not be resolved.

pub mod asset;
pub mod asset_dirs;
pub mod dependency_tree;
pub mod fsmodel;
pub mod locate;
pub mod pathseg;
pub mod util;
