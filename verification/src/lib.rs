//! Content-addressed caching of installed dependency trees for JavaScript
//! projects: lockfile detection, project fingerprinting, cache-key
//! derivation, the on-disk store's swap planning, and the run orchestration
//! that ties them together.
pub mod cache;
pub mod encode;
pub mod errors;
pub mod glob;
pub mod hash;
pub mod lockfile;
pub mod option;
pub mod package_json;
pub mod package_manager;
pub mod path;
pub mod project;
pub mod runner;
pub mod smap;
pub mod strutil;
pub mod workspaces;
