//! Client for an ament resource index: given an ordered list of filesystem
//! prefixes, it locates resources registered under
//! `<prefix>/share/ament_index/resource_index/<resource_type>/<resource_name>`
//! and answers which prefixes contain a resource, in which prefix a resource
//! is found first, and where a package's `share` directory lives.
use vstd::prelude::*;

pub mod ament;
pub mod packages;
pub mod resources;
pub mod search_paths;

pub use ament::Ament;

verus! {

/// Name of the environment variable that conventionally holds the
/// colon-separated list of ament resource index prefixes.
pub const AMENT_PREFIX_PATH_ENV_VAR: &'static str = "AMENT_PREFIX_PATH";

} // verus!
