//! Include resolution support: the resolution configuration, the errors of
//! loading and resolving, the pluggable loaders, and lexical path resolution
//! of include targets.
use vstd::prelude::*;

pub mod errors;
pub mod loaders;
pub mod paths;
pub mod resolver;
pub mod wire;

pub use errors::{IncludeError, LoadError};
pub use loaders::{FsLoader, LoadedFile, Loader, MemoryLoader};
pub use paths::resolve_file_reference;





verus! {

/// `std::path::PathBuf`, carried through the library as an opaque value.
#[verifier::external_type_specification]
#[verifier::external_body]
pub struct ExPathBuf(std::path::PathBuf);

/// `std::path::Path`, carried through the library as an opaque value.
#[verifier::external_type_specification]
#[verifier::external_body]
pub struct ExPath(std::path::Path);

/// `PathBuf::clone`: the copy is the same path.
pub assume_specification[<std::path::PathBuf as Clone>::clone](p: &std::path::PathBuf) -> (r: std::path::PathBuf)
    ensures
        r == *p,
;

/// `PathBuf::as_path`: the borrowed form of an owned path, whose owned copy
/// is that same path.
pub assume_specification[std::path::PathBuf::as_path](p: &std::path::PathBuf) -> (r: &std::path::Path)
    ensures
        loaders::path_of(r) == *p,
;

/// Configuration for the include resolution pass.
#[derive(Debug, Clone)]
pub struct ResolveConfig {
    /// Directory all include paths resolve under (absolute).
    pub root: std::path::PathBuf,
    /// Maximum include depth.
    pub max_depth: usize,
    /// Maximum total number of includes resolved across the whole tree.
    pub max_total_includes: usize,
}

impl ResolveConfig {
    /// Default maximum include depth.
    pub const DEFAULT_MAX_DEPTH: usize = 8;

    /// Default maximum total include count.
    pub const DEFAULT_MAX_TOTAL_INCLUDES: usize = 1000;

    /// A config with the given root and the default limits.
    pub fn with_root(root: std::path::PathBuf) -> (c: Self)
        ensures
            c.root == root,
            c.max_depth == Self::DEFAULT_MAX_DEPTH,
            c.max_total_includes == Self::DEFAULT_MAX_TOTAL_INCLUDES,
    {
        ResolveConfig {
            root,
            max_depth: Self::DEFAULT_MAX_DEPTH,
            max_total_includes: Self::DEFAULT_MAX_TOTAL_INCLUDES,
        }
    }
}

/// Hard cap on resolution depth, applied even when the configured depth is higher.
pub const KERNEL_DEPTH_BACKSTOP: usize = 32;

} // verus!
