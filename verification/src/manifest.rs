//! The JSON manifest that describes the runfiles dependencies to put into a virtual
//! environment.
use vstd::prelude::*;

verus! {

/// How a manifest entry is put into `site-packages`.
#[derive(Clone, Copy, Debug, PartialEq, Eq, Structural)]
pub enum BazelPopulationStrategy {
    /// A relative path line in `_bazel.pth`.
    Pth,
    /// Relative symlinks into the runfiles tree.
    Symlink,
    /// Copies of the files.
    Copy,
}

/// One dependency of the manifest.
pub struct BazelSiteEntry {
    /// The Bazel repository, as named in the runfiles tree.
    pub repo: String,
    /// The import root inside that repository.
    pub path: String,
    /// How the entry is put into `site-packages`.
    pub strategy: BazelPopulationStrategy,
}

/// The manifest given with `--pth-manifest`.
pub struct BazelPthManifest {
    /// The pip repository or hub.
    pub repository: String,
    /// The Python version (informational).
    pub python_version: String,
    /// The dependencies.
    pub entries: Vec<BazelSiteEntry>,
}

} // verus!
