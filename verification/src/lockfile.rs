//! The dependencies that a lockfile lists.
use vstd::prelude::*;

verus! {

/// A package entry of a `Cargo.lock` file.
#[derive(Debug, Clone)]
pub struct Dependency {
    pub name: String,
    pub version: String,
    /// Where the package comes from; absent for path dependencies and the
    /// root package.
    pub source: Option<String>,
}

impl Dependency {
    /// Whether the package has a source to look it up by: path
    /// dependencies and the root package have none and are skipped.
    pub fn has_source(&self) -> (r: bool)
        ensures
            r == self.source is Some,
    {
        self.source.is_some()
    }
}

} // verus!
