//! Directories on the search path.
use vstd::prelude::*;

verus! {

/// Finds interpreters in the directories of the search path. What it finds
/// may be wrapper scripts, so their interpreters are left to be probed.
#[derive(Clone, Debug, PartialEq, Eq)]
pub struct PathProvider {
    pub paths: Vec<String>,
}

impl PathProvider {
    /// The provider for the search path split into `paths`.
    pub fn new(paths: Vec<String>) -> (r: Self)
        ensures
            r.paths@ == paths@,
    {
        PathProvider { paths }
    }

    /// The directories to scan, in search order.
    pub fn search_dirs(&self) -> (r: &Vec<String>)
        ensures
            r@ == self.paths@,
    {
        &self.paths
    }
}

} // verus!
