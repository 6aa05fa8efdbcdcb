//! Installs managed by asdf: `<root>/installs/python/<version>/bin`.
use vstd::prelude::*;
use super::{expand_root, expanded_root, join, joined, opt_str_view, var_views, DirEntry};

verus! {

/// Finds interpreters under an asdf data directory.
#[derive(Clone, Debug, PartialEq, Eq)]
pub struct AsdfProvider {
    pub root: String,
}

/// The environment variable that names the asdf data directory.
pub const ASDF_DATA_DIR_VAR: &'static str = "ASDF_DATA_DIR";

impl AsdfProvider {
    pub fn new(root: String) -> (r: Self)
        ensures
            r.root@ == root@,
    {
        AsdfProvider { root }
    }

    /// The root: the value of `ASDF_DATA_DIR` when set (`var`), else
    /// `$HOME/.asdf`, with variables expanded from `vars`.
    pub fn root_from(var: Option<String>, vars: &Vec<(String, String)>) -> (r: String)
        ensures
            r@ == expanded_root(opt_str_view(var), "$HOME/.asdf"@, var_views(vars@)),
    {
        expand_root(var, "$HOME/.asdf", vars)
    }

    /// The provider for `root`; none when the root does not exist.
    pub fn create(root: String, exists: bool) -> (r: Option<Self>)
        ensures
            match r {
                Some(p) => exists && p.root@ == root@,
                None => !exists,
            },
    {
        if exists {
            Some(Self::new(root))
        } else {
            None
        }
    }

    /// The directory that holds one directory per installed version.
    pub fn versions_dir(&self) -> (r: String)
        ensures
            r@ == joined(self.root@, "installs/python"@),
    {
        join(self.root.as_str(), "installs/python")
    }

    /// The directory to scan for an entry of the versions directory: its
    /// `bin`, when the entry is a directory.
    pub fn bin_dir(entry: &DirEntry) -> (r: Option<String>)
        ensures
            match r {
                Some(b) => entry.meta matches Some(m) && m.is_dir && b@ == joined(entry.path@, "bin"@),
                None => !(entry.meta matches Some(m) && m.is_dir),
            },
    {
        match entry.meta {
            Some(m) => if m.is_dir {
                Some(join(entry.path.as_str(), "bin"))
            } else {
                None
            },
            None => None,
        }
    }
}

} // verus!
