//! Toolchains managed by rye: `<root>/py/<toolchain>/install/bin/python3`.
use vstd::prelude::*;
use super::{join, joined, DirEntry};
use crate::python::{PythonVersion, PythonVersionView};

verus! {

/// Finds interpreters under a rye root.
#[derive(Clone, Debug, PartialEq, Eq)]
pub struct RyeProvider {
    pub root: String,
}

/// The environment variable that names the rye root.
pub const RYE_ROOT_VAR: &'static str = "RYE_ROOT";

impl RyeProvider {
    pub fn new(root: String) -> (r: Self)
        ensures
            r.root@ == root@,
    {
        RyeProvider { root }
    }

    /// The root: the value of `RYE_ROOT` (`var`), else `.rye` under the
    /// home directory; none when neither is known.
    pub fn root_from(var: Option<String>, home: Option<String>) -> (r: Option<String>)
        ensures
            match (var, home) {
                (Some(v), _) => r matches Some(x) && x@ == v@,
                (None, Some(h)) => r matches Some(x) && x@ == joined(h@, ".rye"@),
                (None, None) => r is None,
            },
    {
        match var {
            Some(v) => Some(v),
            None => match home {
                Some(h) => Some(join(h.as_str(), ".rye")),
                None => None,
            },
        }
    }

    /// The provider for `root`; none when the root does not exist.
    pub fn create(root: String, exists: bool) -> (r: Option<Self>)
        ensures
            match r {
                Some(p) => exists && p.root@ == root@,
                None => !exists,
            },
    {
        if exists {
            Some(Self::new(root))
        } else {
            None
        }
    }

    /// The directory that holds one directory per toolchain.
    pub fn py_dir(&self) -> (r: String)
        ensures
            r@ == joined(self.root@, "py"@),
    {
        join(self.root.as_str(), "py")
    }

    /// The executable to look for in an entry of the toolchain directory;
    /// none when the entry is a symlink, a second name for another
    /// toolchain.
    pub fn install_executable(entry: &DirEntry) -> (r: Option<String>)
        ensures
            match r {
                Some(x) => !(entry.meta matches Some(m) && m.is_symlink) && x@ == joined(
                    entry.path@,
                    "install/bin/python3"@,
                ),
                None => entry.meta matches Some(m) && m.is_symlink,
            },
    {
        match entry.meta {
            Some(m) => if m.is_symlink {
                None
            } else {
                Some(join(entry.path.as_str(), "install/bin/python3"))
            },
            None => Some(join(entry.path.as_str(), "install/bin/python3")),
        }
    }

    /// The candidate for a toolchain executable that exists: the path is
    /// the interpreter itself.
    pub fn candidate(executable: String) -> (r: PythonVersion)
        ensures
            r@ == (PythonVersionView {
                executable: executable@,
                version: None,
                interpreter: Some(executable@),
                architecture: None,
                keep_symlink: false,
            }),
    {
        let interpreter = executable.clone();
        PythonVersion::new(executable).with_interpreter(interpreter)
    }
}

} // verus!
