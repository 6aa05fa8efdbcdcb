//! Installs listed in the Windows registry under `Software\Python`. The
//! caller reads the keys; this decides which sources to read and what each
//! company/tag entry yields.
use vstd::prelude::*;
use super::{opt_str_view, python_views};
use crate::python::{PythonVersion, PythonVersionView};
use crate::version::{version_of_output, Version};

verus! {

/// The registry hive that a source reads.
#[derive(Clone, Copy, Debug, PartialEq, Eq, Structural)]
pub enum RegistryRoot {
    CurrentUser,
    LocalMachine,
}

/// The registry view that a source reads through.
#[derive(Clone, Copy, Debug, PartialEq, Eq, Structural)]
pub enum RegistryAccess {
    /// The caller's own view.
    Native,
    /// The 64-bit view.
    Wow64Key64,
    /// The 32-bit view.
    Wow64Key32,
}

/// Where to read installs, and the architecture they have when their
/// entry does not say.
#[derive(Clone, Debug, PartialEq, Eq)]
pub struct PythonRegSource {
    pub root: RegistryRoot,
    pub access: RegistryAccess,
    pub arch: Option<String>,
}

/// The values read from one company/tag key; each is absent when it could
/// not be read. `executable_path` is the `ExecutablePath` value of the
/// `InstallPath` subkey.
#[derive(Clone, Debug, PartialEq, Eq)]
pub struct RegistryEntry {
    pub version: Option<String>,
    pub executable_path: Option<String>,
    pub sys_architecture: Option<String>,
}

fn source(root: RegistryRoot, access: RegistryAccess, arch: Option<&str>) -> (r: PythonRegSource)
    ensures
        r.root == root,
        r.access == access,
        opt_str_view(r.arch) == match arch {
            Some(a) => Some(a@),
            None => None::<Seq<char>>,
        },
{
    PythonRegSource {
        root,
        access,
        arch: match arch {
            Some(a) => Some(String::from_str(a)),
            None => None,
        },
    }
}

/// The sources for a build of the given pointer width: on 64-bit the user
/// hive, then the machine hive through its 64-bit and its 32-bit view; on
/// 32-bit the user and the machine hive, both 32-bit.
pub open spec fn sources_for(pointer_width_64: bool, s: Seq<PythonRegSource>) -> bool {
    &&& pointer_width_64 ==> s.len() == 3 && s[0].root == RegistryRoot::CurrentUser && s[0].access
            == RegistryAccess::Native && s[0].arch is None && s[1].root
            == RegistryRoot::LocalMachine && s[1].access == RegistryAccess::Wow64Key64
            && opt_str_view(s[1].arch) == Some("64bit"@) && s[2].root
            == RegistryRoot::LocalMachine && s[2].access == RegistryAccess::Wow64Key32
            && opt_str_view(s[2].arch) == Some("32bit"@)
    &&& !pointer_width_64 ==> s.len() == 2 && s[0].root == RegistryRoot::CurrentUser
            && s[0].access == RegistryAccess::Native && opt_str_view(s[0].arch) == Some(
            "32bit"@,
        ) && s[1].root == RegistryRoot::LocalMachine && s[1].access
            == RegistryAccess::Wow64Key64 && opt_str_view(s[1].arch) == Some("32bit"@)
}

/// The sources to read for a build of the given pointer width (see
/// [`sources_for`]).
pub fn get_sources(pointer_width_64: bool) -> (r: Vec<PythonRegSource>)
    ensures
        sources_for(pointer_width_64, r@),
{
    let mut v: Vec<PythonRegSource> = Vec::new();
    if pointer_width_64 {
        v.push(source(RegistryRoot::CurrentUser, RegistryAccess::Native, None));
        v.push(source(RegistryRoot::LocalMachine, RegistryAccess::Wow64Key64, Some("64bit")));
        v.push(source(RegistryRoot::LocalMachine, RegistryAccess::Wow64Key32, Some("32bit")));
    } else {
        v.push(source(RegistryRoot::CurrentUser, RegistryAccess::Native, Some("32bit")));
        v.push(source(RegistryRoot::LocalMachine, RegistryAccess::Wow64Key64, Some("32bit")));
    }
    v
}

/// What one registry entry read through `src` yields: nothing without an
/// executable path; else a candidate there, with the entry's architecture
/// or else the source's, and the entry's version when it reads as one.
pub open spec fn registry_python(
    src_arch: Option<Seq<char>>,
    version: Option<Seq<char>>,
    executable: Option<Seq<char>>,
    sys_arch: Option<Seq<char>>,
) -> Option<PythonVersionView> {
    match executable {
        None => None,
        Some(x) => Some(
            PythonVersionView {
                executable: x,
                version: match version {
                    Some(v) => version_of_output(v),
                    None => None,
                },
                interpreter: None,
                architecture: match sys_arch {
                    Some(a) => Some(a),
                    None => src_arch,
                },
                keep_symlink: false,
            },
        ),
    }
}

pub open spec fn entry_python(src: PythonRegSource, e: RegistryEntry) -> Option<PythonVersionView> {
    registry_python(
        opt_str_view(src.arch),
        opt_str_view(e.version),
        opt_str_view(e.executable_path),
        opt_str_view(e.sys_architecture),
    )
}

/// The candidates of the entries `es` read through `src`, in order.
pub open spec fn source_pythons(src: PythonRegSource, es: Seq<RegistryEntry>) -> Seq<
    PythonVersionView,
>
    decreases es.len(),
{
    if es.len() == 0 {
        Seq::empty()
    } else {
        let rest = source_pythons(src, es.drop_last());
        match entry_python(src, es.last()) {
            Some(p) => rest.push(p),
            None => rest,
        }
    }
}

/// The candidates of the first `n` sources, each with its listing.
pub open spec fn sources_pythons(
    srcs: Seq<PythonRegSource>,
    listings: Seq<Vec<RegistryEntry>>,
    n: int,
) -> Seq<PythonVersionView>
    decreases n,
{
    if n <= 0 {
        Seq::empty()
    } else {
        sources_pythons(srcs, listings, n - 1) + source_pythons(srcs[n - 1], listings[n - 1]@)
    }
}

impl PythonRegSource {
    /// The candidate that one entry yields, if any.
    pub fn get_python(&self, entry: &RegistryEntry) -> (r: Option<PythonVersion>)
        ensures
            match r {
                Some(p) => entry_python(*self, *entry) == Some(p@),
                None => entry_python(*self, *entry) is None,
            },
    {
        let path = match &entry.executable_path {
            Some(p) => p.clone(),
            None => return None,
        };
        let mut py = PythonVersion::new(path);
        match &entry.sys_architecture {
            Some(a) => py = py.with_architecture(a.clone()),
            None => match &self.arch {
                Some(a) => py = py.with_architecture(a.clone()),
                None => {},
            },
        }
        match &entry.version {
            Some(v) => match Version::from_output(v.as_str()) {
                Some(ver) => py = py.with_version(ver),
                None => {},
            },
            None => {},
        }
        Some(py)
    }

    /// The candidates that the entries of this source yield, in order.
    pub fn find_all(&self, entries: &Vec<RegistryEntry>) -> (r: Vec<PythonVersion>)
        ensures
            python_views(r@) == source_pythons(*self, entries@),
    {
        let mut out: Vec<PythonVersion> = Vec::new();
        let mut i: usize = 0;
        assert(python_views(out@) =~= Seq::<PythonVersionView>::empty());
        assert(entries@.take(0) =~= Seq::<RegistryEntry>::empty());
        while i < entries.len()
            invariant
                i <= entries@.len(),
                python_views(out@) == source_pythons(*self, entries@.take(i as int)),
            decreases entries@.len() - i,
        {
            let ghost old_out = python_views(out@);
            assert(entries@.take(i + 1).drop_last() =~= entries@.take(i as int));
            match self.get_python(&entries[i]) {
                Some(p) => {
                    out.push(p);
                    assert(python_views(out@) =~= old_out.push(out@.last()@));
                },
                None => {},
            }
            i = i + 1;
        }
        assert(entries@.take(i as int) =~= entries@);
        out
    }
}

/// Finds interpreters listed in the registry.
pub struct WinRegProvider {
    pub sources: Vec<PythonRegSource>,
}

impl WinRegProvider {
    /// The provider for a build of the given pointer width.
    pub fn create(pointer_width_64: bool) -> (r: Option<Self>)
        ensures
            r matches Some(p) && sources_for(pointer_width_64, p.sources@),
    {
        Some(WinRegProvider { sources: get_sources(pointer_width_64) })
    }

    /// The candidates from each source, given its listing at the same
    /// position of `listings` (sources without one yield nothing).
    pub fn find_pythons(&self, listings: &Vec<Vec<RegistryEntry>>) -> (r: Vec<PythonVersion>)
        ensures
            python_views(r@) == sources_pythons(
                self.sources@,
                listings@,
                if self.sources@.len() < listings@.len() {
                    self.sources@.len() as int
                } else {
                    listings@.len() as int
                },
            ),
    {
        let n = if self.sources.len() < listings.len() {
            self.sources.len()
        } else {
            listings.len()
        };
        let mut out: Vec<PythonVersion> = Vec::new();
        let mut i: usize = 0;
        assert(python_views(out@) =~= Seq::<PythonVersionView>::empty());
        while i < n
            invariant
                i <= n <= self.sources@.len(),
                n <= listings@.len(),
                python_views(out@) == sources_pythons(self.sources@, listings@, i as int),
            decreases n - i,
        {
            let found = self.sources[i].find_all(&listings[i]);
            let ghost before = python_views(out@);
            let ghost mut k: int = 0;
            let mut rest = found;
            let ghost fv = python_views(rest@);
            while rest.len() > 0
                invariant
                    0 <= k <= fv.len(),
                    python_views(rest@) =~= fv.skip(k),
                    python_views(out@) =~= before + fv.take(k),
                decreases rest@.len(),
            {
                let ghost old_rest = rest@;
                assert(python_views(old_rest).len() == old_rest.len());
                assert(python_views(old_rest)[0] == old_rest[0]@);
                assert(k < fv.len());
                assert(fv.skip(k)[0] == fv[k]);
                let p = rest.remove(0);
                assert(python_views(rest@) =~= python_views(old_rest).skip(1));
                assert(fv.skip(k).skip(1) =~= fv.skip(k + 1));
                assert(fv.take(k + 1) =~= fv.take(k).push(fv[k]));
                assert(p@ == fv[k]);
                let ghost old_out = python_views(out@);
                out.push(p);
                assert(python_views(out@) =~= old_out.push(fv[k]));
                proof {
                    k = k + 1;
                }
            }
            assert(fv.take(k) =~= fv);
            i = i + 1;
        }
        out
    }
}

} // verus!
