//! Sources of candidate interpreters. Each provider decides where to look
//! and which entries are candidates; the caller lists the directories.
use vstd::prelude::*;
use crate::helpers::{is_python_path, path_is_python, FileMeta};
use crate::python::{PythonVersion, PythonVersionView};
use crate::text::{chars_of, tail_eq};

pub mod asdf;
pub mod path;
pub mod pyenv;
pub mod rye;
pub mod winreg;

verus! {

/// The kinds of provider that a finder can be configured with.
#[derive(Clone, Copy, Debug, PartialEq, Eq, Structural)]
pub enum ProviderKind {
    /// Directories on the search path.
    Path,
    /// Installs under the pyenv root.
    Pyenv,
    /// Toolchains under the rye root.
    Rye,
    /// Installs under the asdf data directory.
    Asdf,
    /// Entries of the Windows registry.
    WinReg,
}

/// The provider that a name selects, if it is a known one.
pub open spec fn provider_of_name(name: Seq<char>) -> Option<ProviderKind> {
    if name == "path"@ {
        Some(ProviderKind::Path)
    } else if name == "pyenv"@ {
        Some(ProviderKind::Pyenv)
    } else if name == "rye"@ {
        Some(ProviderKind::Rye)
    } else if name == "asdf"@ {
        Some(ProviderKind::Asdf)
    } else if name == "winreg"@ {
        Some(ProviderKind::WinReg)
    } else {
        None
    }
}

fn is_word(name: &Vec<char>, w: &str) -> (r: bool)
    ensures
        r == (name@ == w@),
{
    let x = chars_of(w);
    assert(name@.skip(0) =~= name@);
    tail_eq(name, 0, &x)
}

/// The provider that `name` selects, if it is a known one.
pub fn get_provider(name: &str) -> (r: Option<ProviderKind>)
    ensures
        r == provider_of_name(name@),
{
    let n = chars_of(name);
    if is_word(&n, "path") {
        Some(ProviderKind::Path)
    } else if is_word(&n, "pyenv") {
        Some(ProviderKind::Pyenv)
    } else if is_word(&n, "rye") {
        Some(ProviderKind::Rye)
    } else if is_word(&n, "asdf") {
        Some(ProviderKind::Asdf)
    } else if is_word(&n, "winreg") {
        Some(ProviderKind::WinReg)
    } else {
        None
    }
}

/// The providers used when none are selected, in order.
pub open spec fn default_providers() -> Seq<ProviderKind> {
    seq![ProviderKind::Path, ProviderKind::Pyenv, ProviderKind::Rye]
}

/// The names of the providers used when none are selected.
pub const ALL_PROVIDERS: [&'static str; 3] = ["path", "pyenv", "rye"];

pub fn default_provider_kinds() -> (r: Vec<ProviderKind>)
    ensures
        r@ == default_providers(),
{
    let mut v: Vec<ProviderKind> = Vec::new();
    v.push(ProviderKind::Path);
    v.push(ProviderKind::Pyenv);
    v.push(ProviderKind::Rye);
    assert(v@ =~= default_providers());
    v
}

/// One entry of a directory listing.
pub struct DirEntry {
    /// The entry's path: the directory's path joined with its name.
    pub path: String,
    /// What the filesystem says of it; none when that could not be read.
    pub meta: Option<FileMeta>,
}

/// The mathematical value of a [`DirEntry`].
pub struct DirEntryView {
    pub path: Seq<char>,
    pub meta: Option<FileMeta>,
}

impl View for DirEntry {
    type V = DirEntryView;

    open spec fn view(&self) -> DirEntryView {
        DirEntryView { path: self.path@, meta: self.meta }
    }
}

pub open spec fn entry_views(s: Seq<DirEntry>) -> Seq<DirEntryView> {
    s.map_values(|e: DirEntry| e@)
}

/// A fresh candidate at `path`; its path is also its interpreter when
/// `as_interpreter`.
pub open spec fn candidate_at(path: Seq<char>, as_interpreter: bool) -> PythonVersionView {
    PythonVersionView {
        executable: path,
        version: None,
        interpreter: if as_interpreter {
            Some(path)
        } else {
            None
        },
        architecture: None,
        keep_symlink: false,
    }
}

/// The candidates among directory entries, in listing order.
pub open spec fn pythons_in(entries: Seq<DirEntryView>, as_interpreter: bool) -> Seq<
    PythonVersionView,
>
    decreases entries.len(),
{
    if entries.len() == 0 {
        Seq::empty()
    } else {
        let rest = pythons_in(entries.drop_last(), as_interpreter);
        let e = entries.last();
        if is_python_path(e.path, e.meta) {
            rest.push(candidate_at(e.path, as_interpreter))
        } else {
            rest
        }
    }
}

pub open spec fn python_views(s: Seq<PythonVersion>) -> Seq<PythonVersionView> {
    s.map_values(|p: PythonVersion| p@)
}

/// The candidates among the entries of one directory listing.
/// `as_interpreter` says that each path is an interpreter itself, never
/// a wrapper script.
pub fn find_pythons_from_path(entries: &Vec<DirEntry>, as_interpreter: bool) -> (r: Vec<
    PythonVersion,
>)
    ensures
        python_views(r@) == pythons_in(entry_views(entries@), as_interpreter),
{
    let ghost all = entry_views(entries@);
    let mut out: Vec<PythonVersion> = Vec::new();
    let mut i: usize = 0;
    assert(all.take(0) =~= Seq::<DirEntryView>::empty());
    assert(python_views(out@) =~= Seq::<PythonVersionView>::empty());
    while i < entries.len()
        invariant
            i <= entries@.len(),
            all == entry_views(entries@),
            python_views(out@) == pythons_in(all.take(i as int), as_interpreter),
        decreases entries@.len() - i,
    {
        let e = &entries[i];
        let ghost old_out = python_views(out@);
        proof {
            assert(all.take(i + 1).drop_last() =~= all.take(i as int));
            assert(all[i as int] == e@);
        }
        if path_is_python(e.path.as_str(), e.meta) {
            let mut py = PythonVersion::new(e.path.clone());
            if as_interpreter {
                py = py.with_interpreter(e.path.clone());
            }
            out.push(py);
            assert(python_views(out@) =~= old_out.push(candidate_at(e@.path, as_interpreter)));
        }
        i = i + 1;
    }
    assert(all.take(i as int) =~= all);
    out
}

/// `base` joined with the relative path `rest`, with a `/` between them
/// unless `base` is empty or already ends with one.
pub open spec fn joined(base: Seq<char>, rest: Seq<char>) -> Seq<char> {
    if base.len() > 0 && base.last() != '/' {
        base + "/"@ + rest
    } else {
        base + rest
    }
}

pub fn join(base: &str, rest: &str) -> (r: String)
    ensures
        r@ == joined(base@, rest@),
{
    let n = base.unicode_len();
    let s = String::from_str(base);
    if n > 0 && base.get_char(n - 1) != '/' {
        s.concat("/").concat(rest)
    } else {
        s.concat(rest)
    }
}

pub open spec fn var_views(vars: Seq<(String, String)>) -> Seq<(Seq<char>, Seq<char>)> {
    vars.map_values(|v: (String, String)| (v.0@, v.1@))
}

/// The value of the first variable named `name`, if any.
pub open spec fn lookup(vars: Seq<(Seq<char>, Seq<char>)>, name: Seq<char>) -> Option<Seq<char>>
    decreases vars.len(),
{
    if vars.len() == 0 {
        None
    } else if vars[0].0 == name {
        Some(vars[0].1)
    } else {
        lookup(vars.skip(1), name)
    }
}

/// The value of the first variable named `name` in `vars`, if any.
pub fn lookup_var(vars: &Vec<(String, String)>, name: &str) -> (r: Option<String>)
    ensures
        opt_str_view(r) == lookup(var_views(vars@), name@),
{
    let ghost vv = var_views(vars@);
    let n = chars_of(name);
    let mut i: usize = 0;
    assert(vv.skip(0) =~= vv);
    while i < vars.len()
        invariant
            i <= vars@.len(),
            n@ == name@,
            vv == var_views(vars@),
            lookup(vv, name@) == lookup(vv.skip(i as int), name@),
        decreases vars@.len() - i,
    {
        let k = chars_of(vars[i].0.as_str());
        assert(k@.skip(0) =~= k@);
        proof {
            assert(vv.skip(i as int)[0] == vv[i as int]);
            assert(vv.skip(i as int).skip(1) =~= vv.skip(i + 1));
        }
        if tail_eq(&k, 0, &n) {
            return Some(vars[i].1.clone());
        }
        i = i + 1;
    }
    None
}

pub open spec fn opt_str_view(s: Option<String>) -> Option<Seq<char>> {
    match s {
        Some(x) => Some(x@),
        None => None,
    }
}

/// What `template` becomes with its variables expanded from `vars`.
pub uninterp spec fn shell_expanded(template: Seq<char>, vars: Seq<(Seq<char>, Seq<char>)>) -> Seq<
    char,
>;

/// Relies on `shellexpand::env_with_context_no_errors`: each `$NAME` and
/// `${NAME}` is replaced by the value that [`lookup_var`] finds, unknown
/// names are left as written, and text without `$` comes back unchanged.
#[verifier::external_body]
fn expand_vars(template: &str, vars: &Vec<(String, String)>) -> (r: String)
    ensures
        r@ == shell_expanded(template@, var_views(vars@)),
        !template@.contains('$') ==> r@ == template@,
{
    shellexpand::env_with_context_no_errors(template, |name: &str| lookup_var(vars, name)).into_owned()
}

/// A provider root: the variable's value if set, else `default`, with its
/// variables expanded from `vars`.
pub open spec fn expanded_root(
    var: Option<Seq<char>>,
    default: Seq<char>,
    vars: Seq<(Seq<char>, Seq<char>)>,
) -> Seq<char> {
    shell_expanded(
        match var {
            Some(v) => v,
            None => default,
        },
        vars,
    )
}

pub fn expand_root(var: Option<String>, default: &str, vars: &Vec<(String, String)>) -> (r: String)
    ensures
        r@ == expanded_root(opt_str_view(var), default@, var_views(vars@)),
{
    match var {
        Some(v) => expand_vars(v.as_str(), vars),
        None => expand_vars(default, vars),
    }
}

} // verus!
