use findpython::helpers::FileMeta;
use findpython::providers::asdf::AsdfProvider;
use findpython::providers::path::PathProvider;
use findpython::providers::pyenv::PyenvProvider;
use findpython::providers::rye::RyeProvider;
use findpython::providers::winreg::{
    get_sources, RegistryAccess, RegistryEntry, RegistryRoot, WinRegProvider,
};
use findpython::providers::{
    find_pythons_from_path, get_provider, join, lookup_var, DirEntry, ProviderKind,
};

fn file(path: &str) -> DirEntry {
    DirEntry {
        path: path.to_string(),
        meta: Some(FileMeta { is_file: true, is_dir: false, is_symlink: false, readable_executable: true }),
    }
}

fn dir(path: &str, is_symlink: bool) -> DirEntry {
    DirEntry {
        path: path.to_string(),
        meta: Some(FileMeta { is_file: false, is_dir: true, is_symlink, readable_executable: true }),
    }
}

fn home() -> Vec<(String, String)> {
    vec![("HOME".to_string(), "/home/u".to_string())]
}

#[test]
fn path_test_find_pythons() {
    let provider = PathProvider::new(vec!["/usr/bin".to_string()]);
    assert_eq!(provider.search_dirs().len(), 1);
    let entries = vec![file("/usr/bin/ls"), file("/usr/bin/python3"), file("/usr/bin/python3w")];
    let mut pythons = find_pythons_from_path(&entries, false);
    assert_eq!(pythons.len(), 1);
    let python = pythons.first_mut().unwrap();
    assert!(python.interpreter().is_none());
    python.record_version(Ok("3.12.1\n".to_string())).unwrap();
    python.record_interpreter(Ok("/usr/bin/python3.12\n".to_string())).unwrap();
    python.record_architecture(Ok("64bit\n".to_string())).unwrap();
    assert!(python.is_valid());
    assert!(python.interpreter().is_some());
    assert!(python.architecture().is_some());
}

#[test]
fn install_trees_know_their_interpreter() {
    let entries = vec![file("/r/versions/3.12.1/bin/python3.12"), file("/r/versions/3.12.1/bin/pip")];
    let pythons = find_pythons_from_path(&entries, true);
    assert_eq!(pythons.len(), 1);
    assert_eq!(pythons[0].interpreter().unwrap(), "/r/versions/3.12.1/bin/python3.12");
}

#[test]
fn test_find_python() {
    let provider = WinRegProvider::create(true).unwrap();
    let entry = RegistryEntry {
        version: Some("3.12.1".to_string()),
        executable_path: Some("C:\\Python312\\python.exe".to_string()),
        sys_architecture: None,
    };
    let pythons = provider.find_pythons(&vec![vec![entry], vec![], vec![]]);
    assert!(pythons.len() > 0);
}

#[test]
fn registry_entries_take_source_architecture() {
    let provider = WinRegProvider::create(true).unwrap();
    let with_arch = RegistryEntry {
        version: Some("3.11.4".to_string()),
        executable_path: Some("C:\\Py311\\python.exe".to_string()),
        sys_architecture: Some("32bit".to_string()),
    };
    let no_path = RegistryEntry { version: Some("3.10".to_string()), executable_path: None, sys_architecture: None };
    let plain = RegistryEntry {
        version: Some("garbage".to_string()),
        executable_path: Some("C:\\Py\\python.exe".to_string()),
        sys_architecture: None,
    };
    let found = provider.find_pythons(&vec![vec![], vec![with_arch, no_path, plain]]);
    assert_eq!(found.len(), 2);
    assert_eq!(found[0].architecture().unwrap(), "32bit");
    assert_eq!(found[0].version_string(), "3.11.4");
    assert_eq!(found[1].architecture().unwrap(), "64bit");
    assert!(!found[1].is_valid());
}

#[test]
fn registry_sources_by_pointer_width() {
    let s64 = get_sources(true);
    assert_eq!(s64.len(), 3);
    assert_eq!(s64[0].root, RegistryRoot::CurrentUser);
    assert_eq!(s64[2].access, RegistryAccess::Wow64Key32);
    assert_eq!(s64[2].arch.as_deref(), Some("32bit"));
    assert_eq!(WinRegProvider::create(true).unwrap().sources, s64);
    let s32 = get_sources(false);
    assert_eq!(WinRegProvider::create(false).unwrap().sources, s32);
    assert_eq!(s32.len(), 2);
    assert_eq!(s32[0].arch.as_deref(), Some("32bit"));
}

#[test]
fn pyenv_root_defaults_under_home() {
    assert_eq!(PyenvProvider::root_from(None, &home()), "/home/u/.pyenv");
    assert_eq!(PyenvProvider::root_from(Some("/srv/pyenv".to_string()), &home()), "/srv/pyenv");
    assert_eq!(PyenvProvider::root_from(Some("${HOME}/p".to_string()), &home()), "/home/u/p");
    assert_eq!(PyenvProvider::root_from(Some("$NOPE/p".to_string()), &home()), "$NOPE/p");
    assert_eq!(AsdfProvider::root_from(None, &home()), "/home/u/.asdf");
}

#[test]
fn providers_need_an_existing_root() {
    assert!(PyenvProvider::create("/home/u/.pyenv".to_string(), false).is_none());
    let p = PyenvProvider::create("/home/u/.pyenv".to_string(), true).unwrap();
    assert_eq!(p, PyenvProvider::new("/home/u/.pyenv".to_string()));
    assert_eq!(p.versions_dir(), "/home/u/.pyenv/versions");
    assert_eq!(PyenvProvider::bin_dir(&dir("/home/u/.pyenv/versions/3.12.1", false)).unwrap(), "/home/u/.pyenv/versions/3.12.1/bin");
    assert!(PyenvProvider::bin_dir(&file("/home/u/.pyenv/versions/README")).is_none());
    let a = AsdfProvider::create("/d/".to_string(), true).unwrap();
    assert_eq!(a.versions_dir(), "/d/installs/python");
    assert!(AsdfProvider::create("/d".to_string(), false).is_none());
}

#[test]
fn rye_skips_symlinked_toolchains() {
    let root = RyeProvider::root_from(None, Some("/home/u".to_string())).unwrap();
    assert_eq!(root, "/home/u/.rye");
    assert!(RyeProvider::create(root.clone(), false).is_none());
    let r = RyeProvider::create(root, true).unwrap();
    assert_eq!(r, RyeProvider::new("/home/u/.rye".to_string()));
    assert_eq!(r.py_dir(), "/home/u/.rye/py");
    assert!(RyeProvider::root_from(None, None).is_none());
    assert_eq!(RyeProvider::root_from(Some("/x".to_string()), None).unwrap(), "/x");
    assert!(RyeProvider::install_executable(&dir("/home/u/.rye/py/cpython@3.12", true)).is_none());
    let exe = RyeProvider::install_executable(&dir("/home/u/.rye/py/cpython@3.12.1", false)).unwrap();
    assert_eq!(exe, "/home/u/.rye/py/cpython@3.12.1/install/bin/python3");
    let c = RyeProvider::candidate(exe.clone());
    assert_eq!(c.interpreter().unwrap(), &exe);
}

#[test]
fn provider_names() {
    assert_eq!(get_provider("path"), Some(ProviderKind::Path));
    assert_eq!(get_provider("asdf"), Some(ProviderKind::Asdf));
    assert_eq!(get_provider("winreg"), Some(ProviderKind::WinReg));
    assert_eq!(get_provider("conda"), None);
}

#[test]
fn paths_and_variables() {
    assert_eq!(join("/a", "b"), "/a/b");
    assert_eq!(join("/a/", "b"), "/a/b");
    assert_eq!(join("", "b"), "b");
    let vars = vec![("A".to_string(), "1".to_string()), ("A".to_string(), "2".to_string())];
    assert_eq!(lookup_var(&vars, "A"), Some("1".to_string()));
    assert_eq!(lookup_var(&vars, "B"), None);
}
