use findpython::helpers::{
    calculate_file_hash, looks_like_python_name, path_is_python, suffix_preference, FileMeta,
};

const IMPLEMENTATIONS: [&str; 10] = [
    "python",
    "ironpython",
    "jython",
    "pypy",
    "anaconda",
    "miniconda",
    "stackless",
    "activepython",
    "pyston",
    "micropython",
];

const EXTENSIONS: [&str; 6] = ["sh", "bash", "csh", "zsh", "fish", "py"];

fn runnable() -> Option<FileMeta> {
    Some(FileMeta { is_file: true, is_dir: false, is_symlink: false, readable_executable: true })
}

fn not_runnable() -> Option<FileMeta> {
    Some(FileMeta { is_file: true, is_dir: false, is_symlink: false, readable_executable: false })
}

#[test]
fn every_implementation_name_is_accepted() {
    for name in IMPLEMENTATIONS {
        for version in ["", "3", "3.11", "311", "3.8m", "2.7-3.1"] {
            let base = format!("{}{}", name, version);
            assert!(looks_like_python_name(&base), "{}", base);
            for ext in EXTENSIONS {
                let full = format!("{}.{}", base, ext);
                assert!(looks_like_python_name(&full), "{}", full);
            }
        }
    }
}

#[test]
fn lookalikes_are_rejected() {
    assert!(!looks_like_python_name("notpython"));
    assert!(!looks_like_python_name("python3w"));
    assert!(!looks_like_python_name("pythonw"));
    assert!(!looks_like_python_name("python3.exe"));
    assert!(!looks_like_python_name("python-config"));
    assert!(!looks_like_python_name("python3.11-config"));
    assert!(!looks_like_python_name("python3.1.2"));
    assert!(!looks_like_python_name(""));
}

#[test]
fn names_are_matched_ignoring_case() {
    assert!(looks_like_python_name("Python3.11"));
    assert!(looks_like_python_name("PYPY3"));
    assert!(looks_like_python_name("python3.PY"));
    assert!(!looks_like_python_name("PYTHON3W"));
}

#[test]
fn dash_suffixes_need_a_digit_before() {
    assert!(looks_like_python_name("python3-3.11.2"));
    assert!(looks_like_python_name("pypy3.9-7.3-1"));
    assert!(!looks_like_python_name("python-3.11"));
    assert!(!looks_like_python_name("python3-"));
}

#[test]
fn classification_checks_the_file() {
    assert!(path_is_python("/usr/bin/python3", runnable()));
    assert!(!path_is_python("/usr/bin/python3", not_runnable()));
    assert!(path_is_python("/usr/bin/python3.sh", not_runnable()));
    assert!(!path_is_python("/usr/bin/python3.11", not_runnable()));
    assert!(path_is_python("/usr/bin/python3.11", runnable()));
    assert!(!path_is_python("/usr/bin/python3", None));
    let dir = Some(FileMeta { is_file: false, is_dir: true, is_symlink: false, readable_executable: true });
    assert!(!path_is_python("/usr/bin/python3", dir));
    assert!(!path_is_python("/usr/bin/notpython", runnable()));
    assert!(!path_is_python("/usr/bin/", runnable()));
}

#[test]
fn suffix_preference_ranks_known_suffixes() {
    assert_eq!(suffix_preference("/usr/bin/python3"), 0);
    assert_eq!(suffix_preference("/usr/bin/python3.sh"), 1);
    assert_eq!(suffix_preference("/usr/bin/python3.bash"), 2);
    assert_eq!(suffix_preference("/usr/bin/python3.csh"), 3);
    assert_eq!(suffix_preference("/usr/bin/python3.zsh"), 4);
    assert_eq!(suffix_preference("/usr/bin/python3.FISH"), 5);
    assert_eq!(suffix_preference("/usr/bin/python.py"), 6);
    assert_eq!(suffix_preference("/usr/bin/python.PY"), 6);
    assert_eq!(suffix_preference("/usr/bin/python3.11"), 7);
    assert_eq!(suffix_preference("/home/u/.py"), 0);
}

#[test]
fn equal_contents_hash_equally() {
    assert_eq!(calculate_file_hash(b"same bytes"), calculate_file_hash(b"same bytes"));
    assert_ne!(calculate_file_hash(b"same bytes"), calculate_file_hash(b"other bytes"));
}
