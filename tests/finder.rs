use findpython::finder::{Candidate, Finder, FinderError, KeySource, MatchOptions};
use findpython::python::PythonVersion;

fn spec(major: Option<usize>, minor: Option<usize>, patch: Option<usize>) -> MatchOptions {
    MatchOptions { major, minor, patch, ..MatchOptions::default() }
}

fn probed(path: &str, version: &str) -> PythonVersion {
    let mut p = PythonVersion::new(path.to_string());
    p.record_version(Ok(version.to_string())).unwrap();
    p
}

fn candidate(path: &str, version: &str, is_symlink: bool, real: &str) -> Candidate {
    Candidate {
        python: probed(path, version),
        is_symlink,
        real_path: Some(real.to_string()),
        content_hash: None,
    }
}

fn three_candidates() -> Vec<Candidate> {
    vec![
        candidate("/usr/bin/python3.11", "3.11.2", true, "/usr/bin/python3.11.2"),
        candidate("/usr/local/bin/python3", "3.11.2", false, "/usr/local/bin/python3"),
        candidate("/opt/bin/python3.10", "3.10.4", false, "/opt/bin/python3.10"),
    ]
}

fn paths(found: &[PythonVersion]) -> Vec<String> {
    found.iter().map(|p| p.executable().to_string()).collect()
}

#[test]
fn finder_test_find_pythons() {
    let finder = Finder::default();

    let pythons = finder.find_all(three_candidates(), &MatchOptions::default());
    assert!(pythons.len() > 0);
}

#[test]
fn version_literals_are_parsed() {
    let o = MatchOptions::default();
    assert_eq!(o.clone().version_spec("3"), spec(Some(3), None, None));
    assert_eq!(o.clone().version_spec("3.8"), spec(Some(3), Some(8), None));
    assert_eq!(o.clone().version_spec("3.8.1"), spec(Some(3), Some(8), Some(1)));
    assert_eq!(o.clone().version_spec("3.10"), spec(Some(3), Some(10), None));
    assert_eq!(
        o.clone().version_spec("python3"),
        MatchOptions { name: Some("python3".to_string()), ..MatchOptions::default() }
    );
    assert_eq!(
        o.clone().version_spec("3.9.0a1"),
        MatchOptions { pre: Some(true), ..spec(Some(3), Some(9), Some(0)) }
    );
    assert_eq!(
        o.clone().version_spec("pypy"),
        MatchOptions { name: Some("pypy".to_string()), ..MatchOptions::default() }
    );
}

#[test]
fn version_literal_suffixes() {
    let o = MatchOptions::default();
    assert_eq!(
        o.clone().version_spec("3.8-64"),
        MatchOptions { architecture: Some("64bit".to_string()), ..spec(Some(3), Some(8), None) }
    );
    assert_eq!(
        o.clone().version_spec("3.12.dev2"),
        MatchOptions { dev: Some(true), ..spec(Some(3), Some(12), None) }
    );
    assert_eq!(
        o.clone().version_spec("3.12rc1.post1.dev2-32"),
        MatchOptions {
            pre: Some(true),
            dev: Some(true),
            architecture: Some("32bit".to_string()),
            ..spec(Some(3), Some(12), None)
        }
    );
    assert_eq!(MatchOptions::from_version("3.8.1.2"), None);
    assert_eq!(MatchOptions::from_version("3foo"), None);
    assert_eq!(MatchOptions::from_version("3.8-16"), None);
    assert_eq!(MatchOptions::from_version(""), None);
    assert_eq!(MatchOptions::from_version("99999999999999999999999999"), None);
}

#[test]
fn merge_prefers_the_second() {
    let a = MatchOptions::default().major(3);
    let b = MatchOptions::default().minor(9);
    assert_eq!(a.clone().merge(b), spec(Some(3), Some(9), None));
    let c = MatchOptions::default().major(4);
    assert_eq!(a.merge(c), spec(Some(4), None, None));
    let named = MatchOptions::default().name("python3").architecture("64bit");
    let merged = MatchOptions::default().name("pypy").merge(named.clone());
    assert_eq!(merged, named);
}

#[test]
fn end_to_end_ranking_keeps_distinct_paths() {
    let finder = Finder::default();
    let found = finder.find_all(three_candidates(), &MatchOptions::default());
    assert_eq!(
        paths(&found),
        vec!["/usr/bin/python3.11", "/usr/local/bin/python3", "/opt/bin/python3.10"]
    );
    assert_eq!(found[0].version_string(), "3.11.2");
    assert_eq!(found[1].version_string(), "3.11.2");
    assert_eq!(found[2].version_string(), "3.10.4");
}

#[test]
fn end_to_end_resolved_symlinks_collapse() {
    let mut cs = three_candidates();
    cs.push(candidate("/usr/bin/python3.11.2", "3.11.2", false, "/usr/bin/python3.11.2"));
    let plain = Finder::default().find_all(
        three_candidates()
            .into_iter()
            .chain(std::iter::once(candidate(
                "/usr/bin/python3.11.2",
                "3.11.2",
                false,
                "/usr/bin/python3.11.2",
            )))
            .collect(),
        &MatchOptions::default(),
    );
    assert_eq!(plain.len(), 4);
    let finder = Finder::default().resolve_symlinks(true);
    let found = finder.find_all(cs, &MatchOptions::default());
    assert_eq!(
        paths(&found),
        vec!["/usr/bin/python3.11.2", "/usr/local/bin/python3", "/opt/bin/python3.10"]
    );
}

#[test]
fn no_match_gives_empty_and_none() {
    let finder = Finder::default();
    let options = MatchOptions::default().major(99);
    assert!(finder.find_all(three_candidates(), &options).is_empty());
    assert!(finder.find(three_candidates(), &options).is_none());
}

#[test]
fn find_gives_the_best() {
    let finder = Finder::default();
    let best = finder.find(three_candidates(), &MatchOptions::default().minor(10)).unwrap();
    assert_eq!(best.executable(), "/opt/bin/python3.10");
    let best = finder.find(three_candidates(), &MatchOptions::default()).unwrap();
    assert_eq!(best.executable(), "/usr/bin/python3.11");
}

#[test]
fn deduplicating_twice_changes_nothing() {
    let finder = Finder::default().resolve_symlinks(true);
    let mut cs = three_candidates();
    cs.push(candidate("/usr/bin/python3.11.2", "3.11.2", false, "/usr/bin/python3.11.2"));
    let once = finder.deduplicate(cs);
    let once_paths: Vec<String> = once.iter().map(|c| c.python.executable().to_string()).collect();
    let twice = finder.deduplicate(once);
    let twice_paths: Vec<String> =
        twice.iter().map(|c| c.python.executable().to_string()).collect();
    assert_eq!(once_paths, twice_paths);
}

#[test]
fn prerelease_ranks_below_final() {
    let cs = vec![
        candidate("/a/python3.13", "3.13.0rc1", false, "/a/python3.13"),
        candidate("/b/python3.13", "3.13.0", false, "/b/python3.13"),
        candidate("/c/python3.13", "3.13.0.dev2", false, "/c/python3.13"),
    ];
    let found = Finder::default().find_all(cs, &MatchOptions::default());
    assert_eq!(paths(&found), vec!["/b/python3.13", "/a/python3.13", "/c/python3.13"]);
}

#[test]
fn same_interpreter_keys_by_interpreter() {
    let mut a = candidate("/usr/bin/python3", "3.12.1", false, "/usr/bin/python3");
    a.python = a.python.with_interpreter("/opt/py/bin/python3.12".to_string());
    let mut b = candidate("/home/u/.shims/python", "3.12.1", false, "/home/u/.shims/python");
    b.python = b.python.with_interpreter("/opt/py/bin/python3.12".to_string());
    let c = candidate("/usr/bin/python3.12", "3.12.1", false, "/usr/bin/python3.12");
    let finder = Finder::default().same_interpreter(false);
    assert_eq!(finder.key_source(false), KeySource::Interpreter);
    assert_eq!(finder.deduplicate_key(&c), None);
    let found = finder.find_all(vec![a, b, c], &MatchOptions::default());
    assert_eq!(paths(&found), vec!["/home/u/.shims/python"]);
}

#[test]
fn same_file_keys_by_content_hash() {
    let mut a = candidate("/usr/bin/python3", "3.12.1", false, "/usr/bin/python3");
    a.content_hash = Some("aa".to_string());
    let mut b = candidate("/usr/bin/python3.12", "3.12.1", false, "/usr/bin/python3.12");
    b.content_hash = Some("aa".to_string());
    let finder = Finder::default().same_file(false);
    assert_eq!(finder.key_source(false), KeySource::ContentHash);
    let found = finder.find_all(vec![a, b], &MatchOptions::default());
    assert_eq!(paths(&found), vec!["/usr/bin/python3"]);
}

#[test]
fn kept_symlinks_are_not_resolved() {
    let finder = Finder::default().resolve_symlinks(true);
    assert_eq!(finder.key_source(false), KeySource::RealPath);
    assert_eq!(finder.key_source(true), KeySource::Executable);
    let mut a = candidate("/r/py/bin/python3", "3.12.1", true, "/r/real/bin/python3");
    a.python = a.python.with_keep_symlink(true);
    assert_eq!(finder.deduplicate_key(&a), Some("/r/py/bin/python3"));
}

#[test]
fn unknown_provider_is_an_error() {
    let f = Finder::default().select_providers(&["path", "conda"]);
    assert_eq!(f.err(), Some(FinderError::UnknownProvider { name: "conda".to_string() }));
    let f = Finder::default().select_providers(&["rye", "asdf"]).unwrap();
    assert_eq!(f.providers().len(), 2);
}

#[test]
fn explicit_options_win_over_the_query() {
    let o = MatchOptions::default().minor(12).with_query(Some("3.8"));
    assert_eq!(o, spec(Some(3), Some(12), None));
    let o = MatchOptions::default().with_query(Some("pypy3"));
    assert_eq!(o.name.as_deref(), Some("pypy3"));
    let o = MatchOptions::default().major(2).with_query(None);
    assert_eq!(o, spec(Some(2), None, None));
}

#[test]
fn query_literal_keeps_explicit_fields() {
    let o = MatchOptions::default().minor(11).version_spec("3.9");
    assert_eq!(o, spec(Some(3), Some(11), None));
    let o = MatchOptions::default().architecture("32bit").version_spec("3.9-64");
    assert_eq!(o.architecture.as_deref(), Some("32bit"));
    assert_eq!(o.major, Some(3));
    let o = MatchOptions::default().major(2).version_spec("python3");
    assert_eq!(o, MatchOptions { name: Some("python3".to_string()), ..spec(Some(2), None, None) });
}

#[test]
fn extensionless_variant_is_kept() {
    let mut a = candidate("/usr/bin/python3.sh", "3.12.1", false, "/usr/bin/python3.sh");
    a.content_hash = Some("h".to_string());
    let mut b = candidate("/usr/bin/python3", "3.12.1", false, "/usr/bin/python3");
    b.content_hash = Some("h".to_string());
    let found = Finder::default().same_file(false).find_all(vec![a, b], &MatchOptions::default());
    assert_eq!(paths(&found), vec!["/usr/bin/python3"]);
}
