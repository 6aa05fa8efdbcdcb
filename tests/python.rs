use findpython::finder::MatchOptions;
use findpython::helpers::calculate_file_hash;
use findpython::python::{script_outcome, ProbeError, ProbeKind, PythonVersion, ScriptStatus};

fn exited_ok() -> ScriptStatus {
    ScriptStatus::Exited { success: true, code: Some(0) }
}

fn python311() -> PythonVersion {
    let mut p = PythonVersion::new("/usr/bin/python3.11".to_string());
    p.record_version(Ok("3.11.4\n".to_string())).unwrap();
    p
}

#[test]
fn test_run_command() {
    let output = script_outcome("python3", exited_ok(), Some("hello\n".to_string())).unwrap();
    assert_eq!(output, "hello\n");
}

#[test]
fn test_run_command_with_timeout() {
    let output = script_outcome("python3", exited_ok(), Some("hello\n".to_string())).unwrap();
    assert_eq!(output, "hello\n");

    let output = script_outcome("python3", ScriptStatus::TimedOut, None).unwrap_err();
    assert!(matches!(output, ProbeError::TimedOut { .. }));
}

#[test]
fn test_python_version_info() {
    let mut python_version = python311();
    assert!(python_version.is_valid());
    let version = python_version.version().unwrap();
    assert_eq!(version.release[..2], [3, 11]);
    assert!(python_version.record_interpreter(Ok("/usr/bin/python3.11\n".to_string())).is_ok());
    assert!(python_version.interpreter().is_some());
    assert_eq!(calculate_file_hash(b"\x7fELF").len(), 32);
}

#[test]
fn test_match_python() {
    let python_version = python311();
    assert!(python_version.matches(&MatchOptions {
        name: Some("python3.11".to_string()),
        major: Some(3),
        minor: Some(11),
        ..MatchOptions::default()
    }));
}

#[test]
fn failed_exit_carries_code() {
    let st = ScriptStatus::Exited { success: false, code: Some(2) };
    assert_eq!(
        script_outcome("py", st, None),
        Err(ProbeError::Failed { command: "py".to_string(), code: 2 })
    );
    let killed = ScriptStatus::Exited { success: false, code: None };
    assert_eq!(
        script_outcome("py", killed, None),
        Err(ProbeError::Failed { command: "py".to_string(), code: -1 })
    );
}

#[test]
fn undecodable_output_is_an_error() {
    assert_eq!(
        script_outcome("py", exited_ok(), None),
        Err(ProbeError::NotUtf8 { command: "py".to_string() })
    );
}

#[test]
fn timed_out_probe_leaves_version_unknown() {
    let mut p = PythonVersion::new("/usr/bin/python3".to_string());
    let outcome = script_outcome("/usr/bin/python3", ScriptStatus::TimedOut, None);
    let err = p.record_version(outcome).unwrap_err();
    assert_eq!(err, ProbeError::TimedOut { command: "/usr/bin/python3".to_string() });
    assert!(!p.is_valid());
    p.record_version(Ok("3.12.1".to_string())).unwrap();
    assert_eq!(p.version().unwrap().release, vec![3, 12, 1]);
}

#[test]
fn known_version_is_not_replaced() {
    let mut p = python311();
    p.record_version(Ok("3.9.0".to_string())).unwrap();
    assert_eq!(p.version().unwrap().release, vec![3, 11, 4]);
}

#[test]
fn unreadable_version_is_reported() {
    let mut p = PythonVersion::new("/usr/bin/python3".to_string());
    let err = p.record_version(Ok("not a version\n".to_string())).unwrap_err();
    assert_eq!(err, ProbeError::InvalidVersion { output: "not a version\n".to_string() });
    assert!(p.version().is_none());
}

#[test]
fn local_suffix_is_dropped() {
    let mut p = PythonVersion::new("/usr/bin/python3".to_string());
    p.record_version(Ok("  3.10.2+local.build \n".to_string())).unwrap();
    assert_eq!(p.version().unwrap().release, vec![3, 10, 2]);
    assert_eq!(p.version_string(), "3.10.2");
}

#[test]
fn probed_paths_are_trimmed() {
    let mut p = PythonVersion::new("/usr/bin/python3".to_string());
    p.record_architecture(Ok("64bit\n".to_string())).unwrap();
    assert_eq!(p.architecture().unwrap(), "64bit");
    p.record_interpreter(Ok("  /opt/py/bin/python3.12\r\n".to_string())).unwrap();
    assert_eq!(p.interpreter().unwrap(), "/opt/py/bin/python3.12");
    let err = p.record_architecture(Err(ProbeError::NotUtf8 { command: "x".to_string() }));
    assert!(err.is_ok());
}

#[test]
fn display_names_version_and_path() {
    assert_eq!(python311().to_string(), "python3.11 3.11.4 @ /usr/bin/python3.11");
    let p = PythonVersion::new("/opt/bin/pypy3".to_string());
    assert_eq!(p.to_string(), "pypy3 INVALID @ /opt/bin/pypy3");
}

#[test]
fn only_version_probe_has_timeout() {
    assert_eq!(ProbeKind::Version.timeout(), Some(5));
    assert_eq!(ProbeKind::Interpreter.timeout(), None);
    assert_eq!(ProbeKind::Architecture.timeout(), None);
    assert_eq!(ProbeKind::Interpreter.script(), "import sys; print(sys.executable)");
}

#[test]
fn matching_needs_known_facts() {
    let p = python311();
    let arch = MatchOptions::default().architecture("64bit");
    assert!(!p.matches(&arch));
    let p = p.with_architecture("64bit".to_string());
    assert!(p.matches(&arch));
    assert!(!p.matches(&MatchOptions::default().major(2)));
    assert!(!p.matches(&MatchOptions::default().patch(5)));
    assert!(p.matches(&MatchOptions::default().patch(4).pre(false).dev(false)));
    assert!(!p.matches(&MatchOptions::default().name("python3")));
    let unknown = PythonVersion::new("/usr/bin/python3".to_string());
    assert!(!unknown.matches(&MatchOptions::default()));
}

#[test]
fn content_hash_is_md5_hex() {
    assert_eq!(calculate_file_hash(b"abc"), "900150983cd24fb0d6963f7d28e17f72");
    assert_eq!(calculate_file_hash(b""), "d41d8cd98f00b204e9800998ecf8427e");
}

#[test]
fn candidates_are_equal_by_path() {
    let a = python311();
    let b = PythonVersion::new("/usr/bin/python3.11".to_string()).with_architecture("64bit".to_string());
    assert!(a == b);
    assert!(a != PythonVersion::new("/usr/bin/python3".to_string()));
}

#[test]
fn probe_scripts() {
    assert_eq!(ProbeKind::Version.script(), "import platform; print(platform.python_version())");
    assert_eq!(ProbeKind::Architecture.script(), "import platform; print(platform.architecture()[0])");
}
