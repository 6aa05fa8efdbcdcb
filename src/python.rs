//! A discovered interpreter: its path, and the facts that probing it
//! yields, each kept once it has been learned.
use vstd::prelude::*;
use crate::finder::{MatchOptions, MatchSpec};
use crate::text::{chars_of, file_name, file_name_start, tail_eq, trim, trimmed};
use crate::version::{version_of_output, version_text, Version, VersionView};

verus! {

/// Why a probe of an interpreter failed.
#[derive(Clone, Debug, PartialEq, Eq)]
pub enum ProbeError {
    /// The process could not be started or waited for.
    Spawn { command: String, message: String },
    /// It exited unsuccessfully; `code` is -1 when no exit code was given.
    Failed { command: String, code: i32 },
    /// Its output is not valid UTF-8.
    NotUtf8 { command: String },
    /// It ran past its time limit and was stopped.
    TimedOut { command: String },
    /// It printed something that is not a version.
    InvalidVersion { output: String },
}

/// The three probes that can be run against an interpreter.
#[derive(Clone, Copy, Debug, PartialEq, Eq, Structural)]
pub enum ProbeKind {
    Version,
    Interpreter,
    Architecture,
}

/// Seconds that the version probe may run.
pub const GET_VERSION_TIMEOUT: u64 = 5;

impl ProbeKind {
    /// The script that the interpreter runs for this probe.
    pub fn script(&self) -> (r: &'static str)
        ensures
            r@ == match *self {
                ProbeKind::Version => "import platform; print(platform.python_version())"@,
                ProbeKind::Interpreter => "import sys; print(sys.executable)"@,
                ProbeKind::Architecture => "import platform; print(platform.architecture()[0])"@,
            },
    {
        match self {
            ProbeKind::Version => "import platform; print(platform.python_version())",
            ProbeKind::Interpreter => "import sys; print(sys.executable)",
            ProbeKind::Architecture => "import platform; print(platform.architecture()[0])",
        }
    }

    /// The time limit in seconds: only the version probe has one.
    pub fn timeout(&self) -> (r: Option<u64>)
        ensures
            r == (if *self == ProbeKind::Version {
                Some(GET_VERSION_TIMEOUT)
            } else {
                None
            }),
    {
        match self {
            ProbeKind::Version => Some(GET_VERSION_TIMEOUT),
            _ => None,
        }
    }
}

/// The flags that keep a probed interpreter away from the environment and
/// site customisation; the script follows them.
pub const PROBE_FLAGS: &'static str = "-EsSc";

/// How a probe process ended.
#[derive(Clone, Copy, Debug, PartialEq, Eq, Structural)]
pub enum ScriptStatus {
    /// It exited; `code` is absent when a signal ended it.
    Exited { success: bool, code: Option<i32> },
    /// It was still running at the time limit, and was killed and reaped.
    TimedOut,
}

/// What a probe of `command` gives: its output, or the error for how it
/// ended. `stdout` is absent when the output was not valid UTF-8.
pub fn script_outcome(command: &str, status: ScriptStatus, stdout: Option<String>) -> (r: Result<
    String,
    ProbeError,
>)
    ensures
        match status {
            ScriptStatus::TimedOut => r matches Err(ProbeError::TimedOut { command: c }) && c@
                == command@,
            ScriptStatus::Exited { success: false, code } => r matches Err(
                ProbeError::Failed { command: c, code: k },
            ) && c@ == command@ && k as int == (match code {
                Some(x) => x as int,
                None => -1,
            }),
            ScriptStatus::Exited { success: true, .. } => match stdout {
                None => r matches Err(ProbeError::NotUtf8 { command: c }) && c@ == command@,
                Some(s) => r matches Ok(t) && t@ == s@,
            },
        },
{
    match status {
        ScriptStatus::TimedOut => Err(ProbeError::TimedOut { command: String::from_str(command) }),
        ScriptStatus::Exited { success, code } => {
            if !success {
                let k: i32 = match code {
                    Some(x) => x,
                    None => -1,
                };
                Err(ProbeError::Failed { command: String::from_str(command), code: k })
            } else {
                match stdout {
                    None => Err(ProbeError::NotUtf8 { command: String::from_str(command) }),
                    Some(s) => Ok(s),
                }
            }
        },
    }
}

/// One discovered interpreter. Two are the same candidate when their
/// executable paths are equal; the probed facts play no part in that.
#[derive(Clone, Debug)]
pub struct PythonVersion {
    executable: String,
    version: Option<Version>,
    interpreter: Option<String>,
    architecture: Option<String>,
    keep_symlink: bool,
}

/// The mathematical value of a [`PythonVersion`].
pub struct PythonVersionView {
    pub executable: Seq<char>,
    pub version: Option<VersionView>,
    pub interpreter: Option<Seq<char>>,
    pub architecture: Option<Seq<char>>,
    pub keep_symlink: bool,
}

pub open spec fn opt_view(s: Option<String>) -> Option<Seq<char>> {
    match s {
        Some(x) => Some(x@),
        None => None,
    }
}

pub open spec fn opt_version_view(v: Option<Version>) -> Option<VersionView> {
    match v {
        Some(x) => Some(x@),
        None => None,
    }
}

impl View for PythonVersion {
    type V = PythonVersionView;

    closed spec fn view(&self) -> PythonVersionView {
        PythonVersionView {
            executable: self.executable@,
            version: opt_version_view(self.version),
            interpreter: opt_view(self.interpreter),
            architecture: opt_view(self.architecture),
            keep_symlink: self.keep_symlink,
        }
    }
}

impl PartialEq for PythonVersion {
    /// Candidates are the same when their executable paths are.
    fn eq(&self, other: &Self) -> (r: bool)
        ensures
            r == (self@.executable == other@.executable),
    {
        self.executable == other.executable
    }
}

impl vstd::std_specs::cmp::PartialEqSpecImpl for PythonVersion {
    open spec fn obeys_eq_spec() -> bool {
        true
    }

    open spec fn eq_spec(&self, other: &PythonVersion) -> bool {
        self@.executable == other@.executable
    }
}

impl Eq for PythonVersion {}

impl PythonVersion {
    /// A candidate at `executable` about which nothing has been probed.
    pub fn new(executable: String) -> (r: Self)
        ensures
            r@ == (PythonVersionView {
                executable: executable@,
                version: None,
                interpreter: None,
                architecture: None,
                keep_symlink: false,
            }),
    {
        PythonVersion {
            executable,
            version: None,
            interpreter: None,
            architecture: None,
            keep_symlink: false,
        }
    }

    pub fn with_version(self, version: Version) -> (r: Self)
        ensures
            r@ == (PythonVersionView { version: Some(version@), ..self@ }),
    {
        PythonVersion { version: Some(version), ..self }
    }

    pub fn with_interpreter(self, interpreter: String) -> (r: Self)
        ensures
            r@ == (PythonVersionView { interpreter: Some(interpreter@), ..self@ }),
    {
        PythonVersion { interpreter: Some(interpreter), ..self }
    }

    pub fn with_architecture(self, architecture: String) -> (r: Self)
        ensures
            r@ == (PythonVersionView { architecture: Some(architecture@), ..self@ }),
    {
        PythonVersion { architecture: Some(architecture), ..self }
    }

    pub fn with_keep_symlink(self, keep_symlink: bool) -> (r: Self)
        ensures
            r@ == (PythonVersionView { keep_symlink, ..self@ }),
    {
        PythonVersion { keep_symlink, ..self }
    }

    /// The path of the executable.
    pub fn executable(&self) -> (r: &str)
        ensures
            r@ == self@.executable,
    {
        self.executable.as_str()
    }

    /// Whether the path is known to be the interpreter itself, so that its
    /// symlinks are kept.
    pub fn keep_symlink(&self) -> (r: bool)
        ensures
            r == self@.keep_symlink,
    {
        self.keep_symlink
    }

    /// The version, once it is known.
    pub fn version(&self) -> (r: Option<&Version>)
        ensures
            match r {
                Some(v) => self@.version == Some(v@),
                None => self@.version is None,
            },
    {
        self.version.as_ref()
    }

    /// The interpreter that this path runs, once it is known.
    pub fn interpreter(&self) -> (r: Option<&String>)
        ensures
            match r {
                Some(v) => self@.interpreter == Some(v@),
                None => self@.interpreter is None,
            },
    {
        self.interpreter.as_ref()
    }

    /// The architecture, such as `64bit`, once it is known.
    pub fn architecture(&self) -> (r: Option<&String>)
        ensures
            match r {
                Some(v) => self@.architecture == Some(v@),
                None => self@.architecture is None,
            },
    {
        self.architecture.as_ref()
    }

    /// Whether the version is known.
    pub fn is_valid(&self) -> (r: bool)
        ensures
            r == self@.version is Some,
    {
        self.version.is_some()
    }

    /// Takes in the outcome of a version probe. A known version is kept
    /// as it is; otherwise a printed version is read and kept, and a failed
    /// probe or unreadable output leaves it unknown, to be probed again.
    pub fn record_version(&mut self, outcome: Result<String, ProbeError>) -> (r: Result<
        (),
        ProbeError,
    >)
        ensures
            old(self)@.version is Some ==> r is Ok && final(self)@ == old(self)@,
            old(self)@.version is None ==> match outcome {
                Err(e) => r == Err::<(), ProbeError>(e) && final(self)@ == old(self)@,
                Ok(s) => match version_of_output(s@) {
                    Some(v) => r is Ok && final(self)@ == (PythonVersionView {
                        version: Some(v),
                        ..old(self)@
                    }),
                    None => r matches Err(ProbeError::InvalidVersion { output: o }) && o@ == s@
                        && final(self)@ == old(self)@,
                },
            },
    {
        if self.version.is_some() {
            return Ok(());
        }
        match outcome {
            Err(e) => Err(e),
            Ok(s) => match Version::from_output(s.as_str()) {
                Some(v) => {
                    self.version = Some(v);
                    Ok(())
                },
                None => Err(ProbeError::InvalidVersion { output: s }),
            },
        }
    }

    /// Takes in the outcome of an interpreter probe: the printed path,
    /// trimmed, is kept unless one is known already.
    pub fn record_interpreter(&mut self, outcome: Result<String, ProbeError>) -> (r: Result<
        (),
        ProbeError,
    >)
        ensures
            old(self)@.interpreter is Some ==> r is Ok && final(self)@ == old(self)@,
            old(self)@.interpreter is None ==> match outcome {
                Err(e) => r == Err::<(), ProbeError>(e) && final(self)@ == old(self)@,
                Ok(s) => r is Ok && final(self)@ == (PythonVersionView {
                    interpreter: Some(trimmed(s@)),
                    ..old(self)@
                }),
            },
    {
        if self.interpreter.is_some() {
            return Ok(());
        }
        match outcome {
            Err(e) => Err(e),
            Ok(s) => {
                self.interpreter = Some(trim(s.as_str()));
                Ok(())
            },
        }
    }

    /// Takes in the outcome of an architecture probe: the printed label,
    /// trimmed, is kept unless one is known already.
    pub fn record_architecture(&mut self, outcome: Result<String, ProbeError>) -> (r: Result<
        (),
        ProbeError,
    >)
        ensures
            old(self)@.architecture is Some ==> r is Ok && final(self)@ == old(self)@,
            old(self)@.architecture is None ==> match outcome {
                Err(e) => r == Err::<(), ProbeError>(e) && final(self)@ == old(self)@,
                Ok(s) => r is Ok && final(self)@ == (PythonVersionView {
                    architecture: Some(trimmed(s@)),
                    ..old(self)@
                }),
            },
    {
        if self.architecture.is_some() {
            return Ok(());
        }
        match outcome {
            Err(e) => Err(e),
            Ok(s) => {
                self.architecture = Some(trim(s.as_str()));
                Ok(())
            },
        }
    }
}

/// The release number at `i` is `want`, when one is wanted.
pub open spec fn release_is(r: Seq<u64>, i: int, want: Option<usize>) -> bool {
    match want {
        None => true,
        Some(m) => 0 <= i < r.len() && r[i] as int == m as int,
    }
}

/// A part is present exactly when it is wanted, if that is asked.
pub open spec fn flag_is(has: bool, want: Option<bool>) -> bool {
    match want {
        None => true,
        Some(b) => has == b,
    }
}

/// A candidate satisfies a specification: its file name and architecture
/// are those asked for, and its version is known and agrees with every
/// release number and flag asked for.
pub open spec fn candidate_matches(p: PythonVersionView, o: MatchSpec) -> bool {
    &&& match o.name {
        None => true,
        Some(n) => file_name(p.executable) == Some(n),
    }
    &&& match o.architecture {
        None => true,
        Some(a) => p.architecture == Some(a),
    }
    &&& match p.version {
        None => false,
        Some(v) => {
            &&& release_is(v.release, 0, o.major)
            &&& release_is(v.release, 1, o.minor)
            &&& release_is(v.release, 2, o.patch)
            &&& flag_is(v.dev is Some, o.dev)
            &&& flag_is(v.pre is Some, o.pre)
        },
    }
}

fn release_is_exec(r: &Vec<u64>, i: usize, want: Option<usize>) -> (b: bool)
    ensures
        b == release_is(r@, i as int, want),
{
    match want {
        None => true,
        Some(m) => i < r.len() && r[i] as u128 == m as u128,
    }
}

fn flag_is_exec(has: bool, want: Option<bool>) -> (b: bool)
    ensures
        b == flag_is(has, want),
{
    match want {
        None => true,
        Some(w) => has == w,
    }
}

impl PythonVersion {
    /// Whether this candidate satisfies `options`, going by the facts known
    /// so far: an unknown version or architecture does not match.
    pub fn matches(&self, options: &MatchOptions) -> (r: bool)
        ensures
            r == candidate_matches(self@, options@),
    {
        if let Some(name) = &options.name {
            let p = chars_of(self.executable.as_str());
            let n = chars_of(name.as_str());
            let same = match file_name_start(&p) {
                None => false,
                Some(k) => tail_eq(&p, k, &n),
            };
            if !same {
                return false;
            }
        }
        if let Some(arch) = &options.architecture {
            match &self.architecture {
                None => return false,
                Some(a) => if !(*a == *arch) {
                    return false;
                },
            }
        }
        match &self.version {
            None => false,
            Some(v) => {
                release_is_exec(&v.release, 0, options.major) && release_is_exec(
                    &v.release,
                    1,
                    options.minor,
                ) && release_is_exec(&v.release, 2, options.patch) && flag_is_exec(
                    v.is_dev(),
                    options.dev,
                ) && flag_is_exec(v.is_pre(), options.pre)
            },
        }
    }
}

pub open spec fn name_text(path: Seq<char>) -> Seq<char> {
    match file_name(path) {
        Some(n) => n,
        None => Seq::empty(),
    }
}

pub open spec fn version_or_invalid(v: Option<VersionView>) -> Seq<char> {
    match v {
        Some(x) => version_text(x),
        None => "INVALID"@,
    }
}

/// How a candidate is shown: `<file name> <version> @ <path>`, with
/// `INVALID` for an unknown version.
pub open spec fn display_text(p: PythonVersionView) -> Seq<char> {
    name_text(p.executable) + " "@ + version_or_invalid(p.version) + " @ "@ + p.executable
}

impl PythonVersion {
    /// The version's text, or `INVALID` when it is unknown.
    pub fn version_string(&self) -> (r: String)
        ensures
            r@ == version_or_invalid(self@.version),
    {
        match &self.version {
            Some(v) => v.to_string(),
            None => String::from_str("INVALID"),
        }
    }

    /// The candidate as shown to people (see [`display_text`]).
    pub fn to_string(&self) -> (r: String)
        ensures
            r@ == display_text(self@),
    {
        let p = chars_of(self.executable.as_str());
        let mut s = match file_name_start(&p) {
            Some(k) => String::from_str(self.executable.as_str().substring_char(k, p.len())),
            None => String::new(),
        };
        s.append(" ");
        let v = self.version_string();
        s.append(v.as_str());
        s.append(" @ ");
        s.append(self.executable.as_str());
        s
    }
}

} // verus!
