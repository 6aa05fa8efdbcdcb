//! The match specification, and the finder that filters, deduplicates and
//! ranks candidates.
use vstd::prelude::*;
use crate::helpers::{suffix_preference, suffix_rank};
use crate::providers::{python_views, default_provider_kinds, default_providers, get_provider, provider_of_name, ProviderKind};
use crate::python::{candidate_matches, PythonVersion, PythonVersionView};
use crate::version::{lemma_final_above_prerelease, lemma_version_cmp_antisymmetric, lemma_version_cmp_reflexive, lemma_version_cmp_transitive, version_cmp};
use std::cmp::Ordering;
use crate::text::{all_digits, char_is_digit, chars_of, decimal_value, is_digit, parse_decimal, tail_eq};

verus! {

/// A filter over candidates; an absent field imposes nothing.
#[derive(Clone, Debug, PartialEq, Eq)]
pub struct MatchOptions {
    /// The first release number.
    pub major: Option<usize>,
    /// The second release number.
    pub minor: Option<usize>,
    /// The third release number.
    pub patch: Option<usize>,
    /// Whether the version must (or must not) be a pre-release.
    pub pre: Option<bool>,
    /// Whether the version must (or must not) be a dev-release.
    pub dev: Option<bool>,
    /// The exact file name of the executable.
    pub name: Option<String>,
    /// The exact architecture label, such as `64bit`.
    pub architecture: Option<String>,
}

/// The mathematical value of [`MatchOptions`].
pub struct MatchSpec {
    pub major: Option<usize>,
    pub minor: Option<usize>,
    pub patch: Option<usize>,
    pub pre: Option<bool>,
    pub dev: Option<bool>,
    pub name: Option<Seq<char>>,
    pub architecture: Option<Seq<char>>,
}

pub open spec fn str_opt(s: Option<String>) -> Option<Seq<char>> {
    match s {
        Some(x) => Some(x@),
        None => None,
    }
}

impl View for MatchOptions {
    type V = MatchSpec;

    open spec fn view(&self) -> MatchSpec {
        MatchSpec {
            major: self.major,
            minor: self.minor,
            patch: self.patch,
            pre: self.pre,
            dev: self.dev,
            name: str_opt(self.name),
            architecture: str_opt(self.architecture),
        }
    }
}

pub open spec fn empty_spec() -> MatchSpec {
    MatchSpec {
        major: None,
        minor: None,
        patch: None,
        pre: None,
        dev: None,
        name: None,
        architecture: None,
    }
}

impl Default for MatchOptions {
    fn default() -> (r: Self)
        ensures
            r@ == empty_spec(),
    {
        MatchOptions {
            major: None,
            minor: None,
            patch: None,
            pre: None,
            dev: None,
            name: None,
            architecture: None,
        }
    }
}

/// End of the run of digits that starts at `i`.
pub open spec fn digit_end(s: Seq<char>, i: int) -> int
    decreases s.len() - i,
{
    if 0 <= i < s.len() && is_digit(s[i]) {
        digit_end(s, i + 1)
    } else {
        i
    }
}

/// `s` holds the word `w` at position `i`.
pub open spec fn word_at(s: Seq<char>, i: int, w: Seq<char>) -> bool {
    0 <= i && i + w.len() <= s.len() && s.subrange(i, i + w.len()) == w
}

/// Length of the pre-release tag at `i`: `rc` and `dev` and the single
/// letters `a`, `b` and `c`; 0 when there is none.
pub open spec fn tag_len(s: Seq<char>, i: int) -> int {
    if word_at(s, i, "rc"@) {
        2
    } else if word_at(s, i, "dev"@) {
        3
    } else if word_at(s, i, "a"@) || word_at(s, i, "b"@) || word_at(s, i, "c"@) {
        1
    } else {
        0
    }
}

/// `s` holds the word `w` at `i`, followed by at least one digit.
pub open spec fn number_after(s: Seq<char>, i: int, w: Seq<char>) -> bool {
    word_at(s, i, w) && digit_end(s, i + w.len()) > i + w.len()
}

/// Past the word `w` and the digits after it, when [`number_after`] holds;
/// else `i`.
pub open spec fn end_after(s: Seq<char>, i: int, w: Seq<char>) -> int {
    if number_after(s, i, w) {
        digit_end(s, i + w.len())
    } else {
        i
    }
}

/// The architecture written at `i`: `-32` or `-64`.
pub open spec fn arch_at(s: Seq<char>, i: int) -> Option<Seq<char>> {
    if word_at(s, i, "-32"@) {
        Some("32bit"@)
    } else if word_at(s, i, "-64"@) {
        Some("64bit"@)
    } else {
        None
    }
}

/// A version literal, read in full:
/// `MAJOR[.MINOR[.PATCH]][TAG[N]][.postN][.devN][-32|-64]`, where TAG is one
/// of `a`, `b`, `c`, `rc`, `dev`. A tag means a pre-release, `.devN` a
/// dev-release, and the last part the architecture. `None` when `s` is not
/// such a literal, or a number in it does not fit in a `usize`.
pub open spec fn version_literal(s: Seq<char>) -> Option<MatchSpec> {
    let a = digit_end(s, 0);
    let has_minor = number_after(s, a, "."@);
    let b = end_after(s, a, "."@);
    let has_patch = has_minor && number_after(s, b, "."@);
    let c = if has_minor {
        end_after(s, b, "."@)
    } else {
        b
    };
    let t = tag_len(s, c);
    let d = digit_end(s, c + t);
    let e = end_after(s, d, ".post"@);
    let has_dev = number_after(s, e, ".dev"@);
    let f = end_after(s, e, ".dev"@);
    let arch = arch_at(s, f);
    let g = if arch is Some {
        f + 3
    } else {
        f
    };
    let major = decimal_value(s.subrange(0, a));
    let minor = decimal_value(s.subrange(a + 1, b));
    let patch = decimal_value(s.subrange(b + 1, c));
    if a > 0 && g == s.len() && major <= usize::MAX && (has_minor ==> minor <= usize::MAX) && (
    has_patch ==> patch <= usize::MAX) {
        Some(
            MatchSpec {
                major: Some(major as usize),
                minor: if has_minor {
                    Some(minor as usize)
                } else {
                    None
                },
                patch: if has_patch {
                    Some(patch as usize)
                } else {
                    None
                },
                pre: if t > 0 {
                    Some(true)
                } else {
                    None
                },
                dev: if has_dev {
                    Some(true)
                } else {
                    None
                },
                name: None,
                architecture: arch,
            },
        )
    } else {
        None
    }
}

proof fn lemma_digit_end(s: Seq<char>, i: int)
    requires
        0 <= i <= s.len(),
    ensures
        i <= digit_end(s, i) <= s.len(),
        all_digits(s.subrange(i, digit_end(s, i))),
        digit_end(s, i) < s.len() ==> !is_digit(s[digit_end(s, i)]),
    decreases s.len() - i,
{
    if i < s.len() && is_digit(s[i]) {
        lemma_digit_end(s, i + 1);
        let j = digit_end(s, i);
        assert forall|k: int| 0 <= k < j - i implies is_digit(#[trigger] s.subrange(i, j)[k]) by {
            if k > 0 {
                assert(s.subrange(i, j)[k] == s.subrange(i + 1, j)[k - 1]);
            }
        }
    }
}

fn digits_from(s: &Vec<char>, i: usize) -> (r: usize)
    requires
        i <= s@.len(),
    ensures
        r == digit_end(s@, i as int),
        i <= r <= s@.len(),
        all_digits(s@.subrange(i as int, r as int)),
{
    proof {
        lemma_digit_end(s@, i as int);
    }
    let mut j: usize = i;
    while j < s.len() && char_is_digit(s[j])
        invariant
            i <= j <= s@.len(),
            digit_end(s@, i as int) == digit_end(s@, j as int),
        decreases s@.len() - j,
    {
        j = j + 1;
    }
    j
}

fn word_at_exec(s: &Vec<char>, i: usize, w: &str) -> (r: bool)
    ensures
        r == word_at(s@, i as int, w@),
{
    let x = chars_of(w);
    let sl = s.len();
    if x.len() > s.len() || i > s.len() - x.len() {
        return false;
    }
    let mut k: usize = 0;
    while k < x.len()
        invariant
            i + x@.len() <= s@.len(),
            sl == s@.len(),
            x@ == w@,
            k <= x@.len(),
            forall|m: int| 0 <= m < k ==> s@[i + m] == x@[m],
        decreases x@.len() - k,
    {
        if s[i + k] != x[k] {
            assert(s@.subrange(i as int, i + x@.len())[k as int] != w@[k as int]);
            return false;
        }
        k = k + 1;
    }
    assert(s@.subrange(i as int, i + x@.len()) =~= w@);
    true
}

fn tag_len_exec(s: &Vec<char>, i: usize) -> (r: usize)
    ensures
        r == tag_len(s@, i as int),
{
    if word_at_exec(s, i, "rc") {
        2
    } else if word_at_exec(s, i, "dev") {
        3
    } else if word_at_exec(s, i, "a") || word_at_exec(s, i, "b") || word_at_exec(s, i, "c") {
        1
    } else {
        0
    }
}

fn number_after_exec(s: &Vec<char>, i: usize, w: &str) -> (r: (bool, usize))
    requires
        i <= s@.len(),
    ensures
        r.0 == number_after(s@, i as int, w@),
        r.1 == end_after(s@, i as int, w@),
        i <= r.1 <= s@.len(),
        r.0 ==> all_digits(s@.subrange(i + w@.len(), r.1 as int)) && i + w@.len() <= r.1,
{
    let x = chars_of(w);
    let sl = s.len();
    if !word_at_exec(s, i, w) {
        return (false, i);
    }
    let j = i + x.len();
    let k = digits_from(s, j);
    if k > j {
        (true, k)
    } else {
        (false, i)
    }
}

fn arch_at_exec(s: &Vec<char>, i: usize) -> (r: Option<String>)
    ensures
        str_opt(r) == arch_at(s@, i as int),
        r is Some ==> i + 3 <= s@.len(),
{
    proof {
        reveal_strlit("-32");
        reveal_strlit("-64");
    }
    if word_at_exec(s, i, "-32") {
        Some(String::from_str("32bit"))
    } else if word_at_exec(s, i, "-64") {
        Some(String::from_str("64bit"))
    } else {
        None
    }
}

impl MatchOptions {
    /// Reads `version` as a version literal (see [`version_literal`]).
    pub fn from_version(version: &str) -> (r: Option<Self>)
        ensures
            match r {
                Some(o) => version_literal(version@) == Some(o@),
                None => version_literal(version@) is None,
            },
    {
        proof {
            reveal_strlit(".");
        }
        let s = chars_of(version);
        let n = s.len();
        let a = digits_from(&s, 0);
        let (has_minor, b) = number_after_exec(&s, a, ".");
        let (has_patch0, c0) = number_after_exec(&s, b, ".");
        let has_patch = has_minor && has_patch0;
        let c = if has_minor {
            c0
        } else {
            b
        };
        let t = tag_len_exec(&s, c);
        proof {
            if t > 0 {
                reveal_strlit("rc");
                reveal_strlit("dev");
                reveal_strlit("a");
                reveal_strlit("b");
                reveal_strlit("c");
            }
        }
        if t > n - c {
            return None;
        }
        let d = digits_from(&s, c + t);
        let (_, e) = number_after_exec(&s, d, ".post");
        let (has_dev, f) = number_after_exec(&s, e, ".dev");
        let architecture = arch_at_exec(&s, f);
        let g = if architecture.is_some() {
            f + 3
        } else {
            f
        };
        if a == 0 || g != n {
            return None;
        }
        let major = match parse_decimal(&s, 0, a) {
            Some(x) => x,
            None => return None,
        };
        let minor = if has_minor {
            match parse_decimal(&s, a + 1, b) {
                Some(x) => Some(x),
                None => return None,
            }
        } else {
            None
        };
        let patch = if has_patch {
            match parse_decimal(&s, b + 1, c) {
                Some(x) => Some(x),
                None => return None,
            }
        } else {
            None
        };
        Some(
            MatchOptions {
                major: Some(major),
                minor,
                patch,
                pre: if t > 0 {
                    Some(true)
                } else {
                    None
                },
                dev: if has_dev {
                    Some(true)
                } else {
                    None
                },
                name: None,
                architecture,
            },
        )
    }
}

/// The effect of a query string on the options `base`: a version literal
/// fills the fields that `base` leaves unset, fields set in `base` winning;
/// any other string becomes the file name to match.
pub open spec fn query_spec(base: MatchSpec, query: Seq<char>) -> MatchSpec {
    match version_literal(query) {
        Some(o) => merged(o, base),
        None => MatchSpec { name: Some(query), ..base },
    }
}

pub open spec fn pick<T>(first: Option<T>, second: Option<T>) -> Option<T> {
    match second {
        Some(x) => Some(x),
        None => first,
    }
}

/// Two specifications merged field by field, those of `second` taking
/// precedence where present.
pub open spec fn merged(first: MatchSpec, second: MatchSpec) -> MatchSpec {
    MatchSpec {
        major: pick(first.major, second.major),
        minor: pick(first.minor, second.minor),
        patch: pick(first.patch, second.patch),
        pre: pick(first.pre, second.pre),
        dev: pick(first.dev, second.dev),
        name: pick(first.name, second.name),
        architecture: pick(first.architecture, second.architecture),
    }
}

fn pick_exec<T>(first: Option<T>, second: Option<T>) -> (r: Option<T>)
    ensures
        r == pick(first, second),
{
    match second {
        Some(x) => Some(x),
        None => first,
    }
}

fn pick_string(first: Option<String>, second: Option<String>) -> (r: Option<String>)
    ensures
        str_opt(r) == pick(str_opt(first), str_opt(second)),
{
    match second {
        Some(x) => Some(x),
        None => first,
    }
}

impl MatchOptions {
    /// Applies a query string: a version literal adds its constraints, the
    /// fields already set here winning; any other string becomes the file
    /// name to match.
    pub fn version_spec(self, version: &str) -> (r: Self)
        ensures
            r@ == query_spec(self@, version@),
    {
        match Self::from_version(version) {
            Some(res) => res.merge(self),
            None => self.name(version),
        }
    }

    /// The options for a query: the query string's own constraints, with
    /// every field set in these options taking precedence.
    pub fn with_query(self, query: Option<&str>) -> (r: Self)
        ensures
            r@ == match query {
                None => self@,
                Some(q) => merged(query_spec(empty_spec(), q@), self@),
            },
    {
        match query {
            None => self,
            Some(q) => MatchOptions::default().version_spec(q).merge(self),
        }
    }

    /// Merges `other` into these options; its present fields win.
    pub fn merge(self, other: MatchOptions) -> (r: Self)
        ensures
            r@ == merged(self@, other@),
    {
        MatchOptions {
            major: pick_exec(self.major, other.major),
            minor: pick_exec(self.minor, other.minor),
            patch: pick_exec(self.patch, other.patch),
            pre: pick_exec(self.pre, other.pre),
            dev: pick_exec(self.dev, other.dev),
            name: pick_string(self.name, other.name),
            architecture: pick_string(self.architecture, other.architecture),
        }
    }

    pub fn major(self, major: usize) -> (r: Self)
        ensures
            r@ == (MatchSpec { major: Some(major), ..self@ }),
    {
        MatchOptions { major: Some(major), ..self }
    }

    pub fn minor(self, minor: usize) -> (r: Self)
        ensures
            r@ == (MatchSpec { minor: Some(minor), ..self@ }),
    {
        MatchOptions { minor: Some(minor), ..self }
    }

    pub fn patch(self, patch: usize) -> (r: Self)
        ensures
            r@ == (MatchSpec { patch: Some(patch), ..self@ }),
    {
        MatchOptions { patch: Some(patch), ..self }
    }

    pub fn pre(self, pre: bool) -> (r: Self)
        ensures
            r@ == (MatchSpec { pre: Some(pre), ..self@ }),
    {
        MatchOptions { pre: Some(pre), ..self }
    }

    pub fn dev(self, dev: bool) -> (r: Self)
        ensures
            r@ == (MatchSpec { dev: Some(dev), ..self@ }),
    {
        MatchOptions { dev: Some(dev), ..self }
    }

    pub fn name(self, name: &str) -> (r: Self)
        ensures
            r@ == (MatchSpec { name: Some(name@), ..self@ }),
    {
        MatchOptions { name: Some(String::from_str(name)), ..self }
    }

    pub fn architecture(self, architecture: &str) -> (r: Self)
        ensures
            r@ == (MatchSpec { architecture: Some(architecture@), ..self@ }),
    {
        MatchOptions { architecture: Some(String::from_str(architecture)), ..self }
    }
}

/// Why a finder could not be configured.
#[derive(Clone, Debug, PartialEq, Eq)]
pub enum FinderError {
    /// A provider name that no provider answers to.
    UnknownProvider { name: String },
}

/// Composes providers and the rules that decide which candidates are the
/// same interpreter. Each setter returns the reconfigured finder.
#[derive(Clone, Debug)]
pub struct Finder {
    providers: Vec<ProviderKind>,
    resolve_symlinks: bool,
    same_file: bool,
    same_interpreter: bool,
}

/// The mathematical value of a [`Finder`].
pub struct FinderView {
    pub providers: Seq<ProviderKind>,
    pub resolve_symlinks: bool,
    pub same_file: bool,
    pub same_interpreter: bool,
}

impl View for Finder {
    type V = FinderView;

    closed spec fn view(&self) -> FinderView {
        FinderView {
            providers: self.providers@,
            resolve_symlinks: self.resolve_symlinks,
            same_file: self.same_file,
            same_interpreter: self.same_interpreter,
        }
    }
}

impl Default for Finder {
    /// The default providers; symlinks kept; copies of one file and paths
    /// to one interpreter both counted as the same.
    fn default() -> (r: Self)
        ensures
            r@ == (FinderView {
                providers: default_providers(),
                resolve_symlinks: false,
                same_file: true,
                same_interpreter: true,
            }),
    {
        Finder {
            providers: default_provider_kinds(),
            resolve_symlinks: false,
            same_file: true,
            same_interpreter: true,
        }
    }
}

/// Every name in `names` is a known provider name.
pub open spec fn all_known(names: Seq<&str>) -> bool {
    forall|i: int| 0 <= i < names.len() ==> (#[trigger] provider_of_name(names[i]@)) is Some
}

impl Finder {
    /// Uses the providers `names`, in that order; fails on the first name
    /// that is not a known provider.
    pub fn select_providers(self, names: &[&str]) -> (r: Result<Self, FinderError>)
        ensures
            all_known(names@) <==> r is Ok,
            r matches Ok(f) ==> f@ == (FinderView {
                providers: f@.providers,
                ..self@
            }) && f@.providers.len() == names@.len() && forall|i: int|
                0 <= i < names@.len() ==> Some(#[trigger] f@.providers[i]) == provider_of_name(
                    names@[i]@,
                ),
            r matches Err(FinderError::UnknownProvider { name }) ==> exists|i: int|
                0 <= i < names@.len() && name@ == names@[i]@ && provider_of_name(names@[i]@)
                    is None && forall|j: int| 0 <= j < i ==> #[trigger] provider_of_name(names@[j]@) is Some,
    {
        let mut kinds: Vec<ProviderKind> = Vec::new();
        let mut i: usize = 0;
        while i < names.len()
            invariant
                i <= names@.len(),
                kinds@.len() == i,
                forall|j: int| 0 <= j < i ==> Some(#[trigger] kinds@[j]) == provider_of_name(names@[j]@),
            decreases names@.len() - i,
        {
            match get_provider(names[i]) {
                Some(k) => kinds.push(k),
                None => {
                    assert(!all_known(names@));
                    assert forall|j: int| 0 <= j < i implies #[trigger] provider_of_name(
                        names@[j]@,
                    ) is Some by {
                        assert(Some(kinds@[j]) == provider_of_name(names@[j]@));
                    }
                    return Err(FinderError::UnknownProvider { name: String::from_str(names[i]) });
                },
            }
            i = i + 1;
        }
        assert forall|j: int| 0 <= j < names@.len() implies (#[trigger] provider_of_name(
            names@[j]@,
        )) is Some by {
            assert(Some(kinds@[j]) == provider_of_name(names@[j]@));
        }
        Ok(Finder { providers: kinds, ..self })
    }

    /// The selected providers, in order.
    pub fn providers(&self) -> (r: &Vec<ProviderKind>)
        ensures
            r@ == self@.providers,
    {
        &self.providers
    }

    pub fn resolve_symlinks(self, resolve_symlinks: bool) -> (r: Self)
        ensures
            r@ == (FinderView { resolve_symlinks, ..self@ }),
    {
        Finder { resolve_symlinks, ..self }
    }

    pub fn same_file(self, same_file: bool) -> (r: Self)
        ensures
            r@ == (FinderView { same_file, ..self@ }),
    {
        Finder { same_file, ..self }
    }

    pub fn same_interpreter(self, same_interpreter: bool) -> (r: Self)
        ensures
            r@ == (FinderView { same_interpreter, ..self@ }),
    {
        Finder { same_interpreter, ..self }
    }
}

/// A candidate with the filesystem facts that deduplication may need.
pub struct Candidate {
    pub python: PythonVersion,
    /// The executable path is itself a symbolic link.
    pub is_symlink: bool,
    /// The path with every symlink resolved, when that succeeded.
    pub real_path: Option<String>,
    /// The hash of the file's contents, when it could be read.
    pub content_hash: Option<String>,
}

/// The mathematical value of a [`Candidate`].
pub struct CandidateView {
    pub python: PythonVersionView,
    pub is_symlink: bool,
    pub real_path: Option<Seq<char>>,
    pub content_hash: Option<Seq<char>>,
}

impl View for Candidate {
    type V = CandidateView;

    open spec fn view(&self) -> CandidateView {
        CandidateView {
            python: self.python@,
            is_symlink: self.is_symlink,
            real_path: str_opt(self.real_path),
            content_hash: str_opt(self.content_hash),
        }
    }
}

/// Which fact identifies a candidate when duplicates are removed.
#[derive(Clone, Copy, Debug, PartialEq, Eq, Structural)]
pub enum KeySource {
    /// The interpreter that the path runs.
    Interpreter,
    /// The hash of the file's contents.
    ContentHash,
    /// The path with symlinks resolved.
    RealPath,
    /// The path as found.
    Executable,
}

/// The identifying fact, by the finder's settings in a fixed priority.
pub open spec fn key_source(f: FinderView, keep_symlink: bool) -> KeySource {
    if !f.same_interpreter {
        KeySource::Interpreter
    } else if !f.same_file {
        KeySource::ContentHash
    } else if f.resolve_symlinks && !keep_symlink {
        KeySource::RealPath
    } else {
        KeySource::Executable
    }
}

/// The deduplication key of a candidate; none when the fact it needs is
/// unknown. An unresolvable path stands for itself.
pub open spec fn dedup_key(f: FinderView, c: CandidateView) -> Option<Seq<char>> {
    match key_source(f, c.python.keep_symlink) {
        KeySource::Interpreter => c.python.interpreter,
        KeySource::ContentHash => c.content_hash,
        KeySource::RealPath => match c.real_path {
            Some(p) => Some(p),
            None => Some(c.python.executable),
        },
        KeySource::Executable => Some(c.python.executable),
    }
}

/// A candidate can be ranked: its version and its key are known.
pub open spec fn rankable(f: FinderView, c: CandidateView) -> bool {
    c.python.version is Some && dedup_key(f, c) is Some
}

/// The rankable candidates of `s`, in order.
pub open spec fn rankable_of(f: FinderView, s: Seq<CandidateView>) -> Seq<CandidateView>
    decreases s.len(),
{
    if s.len() == 0 {
        s
    } else if rankable(f, s.last()) {
        rankable_of(f, s.drop_last()).push(s.last())
    } else {
        rankable_of(f, s.drop_last())
    }
}

/// The candidates of `s` that satisfy `o`, in order.
pub open spec fn matching_of(s: Seq<CandidateView>, o: MatchSpec) -> Seq<CandidateView>
    decreases s.len(),
{
    if s.len() == 0 {
        s
    } else if candidate_matches(s.last().python, o) {
        matching_of(s.drop_last(), o).push(s.last())
    } else {
        matching_of(s.drop_last(), o)
    }
}

/// Preference among paths to one interpreter: `a` goes first when, in
/// turn, it is not a symlink where `b` is, has the barer suffix, or has
/// the longer path.
pub open spec fn preferred(a: CandidateView, b: CandidateView) -> bool {
    let sa: int = if a.is_symlink { 1 } else { 0 };
    let sb: int = if b.is_symlink { 1 } else { 0 };
    let ra = suffix_rank(a.python.executable) as int;
    let rb = suffix_rank(b.python.executable) as int;
    let la = a.python.executable.len() as int;
    let lb = b.python.executable.len() as int;
    sa < sb || (sa == sb && (ra < rb || (ra == rb && la > lb)))
}

/// Final ranking: `a` goes first when its version is higher, or the
/// versions are equal and its path is shorter.
pub open spec fn ranks_before(a: CandidateView, b: CandidateView) -> bool {
    match (a.python.version, b.python.version) {
        (Some(va), Some(vb)) => version_cmp(va, vb) > 0 || (version_cmp(va, vb) == 0
            && a.python.executable.len() < b.python.executable.len()),
        _ => false,
    }
}

/// `a` goes strictly before `b`: by rank when `by_rank`, else by
/// preference.
pub open spec fn goes_before(by_rank: bool, a: CandidateView, b: CandidateView) -> bool {
    if by_rank {
        ranks_before(a, b)
    } else {
        preferred(a, b)
    }
}

/// Where a stable insertion puts `x` into `s`: before the first element
/// that `x` goes strictly before.
pub open spec fn insert_pos(by_rank: bool, x: CandidateView, s: Seq<CandidateView>) -> int
    decreases s.len(),
{
    if s.len() == 0 {
        0
    } else if goes_before(by_rank, x, s[0]) {
        0
    } else {
        1 + insert_pos(by_rank, x, s.skip(1))
    }
}

/// `s` sorted stably: elements that neither goes before the other keep
/// their order.
pub open spec fn sorted_by(by_rank: bool, s: Seq<CandidateView>) -> Seq<CandidateView>
    decreases s.len(),
{
    if s.len() == 0 {
        s
    } else {
        let t = sorted_by(by_rank, s.drop_last());
        let p = insert_pos(by_rank, s.last(), t);
        t.take(p).push(s.last()) + t.skip(p)
    }
}

/// Some element of `d` has the key of `c`.
pub open spec fn key_taken(f: FinderView, d: Seq<CandidateView>, c: CandidateView) -> bool {
    exists|j: int| 0 <= j < d.len() && dedup_key(f, #[trigger] d[j]) == dedup_key(f, c)
}

/// `s` with each candidate dropped whose key an earlier one has.
pub open spec fn keep_first(f: FinderView, s: Seq<CandidateView>) -> Seq<CandidateView>
    decreases s.len(),
{
    if s.len() == 0 {
        s
    } else {
        let d = keep_first(f, s.drop_last());
        if key_taken(f, d, s.last()) {
            d
        } else {
            d.push(s.last())
        }
    }
}

/// Deduplication and ranking: the rankable candidates, in order of
/// preference, the first of each key kept, then in order of rank.
pub open spec fn ranked(f: FinderView, s: Seq<CandidateView>) -> Seq<CandidateView> {
    sorted_by(true, keep_first(f, sorted_by(false, rankable_of(f, s))))
}

pub open spec fn views(s: Seq<Candidate>) -> Seq<CandidateView> {
    s.map_values(|c: Candidate| c@)
}

pub open spec fn pythons(s: Seq<CandidateView>) -> Seq<PythonVersionView> {
    s.map_values(|c: CandidateView| c.python)
}

fn path_len(c: &Candidate) -> (r: usize)
    ensures
        r == c@.python.executable.len(),
{
    c.python.executable().unicode_len()
}

fn goes_before_exec(by_rank: bool, a: &Candidate, b: &Candidate) -> (r: bool)
    ensures
        r == goes_before(by_rank, a@, b@),
{
    if by_rank {
        match (a.python.version(), b.python.version()) {
            (Some(va), Some(vb)) => {
                let c = va.compare(vb);
                match c {
                    Ordering::Greater => true,
                    Ordering::Equal => path_len(a) < path_len(b),
                    Ordering::Less => false,
                }
            },
            _ => false,
        }
    } else {
        let sa: u8 = if a.is_symlink { 1 } else { 0 };
        let sb: u8 = if b.is_symlink { 1 } else { 0 };
        let ra = suffix_preference(a.python.executable());
        let rb = suffix_preference(b.python.executable());
        let la = path_len(a);
        let lb = path_len(b);
        sa < sb || (sa == sb && (ra < rb || (ra == rb && la > lb)))
    }
}

/// Sorts stably, by rank when `by_rank`, else by preference.
fn sort_candidates(v: Vec<Candidate>, by_rank: bool) -> (r: Vec<Candidate>)
    ensures
        views(r@) == sorted_by(by_rank, views(v@)),
{
    let ghost all = views(v@);
    let mut input = v;
    let mut out: Vec<Candidate> = Vec::new();
    let ghost mut done: int = 0;
    assert(all.take(0) =~= Seq::<CandidateView>::empty());
    assert(views(out@) =~= Seq::<CandidateView>::empty());
    while input.len() > 0
        invariant
            0 <= done <= all.len(),
            views(input@) =~= all.skip(done),
            views(out@) == sorted_by(by_rank, all.take(done)),
        decreases input@.len(),
    {
        let ghost old_in = input@;
        proof {
            assert(views(old_in).len() == old_in.len());
            assert(views(old_in)[0] == old_in[0]@);
            assert(done < all.len());
            assert(all.skip(done)[0] == all[done]);
        }
        let x = input.remove(0);
        proof {
            assert(x@ == all[done]);
            assert(views(input@) =~= views(old_in).skip(1));
            assert(all.skip(done).skip(1) =~= all.skip(done + 1));
        }
        let ghost t = views(out@);
        let mut j: usize = 0;
        assert(t.skip(0) =~= t);
        while j < out.len() && !goes_before_exec(by_rank, &x, &out[j])
            invariant
                j <= out@.len(),
                t == views(out@),
                insert_pos(by_rank, x@, t) == j + insert_pos(by_rank, x@, t.skip(j as int)),
            decreases out@.len() - j,
        {
            assert(t.skip(j as int)[0] == t[j as int]);
            assert(t.skip(j as int).skip(1) =~= t.skip(j + 1));
            j = j + 1;
        }
        proof {
            if j < t.len() {
                assert(t.skip(j as int)[0] == t[j as int]);
            }
        }
        out.insert(j, x);
        proof {
            let s2 = all.take(done + 1);
            assert(s2.drop_last() =~= all.take(done));
            assert(s2.last() == x@);
            assert(views(out@) =~= t.take(j as int).push(x@) + t.skip(j as int));
            done = done + 1;
        }
    }
    assert(all.take(done) =~= all);
    out
}

impl Finder {
    /// Which fact identifies a candidate with the given `keep_symlink` flag.
    pub fn key_source(&self, keep_symlink: bool) -> (r: KeySource)
        ensures
            r == key_source(self@, keep_symlink),
    {
        if !self.same_interpreter {
            KeySource::Interpreter
        } else if !self.same_file {
            KeySource::ContentHash
        } else if self.resolve_symlinks && !keep_symlink {
            KeySource::RealPath
        } else {
            KeySource::Executable
        }
    }

    /// The deduplication key of a candidate, when the fact it needs is known.
    pub fn deduplicate_key<'a>(&self, c: &'a Candidate) -> (r: Option<&'a str>)
        ensures
            match r {
                Some(k) => dedup_key(self@, c@) == Some(k@),
                None => dedup_key(self@, c@) is None,
            },
    {
        match self.key_source(c.python.keep_symlink()) {
            KeySource::Interpreter => match c.python.interpreter() {
                Some(i) => Some(i.as_str()),
                None => None,
            },
            KeySource::ContentHash => match &c.content_hash {
                Some(h) => Some(h.as_str()),
                None => None,
            },
            KeySource::RealPath => match &c.real_path {
                Some(p) => Some(p.as_str()),
                None => Some(c.python.executable()),
            },
            KeySource::Executable => Some(c.python.executable()),
        }
    }
}

pub open spec fn opt_seq(k: Option<&str>) -> Option<Seq<char>> {
    match k {
        Some(x) => Some(x@),
        None => None,
    }
}

fn same_key(a: Option<&str>, b: Option<&str>) -> (r: bool)
    ensures
        r == (opt_seq(a) == opt_seq(b)),
{
    match (a, b) {
        (Some(x), Some(y)) => {
            let xs = chars_of(x);
            let ys = chars_of(y);
            assert(xs@.skip(0) =~= xs@);
            tail_eq(&xs, 0, &ys)
        },
        (None, None) => true,
        _ => false,
    }
}

impl Finder {
    fn rankable_only(&self, v: Vec<Candidate>) -> (r: Vec<Candidate>)
        ensures
            views(r@) == rankable_of(self@, views(v@)),
    {
        let ghost all = views(v@);
        let mut input = v;
        let mut out: Vec<Candidate> = Vec::new();
        let ghost mut done: int = 0;
        assert(all.take(0) =~= Seq::<CandidateView>::empty());
        assert(views(out@) =~= Seq::<CandidateView>::empty());
        while input.len() > 0
            invariant
                0 <= done <= all.len(),
                views(input@) =~= all.skip(done),
                views(out@) == rankable_of(self@, all.take(done)),
            decreases input@.len(),
        {
            let ghost old_in = input@;
            let ghost old_out = views(out@);
            proof {
                assert(views(old_in).len() == old_in.len());
                assert(views(old_in)[0] == old_in[0]@);
                assert(all.skip(done)[0] == all[done]);
            }
            let x = input.remove(0);
            proof {
                assert(views(input@) =~= views(old_in).skip(1));
                assert(all.skip(done).skip(1) =~= all.skip(done + 1));
                assert(all.take(done + 1).drop_last() =~= all.take(done));
            }
            let keep = x.python.version().is_some() && self.deduplicate_key(&x).is_some();
            if keep {
                out.push(x);
                assert(views(out@) =~= old_out.push(x@));
            }
            proof {
                done = done + 1;
            }
        }
        assert(all.take(done) =~= all);
        out
    }

    fn keep_first_only(&self, v: Vec<Candidate>) -> (r: Vec<Candidate>)
        ensures
            views(r@) == keep_first(self@, views(v@)),
    {
        let ghost all = views(v@);
        let mut input = v;
        let mut out: Vec<Candidate> = Vec::new();
        let ghost mut done: int = 0;
        assert(all.take(0) =~= Seq::<CandidateView>::empty());
        assert(views(out@) =~= Seq::<CandidateView>::empty());
        while input.len() > 0
            invariant
                0 <= done <= all.len(),
                views(input@) =~= all.skip(done),
                views(out@) == keep_first(self@, all.take(done)),
            decreases input@.len(),
        {
            let ghost old_in = input@;
            let ghost old_out = views(out@);
            proof {
                assert(views(old_in).len() == old_in.len());
                assert(views(old_in)[0] == old_in[0]@);
                assert(all.skip(done)[0] == all[done]);
            }
            let x = input.remove(0);
            proof {
                assert(views(input@) =~= views(old_in).skip(1));
                assert(all.skip(done).skip(1) =~= all.skip(done + 1));
                assert(all.take(done + 1).drop_last() =~= all.take(done));
            }
            let mut taken = false;
            let mut k: usize = 0;
            while k < out.len()
                invariant
                    k <= out@.len(),
                    old_out == views(out@),
                    taken == exists|j: int|
                        0 <= j < k && dedup_key(self@, #[trigger] old_out[j]) == dedup_key(
                            self@,
                            x@,
                        ),
                decreases out@.len() - k,
            {
                if same_key(self.deduplicate_key(&out[k]), self.deduplicate_key(&x)) {
                    taken = true;
                }
                assert(old_out[k as int] == out@[k as int]@);
                k = k + 1;
            }
            if !taken {
                out.push(x);
                assert(views(out@) =~= old_out.push(x@));
            }
            proof {
                done = done + 1;
            }
        }
        assert(all.take(done) =~= all);
        out
    }

    /// Removes duplicates and ranks: candidates whose version or key is
    /// unknown are left out; the rest are put in order of preference, the
    /// first of each key is kept, and those are ordered best first.
    pub fn deduplicate(&self, versions: Vec<Candidate>) -> (r: Vec<Candidate>)
        ensures
            views(r@) == ranked(self@, views(versions@)),
    {
        let a = self.rankable_only(versions);
        let b = sort_candidates(a, false);
        let c = self.keep_first_only(b);
        sort_candidates(c, true)
    }

    /// The candidates that satisfy `options`, deduplicated and ranked best
    /// first.
    pub fn find_all(&self, candidates: Vec<Candidate>, options: &MatchOptions) -> (r: Vec<
        PythonVersion,
    >)
        ensures
            python_views(r@) == pythons(ranked(self@, matching_of(views(candidates@), options@))),
    {
        let ghost all = views(candidates@);
        let mut input = candidates;
        let mut filtered: Vec<Candidate> = Vec::new();
        let ghost mut done: int = 0;
        assert(all.take(0) =~= Seq::<CandidateView>::empty());
        assert(views(filtered@) =~= Seq::<CandidateView>::empty());
        while input.len() > 0
            invariant
                0 <= done <= all.len(),
                views(input@) =~= all.skip(done),
                views(filtered@) == matching_of(all.take(done), options@),
            decreases input@.len(),
        {
            let ghost old_in = input@;
            let ghost old_out = views(filtered@);
            proof {
                assert(views(old_in).len() == old_in.len());
                assert(views(old_in)[0] == old_in[0]@);
                assert(all.skip(done)[0] == all[done]);
            }
            let x = input.remove(0);
            proof {
                assert(views(input@) =~= views(old_in).skip(1));
                assert(all.skip(done).skip(1) =~= all.skip(done + 1));
                assert(all.take(done + 1).drop_last() =~= all.take(done));
            }
            if x.python.matches(options) {
                filtered.push(x);
                assert(views(filtered@) =~= old_out.push(x@));
            }
            proof {
                done = done + 1;
            }
        }
        assert(all.take(done) =~= all);
        let ranked_cs = self.deduplicate(filtered);
        let ghost rk = views(ranked_cs@);
        let mut rest = ranked_cs;
        let mut out: Vec<PythonVersion> = Vec::new();
        let ghost mut m: int = 0;
        assert(python_views(out@) =~= pythons(rk.take(0)));
        while rest.len() > 0
            invariant
                0 <= m <= rk.len(),
                views(rest@) =~= rk.skip(m),
                python_views(out@) =~= pythons(rk.take(m)),
            decreases rest@.len(),
        {
            let ghost old_rest = rest@;
            proof {
                assert(views(old_rest).len() == old_rest.len());
                assert(views(old_rest)[0] == old_rest[0]@);
                assert(rk.skip(m)[0] == rk[m]);
            }
            let c = rest.remove(0);
            proof {
                assert(views(rest@) =~= views(old_rest).skip(1));
                assert(rk.skip(m).skip(1) =~= rk.skip(m + 1));
            }
            out.push(c.python);
            proof {
                m = m + 1;
                assert(pythons(rk.take(m)) =~= pythons(rk.take(m - 1)).push(rk[m - 1].python));
            }
        }
        assert(rk.take(m) =~= rk);
        out
    }

    /// The best candidate that satisfies `options`, if any does.
    pub fn find(&self, candidates: Vec<Candidate>, options: &MatchOptions) -> (r: Option<
        PythonVersion,
    >)
        ensures
            match r {
                Some(p) => ranked(self@, matching_of(views(candidates@), options@)).len() > 0
                    && p@ == ranked(self@, matching_of(views(candidates@), options@))[0].python,
                None => ranked(self@, matching_of(views(candidates@), options@)).len() == 0,
            },
    {
        let ghost rk = ranked(self@, matching_of(views(candidates@), options@));
        let mut all = self.find_all(candidates, options);
        let ghost pv = python_views(all@);
        assert(pv.len() == all@.len());
        assert(pythons(rk).len() == rk.len());
        if all.len() == 0 {
            None
        } else {
            assert(pv[0] == all@[0]@);
            assert(pythons(rk)[0] == rk[0].python);
            Some(all.remove(0))
        }
    }
}

/// No two candidates of `d` share a key.
pub open spec fn distinct_keys(f: FinderView, d: Seq<CandidateView>) -> bool {
    forall|i: int, j: int|
        0 <= i < j < d.len() ==> dedup_key(f, #[trigger] d[i]) != dedup_key(f, #[trigger] d[j])
}

proof fn lemma_keep_first_distinct(f: FinderView, s: Seq<CandidateView>)
    ensures
        distinct_keys(f, keep_first(f, s)),
    decreases s.len(),
{
    if s.len() > 0 {
        lemma_keep_first_distinct(f, s.drop_last());
        let d = keep_first(f, s.drop_last());
        if !key_taken(f, d, s.last()) {
            let e = d.push(s.last());
            assert forall|i: int, j: int| 0 <= i < j < e.len() implies dedup_key(f, #[trigger] e[i])
                != dedup_key(f, #[trigger] e[j]) by {
                if j == d.len() {
                    assert(e[i] == d[i]);
                    assert(e[j] == s.last());
                } else {
                    assert(e[i] == d[i] && e[j] == d[j]);
                }
            }
        }
    }
}

proof fn lemma_keep_first_of_distinct(f: FinderView, d: Seq<CandidateView>)
    requires
        distinct_keys(f, d),
    ensures
        keep_first(f, d) == d,
    decreases d.len(),
{
    if d.len() > 0 {
        let p = d.drop_last();
        assert forall|i: int, j: int| 0 <= i < j < p.len() implies dedup_key(f, #[trigger] p[i])
            != dedup_key(f, #[trigger] p[j]) by {
            assert(p[i] == d[i] && p[j] == d[j]);
        }
        lemma_keep_first_of_distinct(f, p);
        if key_taken(f, p, d.last()) {
            let j = choose|j: int| 0 <= j < p.len() && dedup_key(f, #[trigger] p[j]) == dedup_key(f, d.last());
            assert(p[j] == d[j]);
            assert(dedup_key(f, d[j]) != dedup_key(f, d[d.len() - 1]));
        }
        assert(p.push(d.last()) =~= d);
    }
}

/// Removing duplicates is idempotent: keeping the first candidate of each
/// key, then doing so again, gives the same sequence as doing it once.
pub proof fn lemma_deduplicate_idempotent(f: FinderView, s: Seq<CandidateView>)
    ensures
        keep_first(f, keep_first(f, s)) == keep_first(f, s),
{
    lemma_keep_first_distinct(f, s);
    lemma_keep_first_of_distinct(f, keep_first(f, s));
}

/// The ranking of candidates with known versions is a strict order: no
/// candidate ranks before itself, two never rank before each other, and it
/// is transitive.
pub proof fn lemma_ranking_strict_order(a: CandidateView, b: CandidateView, c: CandidateView)
    requires
        a.python.version is Some,
        b.python.version is Some,
        c.python.version is Some,
    ensures
        !ranks_before(a, a),
        ranks_before(a, b) ==> !ranks_before(b, a),
        ranks_before(a, b) && ranks_before(b, c) ==> ranks_before(a, c),
{
    let va = a.python.version.unwrap();
    let vb = b.python.version.unwrap();
    let vc = c.python.version.unwrap();
    lemma_version_cmp_reflexive(va);
    lemma_version_cmp_antisymmetric(va, vb);
    lemma_version_cmp_antisymmetric(vb, vc);
    lemma_version_cmp_antisymmetric(va, vc);
    if ranks_before(a, b) && ranks_before(b, c) {
        lemma_version_cmp_transitive(vc, vb, va);
    }
}

/// Of two candidates with the same version numbers, a final release ranks
/// before a pre-release or a dev-release.
pub proof fn lemma_final_release_ranks_first(fin: CandidateView, pre: CandidateView)
    requires
        fin.python.version matches Some(v) && pre.python.version matches Some(w) && v.epoch
            == w.epoch && v.release == w.release && v.pre is None && v.post is None && v.dev is None
            && (w.pre is Some || (w.dev is Some && w.post is None)),
    ensures
        ranks_before(fin, pre),
{
    let v = fin.python.version.unwrap();
    let w = pre.python.version.unwrap();
    lemma_final_above_prerelease(v, w);
    lemma_version_cmp_antisymmetric(v, w);
}

proof fn lemma_sorted_empty(by_rank: bool, s: Seq<CandidateView>)
    requires
        s.len() == 0,
    ensures
        sorted_by(by_rank, s).len() == 0,
{
}

proof fn lemma_matching_none(s: Seq<CandidateView>, o: MatchSpec)
    requires
        forall|i: int| 0 <= i < s.len() ==> !candidate_matches(#[trigger] s[i].python, o),
    ensures
        matching_of(s, o).len() == 0,
    decreases s.len(),
{
    if s.len() > 0 {
        let p = s.drop_last();
        assert forall|i: int| 0 <= i < p.len() implies !candidate_matches(#[trigger] p[i].python, o) by {
            assert(p[i] == s[i]);
        }
        lemma_matching_none(p, o);
        assert(!candidate_matches(s[s.len() - 1].python, o));
    }
}

/// When no candidate satisfies the options, the result is empty, and
/// `find` gives nothing rather than failing.
pub proof fn lemma_no_match_finds_nothing(f: FinderView, s: Seq<CandidateView>, o: MatchSpec)
    requires
        forall|i: int| 0 <= i < s.len() ==> !candidate_matches(#[trigger] s[i].python, o),
    ensures
        ranked(f, matching_of(s, o)).len() == 0,
{
    lemma_matching_none(s, o);
    let m = matching_of(s, o);
    assert(rankable_of(f, m).len() == 0);
    lemma_sorted_empty(false, rankable_of(f, m));
    assert(keep_first(f, sorted_by(false, rankable_of(f, m))).len() == 0);
    lemma_sorted_empty(true, keep_first(f, sorted_by(false, rankable_of(f, m))));
}

/// No element of `s` goes strictly before an earlier one.
pub open spec fn sorted_in(by_rank: bool, s: Seq<CandidateView>) -> bool {
    forall|i: int, j: int|
        0 <= i < j < s.len() ==> !goes_before(by_rank, #[trigger] s[j], #[trigger] s[i])
}

/// Both orders are strict: irreflexive, asymmetric and transitive.
pub proof fn lemma_goes_before_strict(by_rank: bool, a: CandidateView, b: CandidateView, c: CandidateView)
    ensures
        !goes_before(by_rank, a, a),
        goes_before(by_rank, a, b) ==> !goes_before(by_rank, b, a),
        goes_before(by_rank, a, b) && goes_before(by_rank, b, c) ==> goes_before(by_rank, a, c),
{
    if by_rank {
        if a.python.version is Some {
            lemma_ranking_strict_order(a, a, a);
        }
        if a.python.version is Some && b.python.version is Some {
            lemma_ranking_strict_order(a, b, b);
        }
        if a.python.version is Some && b.python.version is Some && c.python.version is Some {
            lemma_ranking_strict_order(a, b, c);
        }
    }
}

proof fn lemma_insert_pos(by_rank: bool, x: CandidateView, t: Seq<CandidateView>)
    ensures
        0 <= insert_pos(by_rank, x, t) <= t.len(),
        forall|i: int| 0 <= i < insert_pos(by_rank, x, t) ==> !goes_before(by_rank, x, #[trigger] t[i]),
        insert_pos(by_rank, x, t) < t.len() ==> goes_before(by_rank, x, t[insert_pos(by_rank, x, t)]),
    decreases t.len(),
{
    if t.len() > 0 && !goes_before(by_rank, x, t[0]) {
        lemma_insert_pos(by_rank, x, t.skip(1));
        let p = insert_pos(by_rank, x, t);
        assert forall|i: int| 0 <= i < p implies !goes_before(by_rank, x, #[trigger] t[i]) by {
            if i > 0 {
                assert(t[i] == t.skip(1)[i - 1]);
            }
        }
        if p < t.len() {
            assert(t[p] == t.skip(1)[p - 1]);
        }
    }
}

proof fn lemma_sorted_by_sorted(by_rank: bool, s: Seq<CandidateView>)
    ensures
        sorted_in(by_rank, sorted_by(by_rank, s)),
        sorted_by(by_rank, s).len() == s.len(),
    decreases s.len(),
{
    if s.len() > 0 {
        lemma_sorted_by_sorted(by_rank, s.drop_last());
        let t = sorted_by(by_rank, s.drop_last());
        let x = s.last();
        lemma_insert_pos(by_rank, x, t);
        let p = insert_pos(by_rank, x, t);
        let u = t.take(p).push(x) + t.skip(p);
        assert(u.len() == t.len() + 1);
        assert forall|i: int, j: int| 0 <= i < j < u.len() implies !goes_before(
            by_rank,
            #[trigger] u[j],
            #[trigger] u[i],
        ) by {
            if j < p {
                assert(u[i] == t[i] && u[j] == t[j]);
            } else if j == p {
                assert(u[i] == t[i] && u[j] == x);
            } else if i < p {
                assert(u[i] == t[i] && u[j] == t[j - 1]);
            } else if i == p {
                assert(u[i] == x && u[j] == t[j - 1]);
                lemma_goes_before_strict(by_rank, t[j - 1], x, t[p]);
                lemma_goes_before_strict(by_rank, x, t[p], t[p]);
                if j - 1 > p {
                    assert(!goes_before(by_rank, t[j - 1], t[p]));
                }
            } else {
                assert(u[i] == t[i - 1] && u[j] == t[j - 1]);
            }
        }
    }
}

proof fn lemma_sorted_by_elements(by_rank: bool, s: Seq<CandidateView>)
    ensures
        forall|x: CandidateView| #[trigger] sorted_by(by_rank, s).contains(x) <==> s.contains(x),
    decreases s.len(),
{
    if s.len() > 0 {
        let d = s.drop_last();
        lemma_sorted_by_elements(by_rank, d);
        let t = sorted_by(by_rank, d);
        let x = s.last();
        lemma_insert_pos(by_rank, x, t);
        let p = insert_pos(by_rank, x, t);
        let u = t.take(p).push(x) + t.skip(p);
        assert forall|y: CandidateView| u.contains(y) <==> s.contains(y) by {
            if u.contains(y) {
                let i = choose|i: int| 0 <= i < u.len() && u[i] == y;
                if i < p {
                    assert(u[i] == t[i]);
                    assert(t.contains(y));
                } else if i > p {
                    assert(u[i] == t[i - 1]);
                    assert(t.contains(y));
                }
                if t.contains(y) {
                    let k = choose|k: int| 0 <= k < d.len() && d[k] == y;
                    assert(s[k] == y);
                } else {
                    assert(s[s.len() - 1] == y);
                }
            }
            if s.contains(y) {
                let i = choose|i: int| 0 <= i < s.len() && s[i] == y;
                if i == s.len() - 1 {
                    assert(u[p] == y);
                } else {
                    assert(d[i] == y);
                    assert(d.contains(y));
                    assert(t.contains(y));
                    let k = choose|k: int| 0 <= k < t.len() && t[k] == y;
                    assert(u.len() == t.len() + 1);
                    if k < p {
                        assert(u[k] == y);
                    } else {
                        assert(u[k + 1] == y);
                    }
                }
            }
        }
    }
}

proof fn lemma_sorted_by_distinct(f: FinderView, by_rank: bool, s: Seq<CandidateView>)
    requires
        distinct_keys(f, s),
    ensures
        distinct_keys(f, sorted_by(by_rank, s)),
    decreases s.len(),
{
    if s.len() > 0 {
        let d = s.drop_last();
        assert forall|i: int, j: int| 0 <= i < j < d.len() implies dedup_key(f, #[trigger] d[i])
            != dedup_key(f, #[trigger] d[j]) by {
            assert(d[i] == s[i] && d[j] == s[j]);
        }
        lemma_sorted_by_distinct(f, by_rank, d);
        lemma_sorted_by_elements(by_rank, d);
        let t = sorted_by(by_rank, d);
        let x = s.last();
        lemma_insert_pos(by_rank, x, t);
        let p = insert_pos(by_rank, x, t);
        let u = t.take(p).push(x) + t.skip(p);
        assert forall|k: int| 0 <= k < t.len() implies dedup_key(f, #[trigger] t[k]) != dedup_key(f, x) by {
            assert(sorted_by(by_rank, d).contains(t[k]));
            let m = choose|m: int| 0 <= m < d.len() && d[m] == t[k];
            assert(s[m] == t[k]);
        }
        assert forall|i: int, j: int| 0 <= i < j < u.len() implies dedup_key(f, #[trigger] u[i])
            != dedup_key(f, #[trigger] u[j]) by {
            if j < p {
                assert(u[i] == t[i] && u[j] == t[j]);
            } else if j == p {
                assert(u[i] == t[i] && u[j] == x);
            } else if i < p {
                assert(u[i] == t[i] && u[j] == t[j - 1]);
            } else if i == p {
                assert(u[i] == x && u[j] == t[j - 1]);
            } else {
                assert(u[i] == t[i - 1] && u[j] == t[j - 1]);
            }
        }
    }
}

proof fn lemma_keep_first_covers(f: FinderView, s: Seq<CandidateView>)
    ensures
        forall|c: CandidateView| #[trigger] s.contains(c) ==> key_taken(f, keep_first(f, s), c),
        forall|d: CandidateView| #[trigger] keep_first(f, s).contains(d) ==> s.contains(d),
        forall|i: int| 0 <= i < keep_first(f, s).len() ==> exists|j: int|
            0 <= j < s.len() && s[j] == #[trigger] keep_first(f, s)[i] && forall|m: int|
                0 <= m < j ==> dedup_key(f, #[trigger] s[m]) != dedup_key(f, s[j]),
    decreases s.len(),
{
    if s.len() > 0 {
        let p = s.drop_last();
        lemma_keep_first_covers(f, p);
        let d = keep_first(f, p);
        let x = s.last();
        let k = keep_first(f, s);
        assert forall|c: CandidateView| #[trigger] s.contains(c) implies key_taken(f, k, c) by {
            let i = choose|i: int| 0 <= i < s.len() && s[i] == c;
            if i < s.len() - 1 {
                assert(p[i] == c);
                assert(p.contains(c));
                let j = choose|j: int| 0 <= j < d.len() && dedup_key(f, #[trigger] d[j]) == dedup_key(f, c);
                assert(k[j] == d[j]);
            } else if !key_taken(f, d, x) {
                assert(k[d.len() as int] == x);
            }
        }
        assert forall|e: CandidateView| #[trigger] k.contains(e) implies s.contains(e) by {
            let i = choose|i: int| 0 <= i < k.len() && k[i] == e;
            if i < d.len() {
                assert(k[i] == d[i]);
                assert(d.contains(e));
                let j = choose|j: int| 0 <= j < p.len() && p[j] == e;
                assert(s[j] == e);
            } else {
                assert(s[s.len() - 1] == e);
            }
        }
        assert forall|i: int| 0 <= i < k.len() implies exists|j: int|
            0 <= j < s.len() && s[j] == #[trigger] k[i] && forall|m: int|
                0 <= m < j ==> dedup_key(f, #[trigger] s[m]) != dedup_key(f, s[j]) by {
            if i < d.len() {
                assert(k[i] == d[i]);
                let j = choose|j: int|
                    0 <= j < p.len() && p[j] == #[trigger] d[i] && forall|m: int|
                        0 <= m < j ==> dedup_key(f, #[trigger] p[m]) != dedup_key(f, p[j]);
                assert(s[j] == p[j]);
                assert forall|m: int| 0 <= m < j implies dedup_key(f, #[trigger] s[m]) != dedup_key(f, s[j]) by {
                    assert(s[m] == p[m]);
                }
            } else {
                let j = s.len() - 1;
                assert(k[i] == x);
                assert forall|m: int| 0 <= m < j implies dedup_key(f, #[trigger] s[m]) != dedup_key(f, s[j]) by {
                    assert(s[m] == p[m]);
                    assert(p.contains(p[m]));
                    if dedup_key(f, s[m]) == dedup_key(f, s[j]) {
                        assert(key_taken(f, d, p[m]));
                        let q = choose|q: int| 0 <= q < d.len() && dedup_key(f, #[trigger] d[q]) == dedup_key(f, p[m]);
                        assert(key_taken(f, d, x));
                    }
                }
            }
        }
    }
}

proof fn lemma_rankable_elements(f: FinderView, s: Seq<CandidateView>)
    ensures
        forall|c: CandidateView| #[trigger] rankable_of(f, s).contains(c) <==> (s.contains(c) && rankable(f, c)),
    decreases s.len(),
{
    if s.len() > 0 {
        let p = s.drop_last();
        lemma_rankable_elements(f, p);
        let rp = rankable_of(f, p);
        let r = rankable_of(f, s);
        let x = s.last();
        assert forall|c: CandidateView| #[trigger] r.contains(c) <==> (s.contains(c) && rankable(f, c)) by {
            if r.contains(c) {
                let i = choose|i: int| 0 <= i < r.len() && r[i] == c;
                if i < rp.len() {
                    assert(r[i] == rp[i]);
                    assert(rp.contains(c));
                    let j = choose|j: int| 0 <= j < p.len() && p[j] == c;
                    assert(s[j] == c);
                } else {
                    assert(rankable(f, x) && r == rp.push(x));
                    assert(s[s.len() - 1] == c);
                }
            }
            if s.contains(c) && rankable(f, c) {
                let i = choose|i: int| 0 <= i < s.len() && s[i] == c;
                if i < s.len() - 1 {
                    assert(p[i] == c);
                    assert(p.contains(c));
                    assert(rp.contains(c));
                    let j = choose|j: int| 0 <= j < rp.len() && rp[j] == c;
                    if rankable(f, x) {
                        assert(r[j] == rp[j]);
                    }
                    assert(r[j] == c);
                } else {
                    assert(r == rp.push(x));
                    assert(r[r.len() - 1] == c);
                }
            }
        }
    }
}

/// What deduplication and ranking give: the result is in order of rank; no
/// two of its candidates share a key; it holds only rankable candidates of
/// the input; every key of a rankable input candidate is kept; and the
/// candidate kept for a key is one that no other input candidate with that
/// key is preferred to.
pub proof fn lemma_ranked_properties(f: FinderView, s: Seq<CandidateView>)
    ensures
        sorted_in(true, ranked(f, s)),
        distinct_keys(f, ranked(f, s)),
        forall|d: CandidateView| #[trigger] ranked(f, s).contains(d) ==> s.contains(d) && rankable(f, d),
        forall|c: CandidateView|
            #[trigger] s.contains(c) && rankable(f, c) ==> key_taken(f, ranked(f, s), c),
        forall|d: CandidateView, c: CandidateView|
            #[trigger] ranked(f, s).contains(d) && #[trigger] s.contains(c) && rankable(f, c)
                && dedup_key(f, c) == dedup_key(f, d) ==> !preferred(c, d),
{
    let r = rankable_of(f, s);
    let p = sorted_by(false, r);
    let k = keep_first(f, p);
    let out = sorted_by(true, k);
    lemma_rankable_elements(f, s);
    lemma_sorted_by_elements(false, r);
    lemma_sorted_by_sorted(false, r);
    lemma_keep_first_covers(f, p);
    lemma_keep_first_distinct(f, p);
    lemma_sorted_by_elements(true, k);
    lemma_sorted_by_sorted(true, k);
    lemma_sorted_by_distinct(f, true, k);
    assert forall|c: CandidateView| #[trigger] s.contains(c) && rankable(f, c) implies key_taken(f, out, c) by {
        assert(r.contains(c));
        assert(p.contains(c));
        assert(key_taken(f, k, c));
        let j = choose|j: int| 0 <= j < k.len() && dedup_key(f, #[trigger] k[j]) == dedup_key(f, c);
        assert(k.contains(k[j]));
        assert(out.contains(k[j]));
        let m = choose|m: int| 0 <= m < out.len() && out[m] == k[j];
    }
    assert forall|d: CandidateView, c: CandidateView|
        #[trigger] out.contains(d) && #[trigger] s.contains(c) && rankable(f, c) && dedup_key(f, c)
            == dedup_key(f, d) implies !preferred(c, d) by {
        assert(k.contains(d));
        let i = choose|i: int| 0 <= i < k.len() && k[i] == d;
        let j = choose|j: int|
            0 <= j < p.len() && p[j] == #[trigger] k[i] && forall|m: int|
                0 <= m < j ==> dedup_key(f, #[trigger] p[m]) != dedup_key(f, p[j]);
        assert(r.contains(c));
        assert(p.contains(c));
        let q = choose|q: int| 0 <= q < p.len() && p[q] == c;
        if q < j {
            assert(dedup_key(f, p[q]) != dedup_key(f, p[j]));
        } else if q == j {
            lemma_goes_before_strict(false, c, c, c);
        } else {
            assert(!goes_before(false, p[q], p[j]));
        }
    }
    assert forall|d: CandidateView| #[trigger] out.contains(d) implies s.contains(d) && rankable(f, d) by {
        assert(k.contains(d));
        assert(p.contains(d));
        assert(r.contains(d));
    }
}

/// In the result, a final release comes before every pre-release or
/// dev-release of the same version numbers.
pub proof fn lemma_final_release_first_in_result(f: FinderView, s: Seq<CandidateView>, i: int, j: int)
    requires
        0 <= i < ranked(f, s).len(),
        0 <= j < ranked(f, s).len(),
        ranked(f, s)[i].python.version matches Some(v) && ranked(f, s)[j].python.version matches Some(w)
            && v.epoch == w.epoch && v.release == w.release && v.pre is None && v.post is None
            && v.dev is None && (w.pre is Some || (w.dev is Some && w.post is None)),
    ensures
        i < j,
{
    lemma_ranked_properties(f, s);
    let out = ranked(f, s);
    lemma_final_release_ranks_first(out[i], out[j]);
    lemma_goes_before_strict(true, out[i], out[j], out[j]);
    if j < i {
        assert(!goes_before(true, out[i], out[j]));
    }
}

/// Deduplicating and ranking a result again keeps exactly the same
/// candidates, again in order of rank: only candidates that tie in rank
/// (equal version, equal path length) can change places.
pub proof fn lemma_deduplicate_again(f: FinderView, s: Seq<CandidateView>)
    ensures
        forall|d: CandidateView| #[trigger] ranked(f, ranked(f, s)).contains(d) <==> ranked(f, s).contains(d),
        sorted_in(true, ranked(f, ranked(f, s))),
{
    let r1 = ranked(f, s);
    let r2 = ranked(f, r1);
    lemma_ranked_properties(f, s);
    lemma_ranked_properties(f, r1);
    assert forall|d: CandidateView| #[trigger] r2.contains(d) <==> r1.contains(d) by {
        if r1.contains(d) {
            assert(rankable(f, d));
            assert(key_taken(f, r2, d));
            let j = choose|j: int| 0 <= j < r2.len() && dedup_key(f, #[trigger] r2[j]) == dedup_key(f, d);
            assert(r2.contains(r2[j]));
            assert(r1.contains(r2[j]));
            let a = choose|a: int| 0 <= a < r1.len() && r1[a] == d;
            let b = choose|b: int| 0 <= b < r1.len() && r1[b] == r2[j];
            if a < b {
                assert(dedup_key(f, r1[a]) != dedup_key(f, r1[b]));
            } else if b < a {
                assert(dedup_key(f, r1[b]) != dedup_key(f, r1[a]));
            }
        }
    }
}

} // verus!
