//! Telling interpreter executables from lookalikes by name and file facts,
//! and the preference among executable suffixes.
use vstd::prelude::*;
use crate::text::{last_index, all_digits, fold_eq, is_digit, char_fold_eq, char_is_digit, chars_of, extension, extension_start, file_name, file_name_start};

verus! {

/// The interpreter names that a candidate's file name may start with.
pub open spec fn implementation_names() -> Seq<Seq<char>> {
    seq![
        "python"@,
        "ironpython"@,
        "jython"@,
        "pypy"@,
        "anaconda"@,
        "miniconda"@,
        "stackless"@,
        "activepython"@,
        "pyston"@,
        "micropython"@,
    ]
}

/// Suffixes of scripts that can be run directly, most preferred first.
pub open spec fn known_executables() -> Seq<Seq<char>> {
    seq!["sh"@, "bash"@, "csh"@, "zsh"@, "fish"@, "py"@]
}

pub const N_IMPLEMENTATIONS: usize = 10;

pub const N_KNOWN_EXECUTABLES: usize = 6;

pub fn implementation_name(i: usize) -> (r: &'static str)
    requires
        i < N_IMPLEMENTATIONS,
    ensures
        r@ == implementation_names()[i as int],
{
    match i {
        0 => "python",
        1 => "ironpython",
        2 => "jython",
        3 => "pypy",
        4 => "anaconda",
        5 => "miniconda",
        6 => "stackless",
        7 => "activepython",
        8 => "pyston",
        _ => "micropython",
    }
}

pub fn known_executable(i: usize) -> (r: &'static str)
    requires
        i < N_KNOWN_EXECUTABLES,
    ensures
        r@ == known_executables()[i as int],
{
    match i {
        0 => "sh",
        1 => "bash",
        2 => "csh",
        3 => "zsh",
        4 => "fish",
        _ => "py",
    }
}

/// `n` starts with the lower-case word `k`, ignoring ASCII case.
pub open spec fn folded_prefix(n: Seq<char>, k: Seq<char>) -> bool {
    k.len() <= n.len() && forall|i: int| 0 <= i < k.len() ==> fold_eq(#[trigger] n[i], k[i])
}

/// `n` is the lower-case word `k`, ignoring ASCII case.
pub open spec fn folded_eq(n: Seq<char>, k: Seq<char>) -> bool {
    n.len() == k.len() && folded_prefix(n, k)
}

pub open spec fn is_cpm(c: char) -> bool {
    fold_eq(c, 'c') || fold_eq(c, 'p') || fold_eq(c, 'm')
}

/// `w` without its first character when that is a dot.
pub open spec fn skip_dot(w: Seq<char>) -> Seq<char> {
    if w.len() > 0 && w[0] == '.' {
        w.skip(1)
    } else {
        w
    }
}

/// `w` without its first character when that is a digit.
pub open spec fn skip_digit(w: Seq<char>) -> Seq<char> {
    if w.len() > 0 && is_digit(w[0]) {
        w.skip(1)
    } else {
        w
    }
}

/// At most three of the letters c, p, m.
pub open spec fn flags_ok(w: Seq<char>) -> bool {
    w.len() <= 3 && forall|i: int| 0 <= i < w.len() ==> is_cpm(#[trigger] w[i])
}

/// What may follow the first version digit: an optional dot, one or two
/// digits, then at most three of the letters c, p, m.
pub open spec fn minor_part_ok(w: Seq<char>) -> bool {
    let w2 = skip_dot(w);
    w2.len() > 0 && is_digit(w2[0]) && flags_ok(skip_digit(w2.skip(1)))
}

/// The version written right after the implementation name: nothing, or a
/// digit optionally followed by a minor part.
pub open spec fn version_part_ok(v: Seq<char>) -> bool {
    v.len() == 0 || (is_digit(v[0]) && (v.len() == 1 || minor_part_ok(v.skip(1))))
}

pub open spec fn dash_char_ok(t: Seq<char>, i: int, after_digit: bool) -> bool {
    is_digit(t[i]) || t[i] == '.' || (t[i] == '-' && if i == 0 {
        after_digit
    } else {
        is_digit(t[i - 1])
    })
}

/// Dash-separated numeric suffixes (`-3.8-1`): each dash follows a digit and
/// is followed by digits and dots. `after_digit` says whether the text
/// before `t` ends with a digit.
pub open spec fn dash_part_ok(after_digit: bool, t: Seq<char>) -> bool {
    t.len() == 0 || (t[0] == '-' && t.last() != '-' && forall|i: int|
        0 <= i < t.len() ==> #[trigger] dash_char_ok(t, i, after_digit))
}

pub open spec fn ends_with_digit(v: Seq<char>) -> bool {
    v.len() > 0 && is_digit(v.last())
}

/// The part of a name between the implementation and the suffix.
pub open spec fn body_ok(r: Seq<char>) -> bool {
    exists|p: int|
        0 <= p <= r.len() && version_part_ok(#[trigger] r.take(p)) && dash_part_ok(
            ends_with_digit(r.take(p)),
            r.skip(p),
        )
}

/// `r` ends with a dot and the known executable suffix number `e`.
pub open spec fn has_known_suffix(r: Seq<char>, e: int) -> bool {
    let x = known_executables()[e];
    x.len() + 1 <= r.len() && r[r.len() - x.len() - 1] == '.' && folded_eq(
        r.skip(r.len() - x.len()),
        x,
    )
}

/// What follows the implementation name: a body, then optionally a dot and
/// a known executable suffix.
pub open spec fn name_rest_ok(r: Seq<char>) -> bool {
    body_ok(r) || exists|e: int|
        0 <= e < known_executables().len() && #[trigger] has_known_suffix(r, e) && body_ok(
            r.take(r.len() - known_executables()[e].len() - 1),
        )
}

/// The file name reads as an interpreter's: an implementation name, an
/// optional version, optional dash suffixes and an optional known
/// executable suffix, all ignoring ASCII case.
pub open spec fn looks_like_python(n: Seq<char>) -> bool {
    exists|k: int|
        0 <= k < implementation_names().len() && #[trigger] folded_prefix(
            n,
            implementation_names()[k],
        ) && name_rest_ok(n.skip(implementation_names()[k].len() as int))
}

/// Compares `s[lo..hi]` with the lower-case word `x`, ignoring ASCII case.
fn folded_range_eq(s: &Vec<char>, lo: usize, hi: usize, x: &Vec<char>) -> (r: bool)
    requires
        lo <= hi <= s@.len(),
    ensures
        r == folded_eq(s@.subrange(lo as int, hi as int), x@),
{
    let ghost w = s@.subrange(lo as int, hi as int);
    if hi - lo != x.len() {
        return false;
    }
    let mut i: usize = 0;
    while i < x.len()
        invariant
            lo <= hi <= s@.len(),
            hi - lo == x@.len(),
            w == s@.subrange(lo as int, hi as int),
            i <= x@.len(),
            forall|j: int| 0 <= j < i ==> fold_eq(#[trigger] w[j], x@[j]),
        decreases x@.len() - i,
    {
        if !char_fold_eq(s[lo + i], x[i]) {
            assert(w[i as int] == s@[lo + i]);
            return false;
        }
        i = i + 1;
    }
    true
}

fn is_cpm_char(c: char) -> (r: bool)
    ensures
        r == is_cpm(c),
{
    char_fold_eq(c, 'c') || char_fold_eq(c, 'p') || char_fold_eq(c, 'm')
}

fn minor_part_matches(s: &Vec<char>, lo: usize, hi: usize) -> (r: bool)
    requires
        lo <= hi <= s@.len(),
    ensures
        r == minor_part_ok(s@.subrange(lo as int, hi as int)),
{
    let ghost w = s@.subrange(lo as int, hi as int);
    let mut i: usize = lo;
    if i < hi && s[i] == '.' {
        i = i + 1;
        assert(w.skip(1) =~= s@.subrange(i as int, hi as int));
    } else {
        assert(w =~= s@.subrange(i as int, hi as int));
    }
    let ghost w2 = s@.subrange(i as int, hi as int);
    assert(w2 == skip_dot(w));
    if !(i < hi && char_is_digit(s[i])) {
        return false;
    }
    i = i + 1;
    let ghost w3 = s@.subrange(i as int, hi as int);
    assert(w2.skip(1) =~= w3);
    if i < hi && char_is_digit(s[i]) {
        i = i + 1;
        assert(w3.skip(1) =~= s@.subrange(i as int, hi as int));
    }
    let ghost w4 = s@.subrange(i as int, hi as int);
    assert(w4 == skip_digit(w3));
    if hi - i > 3 {
        return false;
    }
    let mut j: usize = i;
    while j < hi
        invariant
            lo <= i <= j <= hi <= s@.len(),
            w == s@.subrange(lo as int, hi as int),
            w4 == s@.subrange(i as int, hi as int),
            w4.len() <= 3,
            minor_part_ok(w) == flags_ok(w4),
            forall|m: int| 0 <= m < j - i ==> is_cpm(#[trigger] w4[m]),
        decreases hi - j,
    {
        if !is_cpm_char(s[j]) {
            assert(w4[j - i] == s@[j as int]);
            return false;
        }
        j = j + 1;
    }
    true
}

fn version_part_matches(s: &Vec<char>, lo: usize, hi: usize) -> (r: bool)
    requires
        lo <= hi <= s@.len(),
    ensures
        r == version_part_ok(s@.subrange(lo as int, hi as int)),
{
    let ghost v = s@.subrange(lo as int, hi as int);
    if lo == hi {
        return true;
    }
    if !char_is_digit(s[lo]) {
        return false;
    }
    if hi - lo == 1 {
        return true;
    }
    assert(v.skip(1) =~= s@.subrange(lo + 1, hi as int));
    minor_part_matches(s, lo + 1, hi)
}

fn dash_part_matches(s: &Vec<char>, lo: usize, hi: usize, after_digit: bool) -> (r: bool)
    requires
        lo <= hi <= s@.len(),
    ensures
        r == dash_part_ok(after_digit, s@.subrange(lo as int, hi as int)),
{
    let ghost t = s@.subrange(lo as int, hi as int);
    if lo == hi {
        return true;
    }
    if s[lo] != '-' || s[hi - 1] == '-' {
        return false;
    }
    let mut j: usize = lo;
    while j < hi
        invariant
            lo <= j <= hi <= s@.len(),
            lo < hi,
            t == s@.subrange(lo as int, hi as int),
            forall|m: int| 0 <= m < j - lo ==> #[trigger] dash_char_ok(t, m, after_digit),
        decreases hi - j,
    {
        let c = s[j];
        let ok = char_is_digit(c) || c == '.' || (c == '-' && if j == lo {
            after_digit
        } else {
            char_is_digit(s[j - 1])
        });
        if !ok {
            assert(!dash_char_ok(t, j - lo, after_digit));
            return false;
        }
        j = j + 1;
    }
    true
}

proof fn lemma_version_part_chars(v: Seq<char>, i: int)
    requires
        version_part_ok(v),
        0 <= i < v.len(),
    ensures
        is_digit(v[i]) || v[i] == '.' || is_cpm(v[i]),
{
    if i > 0 {
        let w = v.skip(1);
        assert(w[i - 1] == v[i]);
        let w2 = skip_dot(w);
        let w3 = w2.skip(1);
        let w4 = skip_digit(w3);
        if w.len() > 0 && w[0] == '.' && i == 1 {
        } else {
            let k = if w.len() > 0 && w[0] == '.' { i - 2 } else { i - 1 };
            assert(w2[k] == v[i]);
            if k > 0 {
                assert(w3[k - 1] == v[i]);
                if w3.len() > 0 && is_digit(w3[0]) && k == 1 {
                } else {
                    let m = if w3.len() > 0 && is_digit(w3[0]) { k - 2 } else { k - 1 };
                    assert(minor_part_ok(w));
                    assert(0 <= m < w4.len());
                    assert(w4[m] == v[i]);
                    assert(is_cpm(w4[m]));
                }
            }
        }
    }
}

fn body_matches(s: &Vec<char>, lo: usize, hi: usize) -> (r: bool)
    requires
        lo <= hi <= s@.len(),
    ensures
        r == body_ok(s@.subrange(lo as int, hi as int)),
{
    let ghost r = s@.subrange(lo as int, hi as int);
    let mut p: usize = lo;
    while p < hi && s[p] != '-'
        invariant
            lo <= p <= hi <= s@.len(),
            forall|m: int| lo <= m < p ==> s@[m] != '-',
        decreases hi - p,
    {
        p = p + 1;
    }
    let ghost q = p - lo;
    assert(r.take(q) =~= s@.subrange(lo as int, p as int));
    assert(r.skip(q) =~= s@.subrange(p as int, hi as int));
    let after_digit = p > lo && char_is_digit(s[p - 1]);
    assert(after_digit == ends_with_digit(r.take(q)));
    let ok = version_part_matches(s, lo, p) && dash_part_matches(s, p, hi, after_digit);
    if !ok {
        assert forall|other: int| 0 <= other <= r.len() implies !(version_part_ok(#[trigger] r.take(other))
            && dash_part_ok(ends_with_digit(r.take(other)), r.skip(other))) by {
            if version_part_ok(r.take(other)) && dash_part_ok(ends_with_digit(r.take(other)), r.skip(other)) {
                if other > q {
                    assert(r[q] == '-');
                    assert(r.take(other)[q] == r[q]);
                    lemma_version_part_chars(r.take(other), q);
                } else if other < q {
                    assert(r.skip(other)[0] == r[other]);
                    assert(s@[lo + other] == r[other]);
                }
            }
        }
    }
    ok
}

/// Whether `s[lo..hi]` is what may follow an implementation name.
fn rest_matches(s: &Vec<char>, lo: usize, hi: usize) -> (r: bool)
    requires
        lo <= hi <= s@.len(),
    ensures
        r == name_rest_ok(s@.subrange(lo as int, hi as int)),
{
    let ghost r = s@.subrange(lo as int, hi as int);
    if body_matches(s, lo, hi) {
        return true;
    }
    let mut found = false;
    let mut e: usize = 0;
    while e < N_KNOWN_EXECUTABLES
        invariant
            lo <= hi <= s@.len(),
            r == s@.subrange(lo as int, hi as int),
            e <= N_KNOWN_EXECUTABLES,
            found == exists|f: int|
                0 <= f < e && #[trigger] has_known_suffix(r, f) && body_ok(
                    r.take(r.len() - known_executables()[f].len() - 1),
                ),
        decreases N_KNOWN_EXECUTABLES - e,
    {
        let x = chars_of(known_executable(e));
        let xl = x.len();
        let mut hit = false;
        if xl < hi - lo && s[hi - xl - 1] == '.' {
            assert(r[r.len() - xl - 1] == s@[hi - xl - 1]);
            assert(r.skip(r.len() - xl) =~= s@.subrange(hi - xl, hi as int));
            assert(r.take(r.len() - xl - 1) =~= s@.subrange(lo as int, hi - xl - 1));
            hit = folded_range_eq(s, hi - xl, hi, &x) && body_matches(s, lo, hi - xl - 1);
        } else {
            if xl < hi - lo {
                assert(r[r.len() - xl - 1] == s@[hi - xl - 1]);
            }
        }
        assert(hit == (has_known_suffix(r, e as int) && body_ok(
            r.take(r.len() - known_executables()[e as int].len() - 1),
        )));
        if hit {
            found = true;
        }
        e = e + 1;
    }
    found
}

/// Whether the file name `name` reads as an interpreter's.
pub fn looks_like_python_name(name: &str) -> (r: bool)
    ensures
        r == looks_like_python(name@),
{
    let s = chars_of(name);
    let mut found = false;
    let mut k: usize = 0;
    while k < N_IMPLEMENTATIONS
        invariant
            s@ == name@,
            k <= N_IMPLEMENTATIONS,
            found == exists|j: int|
                0 <= j < k && #[trigger] folded_prefix(s@, implementation_names()[j])
                    && name_rest_ok(s@.skip(implementation_names()[j].len() as int)),
        decreases N_IMPLEMENTATIONS - k,
    {
        let w = chars_of(implementation_name(k));
        let wl = w.len();
        if wl <= s.len() {
            let pre = folded_range_eq(&s, 0, wl, &w);
            assert(pre == folded_prefix(s@, w@)) by {
                if folded_prefix(s@, w@) {
                    assert forall|i: int| 0 <= i < wl implies fold_eq(
                        #[trigger] s@.subrange(0, wl as int)[i],
                        w@[i],
                    ) by {
                        assert(s@.subrange(0, wl as int)[i] == s@[i]);
                    }
                }
                if pre {
                    assert forall|i: int| 0 <= i < wl implies fold_eq(#[trigger] s@[i], w@[i]) by {
                        assert(s@.subrange(0, wl as int)[i] == s@[i]);
                    }
                }
            }
            assert(s@.skip(wl as int) =~= s@.subrange(wl as int, s@.len() as int));
            if pre && rest_matches(&s, wl, s.len()) {
                found = true;
            }
        }
        k = k + 1;
    }
    found
}

/// What the filesystem says of a path, following symlinks for the first
/// two fields.
#[derive(Clone, Copy, Debug, PartialEq, Eq, Structural)]
pub struct FileMeta {
    /// The path denotes a regular file.
    pub is_file: bool,
    /// The path denotes a directory.
    pub is_dir: bool,
    /// The path itself is a symbolic link.
    pub is_symlink: bool,
    /// The current user may read and execute it.
    pub readable_executable: bool,
}

/// `e` is one of the known executable suffixes, ignoring ASCII case.
pub open spec fn is_known_executable(e: Seq<char>) -> bool {
    exists|k: int| 0 <= k < known_executables().len() && #[trigger] folded_eq(e, known_executables()[k])
}

/// A path may be run as an interpreter: it is a regular file, and either the
/// user may read and execute it, or its suffix is a known executable one.
pub open spec fn executable_ok(path: Seq<char>, meta: Option<FileMeta>) -> bool {
    match meta {
        None => false,
        Some(m) => m.is_file && (m.readable_executable || match extension(path) {
            None => false,
            Some(e) => is_known_executable(e),
        }),
    }
}

/// A path is a candidate interpreter: its file name reads as one and the
/// file may be run.
pub open spec fn is_python_path(path: Seq<char>, meta: Option<FileMeta>) -> bool {
    &&& match file_name(path) {
        None => false,
        Some(n) => looks_like_python(n),
    }
    &&& executable_ok(path, meta)
}

/// One more than the position of `e` among the known executable suffixes,
/// searching from `k`; one more than their number when it is not among
/// them.
pub open spec fn rank_from(e: Seq<char>, k: int) -> nat
    decreases known_executables().len() - k,
{
    if k < 0 || k >= known_executables().len() {
        known_executables().len() + 1
    } else if folded_eq(e, known_executables()[k]) {
        (k + 1) as nat
    } else {
        rank_from(e, k + 1)
    }
}

/// How bare a path's suffix is: 0 without one, `k + 1` for the known
/// executable suffix number `k`, and after all of those for any other.
pub open spec fn suffix_rank(path: Seq<char>) -> nat {
    match extension(path) {
        None => 0,
        Some(e) => rank_from(e, 0),
    }
}

/// Which known executable suffix `s[lo..]` is, if any.
fn known_executable_index(s: &Vec<char>, lo: usize) -> (r: Option<usize>)
    requires
        lo <= s@.len(),
    ensures
        match r {
            Some(k) => k < N_KNOWN_EXECUTABLES && folded_eq(s@.skip(lo as int), known_executables()[k as int])
                && rank_from(s@.skip(lo as int), 0) == k + 1,
            None => !is_known_executable(s@.skip(lo as int)) && rank_from(s@.skip(lo as int), 0)
                == N_KNOWN_EXECUTABLES + 1,
        },
{
    let ghost e = s@.skip(lo as int);
    assert(s@.subrange(lo as int, s@.len() as int) =~= e);
    let mut k: usize = 0;
    while k < N_KNOWN_EXECUTABLES
        invariant
            k <= N_KNOWN_EXECUTABLES,
            lo <= s@.len(),
            e == s@.subrange(lo as int, s@.len() as int),
            forall|j: int| 0 <= j < k ==> !#[trigger] folded_eq(e, known_executables()[j]),
            rank_from(e, 0) == rank_from(e, k as int),
        decreases N_KNOWN_EXECUTABLES - k,
    {
        let x = chars_of(known_executable(k));
        if folded_range_eq(s, lo, s.len(), &x) {
            return Some(k);
        }
        k = k + 1;
    }
    None
}

fn is_executable_path(path: &Vec<char>, meta: Option<FileMeta>) -> (r: bool)
    ensures
        r == executable_ok(path@, meta),
{
    match meta {
        None => false,
        Some(m) => {
            if !m.is_file {
                false
            } else if m.readable_executable {
                true
            } else {
                match extension_start(path) {
                    None => false,
                    Some(k) => known_executable_index(path, k).is_some(),
                }
            }
        },
    }
}

/// Whether `path`, with the filesystem facts `meta` (none when they could
/// not be read), is a candidate interpreter.
pub fn path_is_python(path: &str, meta: Option<FileMeta>) -> (r: bool)
    ensures
        r == is_python_path(path@, meta),
{
    let p = chars_of(path);
    let named = match file_name_start(&p) {
        None => false,
        Some(k) => {
            let n = path.substring_char(k, p.len());
            looks_like_python_name(n)
        },
    };
    named && is_executable_path(&p, meta)
}

/// The preference rank of a path's suffix (see [`suffix_rank`]): 0 for no
/// suffix, `k + 1` for known suffix number `k`, 7 for any other.
pub fn suffix_preference(path: &str) -> (r: usize)
    ensures
        r == suffix_rank(path@),
{
    let p = chars_of(path);
    match extension_start(&p) {
        None => 0,
        Some(k) => match known_executable_index(&p, k) {
            Some(i) => i + 1,
            None => N_KNOWN_EXECUTABLES + 1,
        },
    }
}

/// A version written after an implementation name: a major digit, and
/// after it optionally a dot and one or two minor digits.
pub open spec fn short_version(major: Option<char>, minor: Seq<char>) -> Seq<char> {
    match major {
        None => Seq::empty(),
        Some(d) => if minor.len() > 0 {
            seq![d, '.'] + minor
        } else {
            seq![d]
        },
    }
}

/// A dot and `x`, or nothing.
pub open spec fn dotted(x: Option<Seq<char>>) -> Seq<char> {
    match x {
        None => Seq::empty(),
        Some(e) => seq!['.'] + e,
    }
}

/// `x`, when present, is the known executable suffix number `e` written in
/// any letter case.
pub open spec fn is_suffix_written(x: Option<Seq<char>>, e: int) -> bool {
    match x {
        None => true,
        Some(w) => 0 <= e < known_executables().len() && folded_eq(w, known_executables()[e]),
    }
}

proof fn lemma_body_ok_of_version(v: Seq<char>)
    requires
        version_part_ok(v),
    ensures
        body_ok(v),
{
    assert(v.take(v.len() as int) =~= v);
    assert(v.skip(v.len() as int).len() == 0);
    assert(version_part_ok(v.take(v.len() as int)));
}

/// Every implementation name, written in any letter case, reads as an
/// interpreter's name: bare or followed by a short version, and bare or
/// followed by a dot and a known executable suffix in any letter case.
pub proof fn lemma_implementation_names_accepted(
    k: int,
    written: Seq<char>,
    major: Option<char>,
    minor: Seq<char>,
    suffix: Option<Seq<char>>,
    e: int,
)
    requires
        0 <= k < implementation_names().len(),
        folded_eq(written, implementation_names()[k]),
        major matches Some(d) ==> is_digit(d),
        minor.len() <= 2,
        all_digits(minor),
        minor.len() > 0 ==> major is Some,
        is_suffix_written(suffix, e),
    ensures
        looks_like_python(written + short_version(major, minor) + dotted(suffix)),
{
    let w = implementation_names()[k];
    let v = short_version(major, minor);
    let x = dotted(suffix);
    let n = written + v + x;
    let r = v + x;
    if let Some(d) = major {
        if minor.len() > 0 {
            let t = v.skip(1);
            assert(t =~= seq!['.'] + minor);
            assert(skip_dot(t) =~= minor);
            assert(is_digit(minor[0]));
            if minor.len() == 2 {
                assert(is_digit(minor[1]));
                assert(minor.skip(1)[0] == minor[1]);
            }
            assert(skip_digit(minor.skip(1)).len() == 0);
        }
    }
    lemma_body_ok_of_version(v);
    match suffix {
        None => {
            assert(r =~= v);
        },
        Some(xs) => {
            let ks = known_executables()[e];
            assert(r.len() - ks.len() - 1 == v.len());
            assert(r[v.len() as int] == '.');
            assert(r.skip(r.len() - ks.len()) =~= xs);
            assert(r.take(r.len() - ks.len() - 1) =~= v);
            assert(has_known_suffix(r, e));
        },
    }
    assert(name_rest_ok(r));
    assert(n.skip(w.len() as int) =~= r);
    assert forall|i: int| 0 <= i < w.len() implies fold_eq(#[trigger] n[i], w[i]) by {
        assert(n[i] == written[i]);
    }
    assert(folded_prefix(n, w));
}

/// The MD5 digest of `contents`, as lower-case hexadecimal.
pub uninterp spec fn md5_hex(contents: Seq<u8>) -> Seq<char>;

/// Relies on `md5::compute` and the digest's `LowerHex` formatting: the
/// MD5 digest of the bytes, two lower-case hex digits per byte of the
/// 16-byte digest. Identical contents give identical hashes.
#[verifier::external_body]
pub fn calculate_file_hash(contents: &[u8]) -> (r: String)
    ensures
        r@ == md5_hex(contents@),
        r@.len() == 32,
{
    format!("{:x}", md5::compute(contents))
}

pub open spec fn is_w(c: char) -> bool {
    c == 'w' || c == 'W'
}

proof fn lemma_body_has_no_w(r: Seq<char>, i: int)
    requires
        body_ok(r),
        0 <= i < r.len(),
    ensures
        !is_w(r[i]),
{
    let p = choose|p: int|
        0 <= p <= r.len() && version_part_ok(#[trigger] r.take(p)) && dash_part_ok(
            ends_with_digit(r.take(p)),
            r.skip(p),
        );
    if i < p {
        assert(r.take(p)[i] == r[i]);
        lemma_version_part_chars(r.take(p), i);
    } else {
        let t = r.skip(p);
        assert(t[i - p] == r[i]);
        assert(dash_char_ok(t, i - p, ends_with_digit(r.take(p))));
    }
}

/// The known executable suffixes are lower-case words without a `w`.
proof fn lemma_known_executables_letters()
    ensures
        forall|e: int, j: int|
            0 <= e < known_executables().len() && 0 <= j < known_executables()[e].len() ==> {
                let c = #[trigger] known_executables()[e][j];
                'a' <= c && c <= 'z' && c != 'w'
            },
{
    reveal_strlit("sh");
    reveal_strlit("bash");
    reveal_strlit("csh");
    reveal_strlit("zsh");
    reveal_strlit("fish");
    reveal_strlit("py");
}

/// The implementation names are non-empty lower-case words.
proof fn lemma_implementation_names_letters()
    ensures
        forall|k: int| 0 <= k < implementation_names().len() ==> #[trigger] implementation_names()[k].len() > 0,
        forall|k: int, j: int|
            0 <= k < implementation_names().len() && 0 <= j < implementation_names()[k].len()
                ==> {
                let c = #[trigger] implementation_names()[k][j];
                'a' <= c && c <= 'z'
            },
{
    reveal_strlit("python");
    reveal_strlit("ironpython");
    reveal_strlit("jython");
    reveal_strlit("pypy");
    reveal_strlit("anaconda");
    reveal_strlit("miniconda");
    reveal_strlit("stackless");
    reveal_strlit("activepython");
    reveal_strlit("pyston");
    reveal_strlit("micropython");
}

proof fn lemma_rest_has_no_w(r: Seq<char>, i: int)
    requires
        name_rest_ok(r),
        0 <= i < r.len(),
    ensures
        !is_w(r[i]),
{
    if body_ok(r) {
        lemma_body_has_no_w(r, i);
    } else {
        let e = choose|e: int|
            0 <= e < known_executables().len() && #[trigger] has_known_suffix(r, e) && body_ok(
                r.take(r.len() - known_executables()[e].len() - 1),
            );
        let x = known_executables()[e];
        let l = r.len() - x.len() - 1;
        if i < l {
            assert(r.take(l)[i] == r[i]);
            lemma_body_has_no_w(r.take(l), i);
        } else if i > l {
            let j = i - (r.len() - x.len());
            assert(r.skip(r.len() - x.len())[j] == r[i]);
            assert(fold_eq(r[i], x[j]));
            lemma_known_executables_letters();
            assert('a' <= x[j] && x[j] <= 'z' && x[j] != 'w');
        }
    }
}

/// A name in which a `w` follows the implementation name and its version
/// digit, such as `python3w`, does not read as an interpreter's: that is
/// the windowed variant.
pub proof fn lemma_windowed_names_rejected(k: int, d: char)
    requires
        0 <= k < implementation_names().len(),
        is_digit(d),
    ensures
        !looks_like_python(implementation_names()[k] + seq![d, 'w']),
{
    let n = implementation_names()[k] + seq![d, 'w'];
    let m = implementation_names()[k].len();
    if looks_like_python(n) {
        let k2 = choose|k2: int|
            0 <= k2 < implementation_names().len() && #[trigger] folded_prefix(
                n,
                implementation_names()[k2],
            ) && name_rest_ok(n.skip(implementation_names()[k2].len() as int));
        let w2 = implementation_names()[k2];
        lemma_implementation_names_letters();
        if w2.len() > m {
            assert(n[m as int] == d);
            assert(fold_eq(n[m as int], w2[m as int]));
            assert('a' <= w2[m as int] && w2[m as int] <= 'z');
        } else {
            let r = n.skip(w2.len() as int);
            assert(r[r.len() - 1] == 'w');
            lemma_rest_has_no_w(r, r.len() - 1);
        }
    }
}

proof fn lemma_last_index_after(a: Seq<char>, b: Seq<char>, c: char)
    requires
        forall|i: int| 0 <= i < b.len() ==> b[i] != c,
    ensures
        last_index(a + seq![c] + b, c) == a.len(),
    decreases b.len(),
{
    let s = a + seq![c] + b;
    if b.len() > 0 {
        assert(s.last() == b.last());
        assert(s.drop_last() =~= a + seq![c] + b.drop_last());
        lemma_last_index_after(a, b.drop_last(), c);
    } else {
        assert(s.last() == c);
    }
}

/// A path whose file name is an implementation name in any letter case,
/// optionally with a short version, and optionally with a dot and a known
/// executable suffix in any letter case, is a candidate when it is a
/// regular file that the user may read and execute; with the suffix it is
/// one even when the user may not.
pub proof fn lemma_python_paths_accepted(
    path: Seq<char>,
    k: int,
    written: Seq<char>,
    major: Option<char>,
    minor: Seq<char>,
    suffix: Option<Seq<char>>,
    e: int,
    meta: FileMeta,
)
    requires
        0 <= k < implementation_names().len(),
        folded_eq(written, implementation_names()[k]),
        major matches Some(d) ==> is_digit(d),
        minor.len() <= 2,
        all_digits(minor),
        minor.len() > 0 ==> major is Some,
        is_suffix_written(suffix, e),
        file_name(path) == Some(written + short_version(major, minor) + dotted(suffix)),
        meta.is_file,
        meta.readable_executable || suffix is Some,
    ensures
        is_python_path(path, Some(meta)),
{
    lemma_implementation_names_accepted(k, written, major, minor, suffix, e);
    if !meta.readable_executable {
        let x = suffix.unwrap();
        let a = written + short_version(major, minor);
        let n = a + seq!['.'] + x;
        assert(n =~= written + short_version(major, minor) + dotted(suffix));
        lemma_known_executables_letters();
        assert forall|i: int| 0 <= i < x.len() implies x[i] != '.' by {
            assert(fold_eq(x[i], known_executables()[e][i]));
        }
        lemma_last_index_after(a, x, '.');
        lemma_implementation_names_letters();
        assert(a.len() > 0);
        assert(n.skip(a.len() as int + 1) =~= x);
        assert(extension(path) == Some(x));
        assert(folded_eq(x, known_executables()[e]));
        assert(is_known_executable(x));
    }
}

} // verus!
