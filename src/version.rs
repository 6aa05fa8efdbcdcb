//! Interpreter versions as PEP 440 describes them, and their ordering.
use vstd::prelude::*;
use std::cmp::Ordering;
use crate::text::{before_plus, trim, trimmed, until_plus};

verus! {

/// The kind of a pre-release.
#[derive(Clone, Copy, Debug, PartialEq, Eq, Structural)]
pub enum PreKind {
    Alpha,
    Beta,
    Rc,
}

/// A pre-release tag such as `a1` or `rc2`.
#[derive(Clone, Copy, Debug, PartialEq, Eq, Structural)]
pub struct PreRelease {
    pub kind: PreKind,
    pub number: u64,
}

/// A release version: epoch, dotted release numbers, and the optional pre-,
/// post- and dev-release parts.
#[derive(Clone, Debug)]
pub struct Version {
    pub epoch: u64,
    pub release: Vec<u64>,
    pub pre: Option<PreRelease>,
    pub post: Option<u64>,
    pub dev: Option<u64>,
}

/// The mathematical value of a [`Version`].
pub struct VersionView {
    pub epoch: u64,
    pub release: Seq<u64>,
    pub pre: Option<PreRelease>,
    pub post: Option<u64>,
    pub dev: Option<u64>,
}

impl View for Version {
    type V = VersionView;

    open spec fn view(&self) -> VersionView {
        VersionView {
            epoch: self.epoch,
            release: self.release@,
            pre: self.pre,
            post: self.post,
            dev: self.dev,
        }
    }
}

/// The release number at `i`, with zeros past the end.
pub open spec fn release_at(r: Seq<u64>, i: int) -> u64 {
    if 0 <= i < r.len() {
        r[i]
    } else {
        0
    }
}

/// Compares release numbers from position `i` on, the shorter padded with
/// zeros: -1, 0 or 1.
pub open spec fn release_cmp_from(a: Seq<u64>, b: Seq<u64>, i: int) -> int
    decreases (if a.len() > b.len() {
        a.len()
    } else {
        b.len()
    }) - i,
{
    if i < 0 || (i >= a.len() && i >= b.len()) {
        0
    } else if release_at(a, i) < release_at(b, i) {
        -1
    } else if release_at(a, i) > release_at(b, i) {
        1
    } else {
        release_cmp_from(a, b, i + 1)
    }
}

pub open spec fn int_cmp(x: int, y: int) -> int {
    if x < y {
        -1
    } else if x > y {
        1
    } else {
        0
    }
}

/// How a version ranks after its release numbers, as four numbers compared
/// in turn: the stage (dev-only 1, alpha 2, beta 3, rc 4, final 5, post 6),
/// the pre-release number, the post-release number (-1 without one) and the
/// dev-release number (the largest `u64` without one).
pub open spec fn suffix_key(v: VersionView) -> (int, int, int, int) {
    let post: int = match v.post {
        Some(p) => p as int,
        None => -1,
    };
    let dev: int = match v.dev {
        Some(d) => d as int,
        None => u64::MAX as int,
    };
    match v.pre {
        Some(p) => (
            match p.kind {
                PreKind::Alpha => 2,
                PreKind::Beta => 3,
                PreKind::Rc => 4,
            },
            p.number as int,
            post,
            dev,
        ),
        None => match v.post {
            Some(_) => (6, 0, post, dev),
            None => match v.dev {
                Some(d) => (1, 0, -1, d as int),
                None => (5, 0, -1, 0),
            },
        },
    }
}

pub open spec fn key_cmp(a: (int, int, int, int), b: (int, int, int, int)) -> int {
    if a.0 != b.0 {
        int_cmp(a.0, b.0)
    } else if a.1 != b.1 {
        int_cmp(a.1, b.1)
    } else if a.2 != b.2 {
        int_cmp(a.2, b.2)
    } else {
        int_cmp(a.3, b.3)
    }
}

/// PEP 440 order of two versions: -1 when `a` comes first, 1 when `b` does,
/// 0 when they are equal as versions.
pub open spec fn version_cmp(a: VersionView, b: VersionView) -> int {
    if a.epoch != b.epoch {
        int_cmp(a.epoch as int, b.epoch as int)
    } else if release_cmp_from(a.release, b.release, 0) != 0 {
        release_cmp_from(a.release, b.release, 0)
    } else {
        key_cmp(suffix_key(a), suffix_key(b))
    }
}

pub open spec fn ordering_of(c: int) -> Ordering {
    if c < 0 {
        Ordering::Less
    } else if c > 0 {
        Ordering::Greater
    } else {
        Ordering::Equal
    }
}

fn cmp_i128(x: i128, y: i128) -> (r: i8)
    ensures
        r as int == int_cmp(x as int, y as int),
{
    if x < y {
        -1
    } else if x > y {
        1
    } else {
        0
    }
}

fn suffix_key_exec(v: &Version) -> (r: (i128, i128, i128, i128))
    ensures
        (r.0 as int, r.1 as int, r.2 as int, r.3 as int) == suffix_key(v@),
{
    let post: i128 = match v.post {
        Some(p) => p as i128,
        None => -1,
    };
    let dev: i128 = match v.dev {
        Some(d) => d as i128,
        None => u64::MAX as i128,
    };
    match v.pre {
        Some(p) => (
            match p.kind {
                PreKind::Alpha => 2,
                PreKind::Beta => 3,
                PreKind::Rc => 4,
            },
            p.number as i128,
            post,
            dev,
        ),
        None => match v.post {
            Some(_) => (6, 0, post, dev),
            None => match v.dev {
                Some(d) => (1, 0, -1, d as i128),
                None => (5, 0, -1, 0),
            },
        },
    }
}

impl Version {
    /// Orders two versions as PEP 440 does.
    pub fn compare(&self, other: &Version) -> (r: Ordering)
        ensures
            r == ordering_of(version_cmp(self@, other@)),
    {
        if self.epoch != other.epoch {
            return if self.epoch < other.epoch {
                Ordering::Less
            } else {
                Ordering::Greater
            };
        }
        let a = &self.release;
        let b = &other.release;
        let n = if a.len() > b.len() {
            a.len()
        } else {
            b.len()
        };
        let mut i: usize = 0;
        while i < n
            invariant
                n == if a@.len() > b@.len() {
                    a@.len()
                } else {
                    b@.len()
                },
                i <= n,
                self.epoch == other.epoch,
                a == &self.release,
                b == &other.release,
                release_cmp_from(a@, b@, 0) == release_cmp_from(a@, b@, i as int),
            decreases n - i,
        {
            let x: u64 = if i < a.len() {
                a[i]
            } else {
                0
            };
            let y: u64 = if i < b.len() {
                b[i]
            } else {
                0
            };
            if x < y {
                return Ordering::Less;
            }
            if x > y {
                return Ordering::Greater;
            }
            i = i + 1;
        }
        let ka = suffix_key_exec(self);
        let kb = suffix_key_exec(other);
        let c = if ka.0 != kb.0 {
            cmp_i128(ka.0, kb.0)
        } else if ka.1 != kb.1 {
            cmp_i128(ka.1, kb.1)
        } else if ka.2 != kb.2 {
            cmp_i128(ka.2, kb.2)
        } else {
            cmp_i128(ka.3, kb.3)
        };
        if c < 0 {
            Ordering::Less
        } else if c > 0 {
            Ordering::Greater
        } else {
            Ordering::Equal
        }
    }

    /// Whether this is an alpha, beta or rc version.
    pub fn is_pre(&self) -> (r: bool)
        ensures
            r == self.pre.is_some(),
    {
        self.pre.is_some()
    }

    /// Whether this is a dev version.
    pub fn is_dev(&self) -> (r: bool)
        ensures
            r == self.dev.is_some(),
    {
        self.dev.is_some()
    }
}

proof fn lemma_release_cmp_unfold(a: Seq<u64>, b: Seq<u64>, i: int)
    requires
        i >= 0,
    ensures
        release_cmp_from(a, b, i) == if release_at(a, i) < release_at(b, i) {
            -1
        } else if release_at(a, i) > release_at(b, i) {
            1
        } else {
            release_cmp_from(a, b, i + 1)
        },
{
}

proof fn lemma_release_cmp_antisymmetric(a: Seq<u64>, b: Seq<u64>, i: int)
    requires
        i >= 0,
    ensures
        release_cmp_from(a, b, i) == -release_cmp_from(b, a, i),
    decreases (if a.len() > b.len() {
        a.len()
    } else {
        b.len()
    }) - i,
{
    if i < a.len() || i < b.len() {
        lemma_release_cmp_antisymmetric(a, b, i + 1);
    }
}

proof fn lemma_release_cmp_reflexive(a: Seq<u64>, i: int)
    requires
        i >= 0,
    ensures
        release_cmp_from(a, a, i) == 0,
    decreases a.len() - i,
{
    if i < a.len() {
        lemma_release_cmp_reflexive(a, i + 1);
    }
}

proof fn lemma_release_cmp_transitive(a: Seq<u64>, b: Seq<u64>, c: Seq<u64>, i: int)
    requires
        i >= 0,
        release_cmp_from(a, b, i) <= 0,
        release_cmp_from(b, c, i) <= 0,
    ensures
        release_cmp_from(a, c, i) <= 0,
        release_cmp_from(a, b, i) == 0 && release_cmp_from(b, c, i) == 0 ==> release_cmp_from(
            a,
            c,
            i,
        ) == 0,
        release_cmp_from(a, b, i) < 0 || release_cmp_from(b, c, i) < 0 ==> release_cmp_from(
            a,
            c,
            i,
        ) < 0,
    decreases (if a.len() > b.len() {
        if a.len() > c.len() {
            a.len()
        } else {
            c.len()
        }
    } else {
        if b.len() > c.len() {
            b.len()
        } else {
            c.len()
        }
    }) - i,
{
    lemma_release_cmp_unfold(a, b, i);
    lemma_release_cmp_unfold(b, c, i);
    lemma_release_cmp_unfold(a, c, i);
    if i < a.len() || i < b.len() || i < c.len() {
        if release_at(a, i) == release_at(b, i) && release_at(b, i) == release_at(c, i) {
            lemma_release_cmp_transitive(a, b, c, i + 1);
        }
    }
}

/// The order of versions is antisymmetric: swapping the two sides negates
/// the comparison.
pub proof fn lemma_version_cmp_antisymmetric(a: VersionView, b: VersionView)
    ensures
        version_cmp(a, b) == -version_cmp(b, a),
        -1 <= version_cmp(a, b) <= 1,
{
    lemma_release_cmp_antisymmetric(a.release, b.release, 0);
    if a.epoch == b.epoch && release_cmp_from(a.release, b.release, 0) != 0 {
        lemma_release_cmp_range(a.release, b.release, 0);
    }
}

proof fn lemma_release_cmp_range(a: Seq<u64>, b: Seq<u64>, i: int)
    requires
        i >= 0,
    ensures
        -1 <= release_cmp_from(a, b, i) <= 1,
    decreases (if a.len() > b.len() {
        a.len()
    } else {
        b.len()
    }) - i,
{
    if i < a.len() || i < b.len() {
        lemma_release_cmp_range(a, b, i + 1);
    }
}

/// Every version is equal to itself.
pub proof fn lemma_version_cmp_reflexive(a: VersionView)
    ensures
        version_cmp(a, a) == 0,
{
    lemma_release_cmp_reflexive(a.release, 0);
}

/// The order of versions is transitive, and strictly so when either step
/// is strict.
pub proof fn lemma_version_cmp_transitive(a: VersionView, b: VersionView, c: VersionView)
    requires
        version_cmp(a, b) <= 0,
        version_cmp(b, c) <= 0,
    ensures
        version_cmp(a, c) <= 0,
        version_cmp(a, b) < 0 || version_cmp(b, c) < 0 ==> version_cmp(a, c) < 0,
        version_cmp(a, b) == 0 && version_cmp(b, c) == 0 ==> version_cmp(a, c) == 0,
{
    if a.epoch == b.epoch && b.epoch == c.epoch {
        lemma_release_cmp_transitive(a.release, b.release, c.release, 0);
    }
}

/// A final release ranks above every pre-release and every dev-release of
/// the same version numbers.
pub proof fn lemma_final_above_prerelease(fin: VersionView, pre: VersionView)
    requires
        fin.epoch == pre.epoch,
        fin.release == pre.release,
        fin.pre is None,
        fin.post is None,
        fin.dev is None,
        pre.pre is Some || (pre.dev is Some && pre.post is None),
    ensures
        version_cmp(pre, fin) < 0,
{
    lemma_release_cmp_reflexive(fin.release, 0);
}

/// The epoch, release, pre-, post- and dev-release parts of the PEP 440
/// version that `s` spells, when it spells one.
pub uninterp spec fn pep440_parse(s: Seq<char>) -> Option<VersionView>;

/// Relies on `pep440_rs::Version::from_str`, which parses a PEP 440 version
/// string; the parts kept are those of [`Version`]. Without a `+` the text
/// has no local part, so nothing is dropped.
#[verifier::external_body]
fn parse_pep440(s: &str) -> (r: Option<Version>)
    requires
        !s@.contains('+'),
    ensures
        match r {
            Some(v) => pep440_parse(s@) == Some(v@),
            None => pep440_parse(s@) is None,
        },
{
    let v = <pep440_rs::Version as std::str::FromStr>::from_str(s).ok()?;
    let pre = v.pre().map(|p| PreRelease {
        kind: match p.kind {
            pep440_rs::PrereleaseKind::Alpha => PreKind::Alpha,
            pep440_rs::PrereleaseKind::Beta => PreKind::Beta,
            pep440_rs::PrereleaseKind::Rc => PreKind::Rc,
        },
        number: p.number,
    });
    Some(Version { epoch: v.epoch(), release: v.release().to_vec(), pre, post: v.post(), dev: v.dev() })
}

/// The version that a probe printed: the text is trimmed, a `+local` build
/// suffix is cut off, and the rest is read as a PEP 440 version.
pub open spec fn version_of_output(output: Seq<char>) -> Option<VersionView> {
    pep440_parse(before_plus(trimmed(output)))
}

impl Version {
    /// Reads the version that a probe printed; `None` when it is not one.
    pub fn from_output(output: &str) -> (r: Option<Version>)
        ensures
            match r {
                Some(v) => version_of_output(output@) == Some(v@),
                None => version_of_output(output@) is None,
            },
    {
        let t = trim(output);
        let core = until_plus(t.as_str());
        parse_pep440(core.as_str())
    }
}

pub open spec fn digit_char(d: nat) -> char {
    if d == 0 {
        '0'
    } else if d == 1 {
        '1'
    } else if d == 2 {
        '2'
    } else if d == 3 {
        '3'
    } else if d == 4 {
        '4'
    } else if d == 5 {
        '5'
    } else if d == 6 {
        '6'
    } else if d == 7 {
        '7'
    } else if d == 8 {
        '8'
    } else {
        '9'
    }
}

/// `n` in decimal, without leading zeros.
pub open spec fn decimal_text(n: nat) -> Seq<char>
    decreases n,
{
    if n < 10 {
        seq![digit_char(n)]
    } else {
        decimal_text(n / 10) + seq![digit_char(n % 10)]
    }
}

/// The release numbers joined by dots.
pub open spec fn release_text(r: Seq<u64>) -> Seq<char>
    decreases r.len(),
{
    if r.len() == 0 {
        Seq::empty()
    } else if r.len() == 1 {
        decimal_text(r[0] as nat)
    } else {
        release_text(r.drop_last()) + "."@ + decimal_text(r.last() as nat)
    }
}

pub open spec fn epoch_text(e: u64) -> Seq<char> {
    if e == 0 {
        Seq::empty()
    } else {
        decimal_text(e as nat) + "!"@
    }
}

pub open spec fn pre_text(pre: Option<PreRelease>) -> Seq<char> {
    match pre {
        None => Seq::empty(),
        Some(p) => {
            let tag = match p.kind {
                PreKind::Alpha => "a"@,
                PreKind::Beta => "b"@,
                PreKind::Rc => "rc"@,
            };
            tag + decimal_text(p.number as nat)
        },
    }
}

/// `word` and the number, or nothing.
pub open spec fn tagged_text(word: Seq<char>, n: Option<u64>) -> Seq<char> {
    match n {
        None => Seq::empty(),
        Some(x) => word + decimal_text(x as nat),
    }
}

/// The normalized text of a version: `[N!]release[{a|b|rc}N][.postN][.devN]`.
pub open spec fn version_text(v: VersionView) -> Seq<char> {
    epoch_text(v.epoch) + release_text(v.release) + pre_text(v.pre) + tagged_text(".post"@, v.post)
        + tagged_text(".dev"@, v.dev)
}

fn digit_str(d: u64) -> (r: &'static str)
    requires
        d < 10,
    ensures
        r@ == seq![digit_char(d as nat)],
{
    proof {
        reveal_strlit("0");
        reveal_strlit("1");
        reveal_strlit("2");
        reveal_strlit("3");
        reveal_strlit("4");
        reveal_strlit("5");
        reveal_strlit("6");
        reveal_strlit("7");
        reveal_strlit("8");
        reveal_strlit("9");
    }
    match d {
        0 => "0",
        1 => "1",
        2 => "2",
        3 => "3",
        4 => "4",
        5 => "5",
        6 => "6",
        7 => "7",
        8 => "8",
        _ => "9",
    }
}

/// Appends `n` in decimal.
pub fn push_decimal(s: &mut String, n: u64)
    ensures
        final(s)@ == old(s)@ + decimal_text(n as nat),
    decreases n,
{
    if n >= 10 {
        push_decimal(s, n / 10);
    }
    let ghost mid = s@;
    s.append(digit_str(n % 10));
    proof {
        if n >= 10 {
            assert(s@ =~= old(s)@ + decimal_text(n as nat));
        } else {
            assert(s@ =~= old(s)@ + decimal_text(n as nat));
        }
    }
}

impl Version {
    /// The normalized text of this version.
    pub fn to_string(&self) -> (r: String)
        ensures
            r@ == version_text(self@),
    {
        let mut s = String::new();
        if self.epoch != 0 {
            push_decimal(&mut s, self.epoch);
            s.append("!");
        }
        let ghost head = s@;
        let r = &self.release;
        let mut i: usize = 0;
        assert(r@.take(0) =~= Seq::<u64>::empty());
        assert(s@ =~= head + release_text(r@.take(0)));
        while i < r.len()
            invariant
                i <= r@.len(),
                s@ == head + release_text(r@.take(i as int)),
            decreases r@.len() - i,
        {
            let ghost before = s@;
            assert(r@.take(i + 1).drop_last() =~= r@.take(i as int));
            if i > 0 {
                s.append(".");
            }
            push_decimal(&mut s, r[i]);
            assert(s@ =~= head + release_text(r@.take(i + 1)));
            i = i + 1;
        }
        assert(r@.take(i as int) =~= r@);
        let ghost mid = s@;
        match self.pre {
            None => {},
            Some(p) => {
                match p.kind {
                    PreKind::Alpha => s.append("a"),
                    PreKind::Beta => s.append("b"),
                    PreKind::Rc => s.append("rc"),
                }
                push_decimal(&mut s, p.number);
            },
        }
        let ghost mid2 = s@;
        match self.post {
            None => {},
            Some(n) => {
                s.append(".post");
                push_decimal(&mut s, n);
            },
        }
        let ghost mid3 = s@;
        match self.dev {
            None => {},
            Some(n) => {
                s.append(".dev");
                push_decimal(&mut s, n);
            },
        }
        assert(s@ =~= version_text(self@));
        s
    }
}

} // verus!
