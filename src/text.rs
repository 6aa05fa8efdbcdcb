//! Character-level helpers shared by the parsers: digits, case folding of
//! ASCII letters, and '/'-separated path strings.
use vstd::prelude::*;

verus! {

pub open spec fn is_digit(c: char) -> bool {
    '0' <= c && c <= '9'
}

pub open spec fn digit_value(c: char) -> nat {
    (c as u32 - '0' as u32) as nat
}

/// `c` equals the lower-case ASCII character `k`, ignoring ASCII case.
pub open spec fn fold_eq(c: char, k: char) -> bool {
    c == k || ('a' <= k && k <= 'z' && c as u32 + 32 == k as u32)
}

/// Every character of `s` is a decimal digit.
pub open spec fn all_digits(s: Seq<char>) -> bool {
    forall|i: int| 0 <= i < s.len() ==> is_digit(#[trigger] s[i])
}

/// The number written by the decimal digits `s` (most significant first).
pub open spec fn decimal_value(s: Seq<char>) -> nat
    decreases s.len(),
{
    if s.len() == 0 {
        0
    } else {
        decimal_value(s.drop_last()) * 10 + digit_value(s.last())
    }
}

pub fn char_is_digit(c: char) -> (r: bool)
    ensures
        r == is_digit(c),
{
    '0' <= c && c <= '9'
}

pub fn char_fold_eq(c: char, k: char) -> (r: bool)
    ensures
        r == fold_eq(c, k),
{
    c == k || ('a' <= k && k <= 'z' && (c as u32) + 32 == k as u32)
}

/// The characters of `s`, one element each.
pub fn chars_of(s: &str) -> (v: Vec<char>)
    ensures
        v@ == s@,
{
    let n = s.unicode_len();
    let mut v: Vec<char> = Vec::new();
    let mut i: usize = 0;
    while i < n
        invariant
            n == s@.len(),
            i <= n,
            v@ == s@.take(i as int),
        decreases n - i,
    {
        v.push(s.get_char(i));
        i = i + 1;
        assert(v@ =~= s@.take(i as int));
    }
    assert(v@ =~= s@);
    v
}

/// Reads the decimal digits `s[lo..hi]` as a `usize`; `None` when the value
/// does not fit.
pub fn parse_decimal(s: &Vec<char>, lo: usize, hi: usize) -> (r: Option<usize>)
    requires
        lo <= hi <= s@.len(),
        all_digits(s@.subrange(lo as int, hi as int)),
    ensures
        match r {
            Some(n) => n as nat == decimal_value(s@.subrange(lo as int, hi as int)),
            None => decimal_value(s@.subrange(lo as int, hi as int)) > usize::MAX,
        },
{
    let mut acc: usize = 0;
    let mut i: usize = lo;
    while i < hi
        invariant
            lo <= i <= hi <= s@.len(),
            all_digits(s@.subrange(lo as int, hi as int)),
            acc as nat == decimal_value(s@.subrange(lo as int, i as int)),
        decreases hi - i,
    {
        let c = s[i];
        assert(s@.subrange(lo as int, hi as int)[i - lo] == c);
        let d = (c as u32 - '0' as u32) as usize;
        let ghost prefix = s@.subrange(lo as int, i as int);
        let ghost next = s@.subrange(lo as int, i + 1);
        assert(next.drop_last() =~= prefix);
        assert(decimal_value(next) == decimal_value(prefix) * 10 + d);
        if acc > (usize::MAX - d) / 10 {
            proof {
                lemma_grows_past(s@, lo as int, i as int + 1, hi as int);
                assert(acc * 10 + d > usize::MAX) by (nonlinear_arith)
                    requires
                        acc > (usize::MAX - d) / 10,
                        d <= 9,
                ;
            }
            return None;
        }
        assert(acc * 10 + d <= usize::MAX) by (nonlinear_arith)
            requires
                acc <= (usize::MAX - d) / 10,
                d <= 9,
        ;
        acc = acc * 10 + d;
        i = i + 1;
    }
    Some(acc)
}

/// Adding digits never makes a decimal number smaller.
proof fn lemma_grows_past(s: Seq<char>, lo: int, mid: int, hi: int)
    requires
        0 <= lo <= mid <= hi <= s.len(),
    ensures
        decimal_value(s.subrange(lo, mid)) <= decimal_value(s.subrange(lo, hi)),
    decreases hi - mid,
{
    if mid < hi {
        lemma_grows_past(s, lo, mid, hi - 1);
        assert(s.subrange(lo, hi).drop_last() =~= s.subrange(lo, hi - 1));
    }
}

/// Index of the last `c` in `s`, or -1 when `s` holds none.
pub open spec fn last_index(s: Seq<char>, c: char) -> int
    decreases s.len(),
{
    if s.len() == 0 {
        -1
    } else if s.last() == c {
        s.len() - 1
    } else {
        last_index(s.drop_last(), c)
    }
}

/// The last component of the '/'-separated path `p`; none when it is empty,
/// `.` or `..`.
pub open spec fn file_name(p: Seq<char>) -> Option<Seq<char>> {
    let n = p.skip(last_index(p, '/') + 1);
    if n.len() == 0 || n == seq!['.'] || n == seq!['.', '.'] {
        None
    } else {
        Some(n)
    }
}

/// What follows the last dot of the file name, when that dot is not its
/// first character.
pub open spec fn extension(p: Seq<char>) -> Option<Seq<char>> {
    match file_name(p) {
        None => None,
        Some(n) => if last_index(n, '.') <= 0 {
            None
        } else {
            Some(n.skip(last_index(n, '.') + 1))
        },
    }
}

proof fn lemma_last_index_bounds(s: Seq<char>, c: char)
    ensures
        -1 <= last_index(s, c) < s.len(),
        last_index(s, c) >= 0 ==> s[last_index(s, c)] == c,
    decreases s.len(),
{
    if s.len() > 0 && s.last() != c {
        lemma_last_index_bounds(s.drop_last(), c);
    }
}

pub fn last_index_of(v: &Vec<char>, lo: usize, c: char) -> (r: Option<usize>)
    requires
        lo <= v@.len(),
    ensures
        match r {
            Some(k) => lo <= k < v@.len() && k - lo == last_index(v@.skip(lo as int), c),
            None => last_index(v@.skip(lo as int), c) == -1,
        },
{
    let mut i: usize = v.len();
    while i > lo
        invariant
            lo <= i <= v@.len(),
            last_index(v@.skip(lo as int), c) == last_index(v@.subrange(lo as int, i as int), c),
        decreases i,
    {
        assert(v@.subrange(lo as int, i as int).drop_last() =~= v@.subrange(lo as int, i - 1));
        if v[i - 1] == c {
            return Some(i - 1);
        }
        i = i - 1;
    }
    None
}

/// Where the file name of `p` starts, when `p` has one.
pub fn file_name_start(p: &Vec<char>) -> (r: Option<usize>)
    ensures
        match r {
            Some(k) => k <= p@.len() && file_name(p@) == Some(p@.skip(k as int)),
            None => file_name(p@).is_none(),
        },
{
    assert(p@.skip(0) =~= p@);
    let plen = p.len();
    let k: usize = match last_index_of(p, 0, '/') {
        Some(j) => j + 1,
        None => 0,
    };
    let len = p.len() - k;
    let ghost n = p@.skip(k as int);
    proof {
        lemma_last_index_bounds(p@, '/');
        assert(k as int == last_index(p@, '/') + 1);
        assert(n.len() == len);
    }
    if len == 0 {
        return None;
    }
    if len == 1 && p[k] == '.' {
        assert(n =~= seq!['.']);
        return None;
    }
    if len == 2 && p[k] == '.' && p[k + 1] == '.' {
        assert(n =~= seq!['.', '.']);
        return None;
    }
    assert(len == 1 ==> n != seq!['.']) by {
        if len == 1 && n == seq!['.'] {
            assert(n[0] == p@[k as int]);
        }
    }
    assert(len == 2 ==> n != seq!['.', '.']) by {
        if len == 2 && n == seq!['.', '.'] {
            assert(n[0] == p@[k as int]);
            assert(n[1] == p@[k + 1]);
        }
    }
    assert(file_name(p@) == Some(n));
    Some(k)
}

/// Where the extension of `p` starts (just past its dot), when `p` has one.
pub fn extension_start(p: &Vec<char>) -> (r: Option<usize>)
    ensures
        match r {
            Some(k) => k <= p@.len() && extension(p@) == Some(p@.skip(k as int)),
            None => extension(p@).is_none(),
        },
{
    match file_name_start(p) {
        None => None,
        Some(k) => {
            let plen = p.len();
            let ghost n = p@.skip(k as int);
            match last_index_of(p, k, '.') {
                None => None,
                Some(d) => {
                    if d == k {
                        None
                    } else {
                        assert(n.skip(d - k + 1) =~= p@.skip(d + 1));
                        Some(d + 1)
                    }
                },
            }
        },
    }
}

/// Characters with the Unicode White_Space property.
pub open spec fn is_white(c: char) -> bool {
    ('\u{9}' <= c && c <= '\u{d}') || c == ' ' || c == '\u{85}' || c == '\u{a0}' || c == '\u{1680}'
        || ('\u{2000}' <= c && c <= '\u{200a}') || c == '\u{2028}' || c == '\u{2029}' || c
        == '\u{202f}' || c == '\u{205f}' || c == '\u{3000}'
}

pub fn char_is_white(c: char) -> (r: bool)
    ensures
        r == is_white(c),
{
    ('\u{9}' <= c && c <= '\u{d}') || c == ' ' || c == '\u{85}' || c == '\u{a0}' || c == '\u{1680}'
        || ('\u{2000}' <= c && c <= '\u{200a}') || c == '\u{2028}' || c == '\u{2029}' || c
        == '\u{202f}' || c == '\u{205f}' || c == '\u{3000}'
}

/// `s` without its leading white space.
pub open spec fn trim_start(s: Seq<char>) -> Seq<char>
    decreases s.len(),
{
    if s.len() > 0 && is_white(s[0]) {
        trim_start(s.skip(1))
    } else {
        s
    }
}

/// `s` without its trailing white space.
pub open spec fn trim_end(s: Seq<char>) -> Seq<char>
    decreases s.len(),
{
    if s.len() > 0 && is_white(s.last()) {
        trim_end(s.drop_last())
    } else {
        s
    }
}

/// `s` without leading and trailing white space.
pub open spec fn trimmed(s: Seq<char>) -> Seq<char> {
    trim_end(trim_start(s))
}

/// `s` up to its first `+`, or all of it.
pub open spec fn before_plus(s: Seq<char>) -> Seq<char>
    decreases s.len(),
{
    if s.len() == 0 {
        s
    } else if s.last() == '+' && !s.drop_last().contains('+') {
        s.drop_last()
    } else if s.drop_last().contains('+') {
        before_plus(s.drop_last())
    } else {
        s
    }
}

/// `s` without leading and trailing white space.
pub fn trim(s: &str) -> (r: String)
    ensures
        r@ == trimmed(s@),
{
    let v = chars_of(s);
    let n = v.len();
    let mut lo: usize = 0;
    assert(v@.skip(0) =~= v@);
    while lo < n && char_is_white(v[lo])
        invariant
            lo <= n == v@.len(),
            v@ == s@,
            trim_start(s@) == trim_start(v@.skip(lo as int)),
        decreases n - lo,
    {
        assert(v@.skip(lo as int).skip(1) =~= v@.skip(lo + 1));
        lo = lo + 1;
    }
    assert(trim_start(s@) == v@.subrange(lo as int, n as int)) by {
        assert(v@.skip(lo as int) =~= v@.subrange(lo as int, n as int));
    }
    let mut hi: usize = n;
    while hi > lo && char_is_white(v[hi - 1])
        invariant
            lo <= hi <= n == v@.len(),
            v@ == s@,
            trimmed(s@) == trim_end(v@.subrange(lo as int, hi as int)),
        decreases hi,
    {
        assert(v@.subrange(lo as int, hi as int).drop_last() =~= v@.subrange(lo as int, hi - 1));
        hi = hi - 1;
    }
    let t = s.substring_char(lo, hi);
    String::from_str(t)
}

/// `s` up to its first `+`.
pub fn until_plus(s: &str) -> (r: String)
    ensures
        r@ == before_plus(s@),
        !r@.contains('+'),
{
    let v = chars_of(s);
    let n = v.len();
    let mut i: usize = 0;
    while i < n && v[i] != '+'
        invariant
            i <= n == v@.len(),
            v@ == s@,
            forall|j: int| 0 <= j < i ==> v@[j] != '+',
        decreases n - i,
    {
        i = i + 1;
    }
    proof {
        lemma_before_plus(v@, i as int);
    }
    let t = s.substring_char(0, i);
    String::from_str(t)
}

proof fn lemma_before_plus(s: Seq<char>, i: int)
    requires
        0 <= i <= s.len(),
        forall|j: int| 0 <= j < i ==> s[j] != '+',
        i < s.len() ==> s[i] == '+',
    ensures
        before_plus(s) == s.subrange(0, i),
        !s.subrange(0, i).contains('+'),
    decreases s.len(),
{
    assert(!s.subrange(0, i).contains('+')) by {
        if s.subrange(0, i).contains('+') {
            let j = choose|j: int| 0 <= j < i && s.subrange(0, i)[j] == '+';
            assert(s[j] == '+');
        }
    }
    if s.len() > 0 {
        let d = s.drop_last();
        if i == s.len() {
            assert(s.subrange(0, i) =~= s);
            assert(!d.contains('+')) by {
                if d.contains('+') {
                    let j = choose|j: int| 0 <= j < d.len() && d[j] == '+';
                    assert(s[j] == '+');
                }
            }
        } else if i == s.len() - 1 {
            assert(d =~= s.subrange(0, i));
        } else {
            assert(d[i] == '+');
            assert(d.contains('+'));
            lemma_before_plus(d, i);
            assert(d.subrange(0, i) =~= s.subrange(0, i));
        }
    }
}

/// Whether `s[lo..]` equals `t`.
pub fn tail_eq(s: &Vec<char>, lo: usize, t: &Vec<char>) -> (r: bool)
    requires
        lo <= s@.len(),
    ensures
        r == (s@.skip(lo as int) == t@),
{
    let sl = s.len();
    if sl - lo != t.len() {
        assert(s@.skip(lo as int).len() != t@.len());
        return false;
    }
    let mut i: usize = 0;
    while i < t.len()
        invariant
            lo <= s@.len(),
            sl == s@.len(),
            s@.len() - lo == t@.len(),
            i <= t@.len(),
            forall|j: int| 0 <= j < i ==> s@[lo + j] == t@[j],
        decreases t@.len() - i,
    {
        if s[lo + i] != t[i] {
            assert(s@.skip(lo as int)[i as int] != t@[i as int]);
            return false;
        }
        i = i + 1;
    }
    assert(s@.skip(lo as int) =~= t@);
    true
}

} // verus!
