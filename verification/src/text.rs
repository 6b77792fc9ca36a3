//! Character-level helpers with the semantics of the corresponding `str`
//! methods of std: whitespace trimming, line splitting, integer parsing and
//! decimal formatting.

use vstd::prelude::*;
use vstd::string::*;

verus! {

/// The Unicode `White_Space` property, which is what `char::is_whitespace`
/// and `str::trim` test.
pub open spec fn is_ws(c: char) -> bool {
    let u = c as u32;
    (0x9 <= u && u <= 0xd) || u == 0x20 || u == 0x85 || u == 0xa0 || u == 0x1680
        || (0x2000 <= u && u <= 0x200a) || u == 0x2028 || u == 0x2029 || u == 0x202f
        || u == 0x205f || u == 0x3000
}

pub fn is_whitespace(c: char) -> (b: bool)
    ensures
        b == is_ws(c),
{
    let u = c as u32;
    (0x9 <= u && u <= 0xd) || u == 0x20 || u == 0x85 || u == 0xa0 || u == 0x1680
        || (0x2000 <= u && u <= 0x200a) || u == 0x2028 || u == 0x2029 || u == 0x202f
        || u == 0x205f || u == 0x3000
}

/// `s` without its leading whitespace.
pub open spec fn trim_start(s: Seq<char>) -> Seq<char>
    decreases s.len(),
{
    if s.len() > 0 && is_ws(s[0]) {
        trim_start(s.drop_first())
    } else {
        s
    }
}

/// `s` without its trailing whitespace.
pub open spec fn trim_end(s: Seq<char>) -> Seq<char>
    decreases s.len(),
{
    if s.len() > 0 && is_ws(s.last()) {
        trim_end(s.drop_last())
    } else {
        s
    }
}

/// What `str::trim` returns.
pub open spec fn trimmed(s: Seq<char>) -> Seq<char> {
    trim_end(trim_start(s))
}

/// `str::trim`: the text without leading and trailing whitespace.
pub fn trim(s: &str) -> (r: &str)
    ensures
        r@ == trimmed(s@),
{
    let n = s.unicode_len();
    let mut lo: usize = 0;
    assert(s@.subrange(0, n as int) =~= s@);
    while lo < n && is_whitespace(s.get_char(lo))
        invariant
            n == s@.len(),
            lo <= n,
            trim_start(s@) == trim_start(s@.subrange(lo as int, n as int)),
        decreases n - lo,
    {
        assert(s@.subrange(lo as int, n as int).drop_first() =~= s@.subrange(lo + 1, n as int));
        lo = lo + 1;
    }
    assert(trim_start(s@.subrange(lo as int, n as int)) == s@.subrange(lo as int, n as int));
    let mut hi: usize = n;
    while hi > lo && is_whitespace(s.get_char(hi - 1))
        invariant
            n == s@.len(),
            lo <= hi <= n,
            trimmed(s@) == trim_end(s@.subrange(lo as int, hi as int)),
        decreases hi - lo,
    {
        assert(s@.subrange(lo as int, hi as int).drop_last() =~= s@.subrange(lo as int, hi - 1));
        hi = hi - 1;
    }
    s.substring_char(lo, hi)
}


/// Whether two strings hold the same characters.
pub fn str_eq(a: &str, b: &str) -> (r: bool)
    ensures
        r == (a@ == b@),
{
    let x = a.to_owned();
    let y = b.to_owned();
    x == y
}

/// Index of the first occurrence of `c` in `s`, or `s.len()` when there is none.
pub open spec fn first_of(s: Seq<char>, c: char) -> nat
    decreases s.len(),
{
    if s.len() == 0 {
        0
    } else if s[0] == c {
        0
    } else {
        1 + first_of(s.drop_first(), c)
    }
}

/// `first_of` is the index of the first `c`, or the length when there is none.
pub proof fn lemma_first_of(s: Seq<char>, c: char, k: int)
    requires
        0 <= k <= s.len(),
        forall|j: int| 0 <= j < k ==> s[j] != c,
        k == s.len() || s[k] == c,
    ensures
        first_of(s, c) == k,
    decreases k,
{
    if k > 0 {
        lemma_first_of(s.drop_first(), c, k - 1);
    }
}

/// Scans `s` from `from` for `c` and returns the index of the first one, or
/// the length of `s`.
pub fn find_char_from(s: &str, c: char, from: usize) -> (k: usize)
    requires
        from <= s@.len(),
    ensures
        from <= k <= s@.len(),
        k == from + first_of(s@.subrange(from as int, s@.len() as int), c),
{
    let n = s.unicode_len();
    let mut i = from;
    while i < n && s.get_char(i) != c
        invariant
            n == s@.len(),
            from <= i <= n,
            forall|j: int| from <= j < i ==> s@[j] != c,
        decreases n - i,
    {
        i = i + 1;
    }
    proof {
        lemma_first_of(s@.subrange(from as int, n as int), c, i - from);
    }
    i
}

/// `str::split_once` with a character pattern.
pub open spec fn split_once_spec(s: Seq<char>, c: char) -> Option<(Seq<char>, Seq<char>)> {
    let k = first_of(s, c);
    if k < s.len() {
        Some((s.take(k as int), s.skip(k as int + 1)))
    } else {
        None
    }
}

/// `str::split_once(c)`: the text before and after the first `c`.
pub fn split_once<'a>(s: &'a str, c: char) -> (r: Option<(&'a str, &'a str)>)
    ensures
        match r {
            Some((a, b)) => split_once_spec(s@, c) == Some((a@, b@)),
            None => split_once_spec(s@, c) is None,
        },
{
    let n = s.unicode_len();
    let k = find_char_from(s, c, 0);
    assert(s@.subrange(0, n as int) =~= s@);
    if k < n {
        let a = s.substring_char(0, k);
        let b = s.substring_char(k + 1, n);
        assert(a@ =~= s@.take(k as int));
        assert(b@ =~= s@.skip(k + 1));
        Some((a, b))
    } else {
        None
    }
}

/// The line a piece of text ending in `\n` stands for: a `\r` before the
/// newline belongs to the line ending.
pub open spec fn cut_cr(t: Seq<char>) -> Seq<char> {
    if t.len() > 0 && t.last() == '\r' {
        t.drop_last()
    } else {
        t
    }
}

/// `str::lines`: lines end at `\n` or `\r\n`; a final line ending adds no
/// empty line, and a `\r` at the very end stays in the last line.
pub open spec fn lines_of(s: Seq<char>) -> Seq<Seq<char>>
    decreases s.len(),
{
    if s.len() == 0 {
        Seq::empty()
    } else {
        let k = first_of(s, '\n');
        if k < s.len() {
            seq![cut_cr(s.take(k as int))] + lines_of(s.skip(k as int + 1))
        } else {
            seq![s]
        }
    }
}

/// The views of a vector of string slices.
pub open spec fn views(v: Seq<&str>) -> Seq<Seq<char>> {
    v.map_values(|x: &str| x@)
}

/// `str::lines`, collected.
pub fn lines<'a>(s: &'a str) -> (r: Vec<&'a str>)
    ensures
        views(r@) == lines_of(s@),
{
    let n = s.unicode_len();
    let mut out: Vec<&'a str> = Vec::new();
    let mut start: usize = 0;
    assert(s@.subrange(0, n as int) =~= s@);
    while start < n
        invariant
            n == s@.len(),
            start <= n,
            lines_of(s@) == views(out@) + lines_of(s@.subrange(start as int, n as int)),
        decreases n - start,
    {
        let ghost rest = s@.subrange(start as int, n as int);
        let k = find_char_from(s, '\n', start);
        if k < n {
            let end = if k > start && s.get_char(k - 1) == '\r' {
                k - 1
            } else {
                k
            };
            let line = s.substring_char(start, end);
            assert(line@ =~= cut_cr(rest.take(k - start)));
            assert(rest.skip(k - start + 1) =~= s@.subrange(k + 1, n as int));
            let ghost before = views(out@);
            out.push(line);
            assert(views(out@) =~= before.push(line@));
            assert(lines_of(rest) == seq![line@] + lines_of(s@.subrange(k + 1, n as int)));
            assert(before + lines_of(rest) =~= views(out@) + lines_of(s@.subrange(k + 1, n as int)));
            start = k + 1;
        } else {
            let line = s.substring_char(start, n);
            let ghost before = views(out@);
            out.push(line);
            assert(views(out@) =~= before.push(line@));
            assert(lines_of(rest) == seq![line@]);
            assert(lines_of(s@.subrange(n as int, n as int)) =~= Seq::<Seq<char>>::empty());
            assert(before + lines_of(rest) =~= views(out@) + lines_of(s@.subrange(n as int, n as int)));
            start = n;
        }
    }
    assert(lines_of(s@.subrange(n as int, n as int)) =~= Seq::<Seq<char>>::empty());
    assert(views(out@) + Seq::<Seq<char>>::empty() =~= views(out@));
    out
}


/// Whether `p` is a prefix of `s`.
pub open spec fn has_prefix(s: Seq<char>, p: Seq<char>) -> bool {
    p.len() <= s.len() && s.take(p.len() as int) == p
}

/// `str::strip_prefix`: the rest of `s` after `p`, when `s` starts with `p`.
pub fn strip_prefix<'a>(s: &'a str, p: &str) -> (r: Option<&'a str>)
    ensures
        match r {
            Some(rest) => has_prefix(s@, p@) && rest@ == s@.skip(p@.len() as int),
            None => !has_prefix(s@, p@),
        },
{
    let n = s.unicode_len();
    let m = p.unicode_len();
    if m > n {
        return None;
    }
    let mut i: usize = 0;
    while i < m
        invariant
            n == s@.len(),
            m == p@.len(),
            m <= n,
            i <= m,
            forall|j: int| 0 <= j < i ==> s@[j] == p@[j],
        decreases m - i,
    {
        if s.get_char(i) != p.get_char(i) {
            assert(s@.take(m as int)[i as int] != p@[i as int]);
            return None;
        }
        i = i + 1;
    }
    assert(s@.take(m as int) =~= p@);
    let rest = s.substring_char(m, n);
    assert(rest@ =~= s@.skip(m as int));
    Some(rest)
}

/// Whether `needle` occurs in `hay` at position `i`.
pub open spec fn occurs_at(hay: Seq<char>, needle: Seq<char>, i: int) -> bool {
    0 <= i && i + needle.len() <= hay.len() && hay.subrange(i, i + needle.len()) == needle
}

/// `str::contains` with a string pattern.
pub fn contains(hay: &str, needle: &str) -> (r: bool)
    ensures
        r == exists|i: int| occurs_at(hay@, needle@, i),
{
    let n = hay.unicode_len();
    let m = needle.unicode_len();
    if m > n {
        assert forall|i: int| !occurs_at(hay@, needle@, i) by {}
        return false;
    }
    let mut i: usize = 0;
    while i <= n - m
        invariant
            n == hay@.len(),
            m == needle@.len(),
            m <= n,
            i <= n - m + 1,
            forall|k: int| 0 <= k < i ==> !occurs_at(hay@, needle@, k),
        decreases n - i,
    {
        let mut j: usize = 0;
        while j < m && hay.get_char(i + j) == needle.get_char(j)
            invariant
                n == hay@.len(),
                m == needle@.len(),
                i + m <= n,
                j <= m,
                forall|t: int| 0 <= t < j ==> hay@[i + t] == needle@[t],
            decreases m - j,
        {
            j = j + 1;
        }
        if j == m {
            assert(hay@.subrange(i as int, i + m) =~= needle@);
            assert(occurs_at(hay@, needle@, i as int));
            return true;
        }
        assert(hay@.subrange(i as int, i + m)[j as int] != needle@[j as int]);
        i = i + 1;
    }
    assert forall|k: int| !occurs_at(hay@, needle@, k) by {
        if 0 <= k < i {
        } else if k >= i {
        }
    }
    false
}

/// `str::trim_end_matches` with a string pattern: every trailing copy of `p`
/// removed.
pub open spec fn trim_end_matching(s: Seq<char>, p: Seq<char>) -> Seq<char>
    decreases s.len(),
{
    if p.len() > 0 && p.len() <= s.len() && s.skip(s.len() - p.len()) == p {
        trim_end_matching(s.take(s.len() - p.len()), p)
    } else {
        s
    }
}

/// `str::trim_end_matches(p)`.
pub fn trim_end_matches<'a>(s: &'a str, p: &str) -> (r: &'a str)
    ensures
        r@ == trim_end_matching(s@, p@),
{
    let n = s.unicode_len();
    let m = p.unicode_len();
    if m == 0 {
        return s;
    }
    let mut end: usize = n;
    assert(s@.take(n as int) =~= s@);
    loop
        invariant
            n == s@.len(),
            m == p@.len(),
            m > 0,
            end <= n,
            trim_end_matching(s@, p@) == trim_end_matching(s@.take(end as int), p@),
        ensures
            end <= n,
            trim_end_matching(s@, p@) == s@.take(end as int),
        decreases end,
    {
        if m > end {
            assert(s@.take(end as int).len() == end);
            break;
        }
        let mut j: usize = 0;
        let base = end - m;
        while j < m && s.get_char(base + j) == p.get_char(j)
            invariant
                n == s@.len(),
                m == p@.len(),
                base + m == end,
                end <= n,
                j <= m,
                forall|t: int| 0 <= t < j ==> s@[base + t] == p@[t],
            decreases m - j,
        {
            j = j + 1;
        }
        let ghost t = s@.take(end as int);
        if j < m {
            assert(t.skip(t.len() - m)[j as int] != p@[j as int]);
            break;
        }
        assert(t.skip(t.len() - m) =~= p@);
        assert(t.take(t.len() - m) =~= s@.take(base as int));
        end = base;
    }
    let r = s.substring_char(0, end);
    assert(r@ =~= s@.take(end as int));
    r
}

/// Index of the last `c` in `s`, or -1.
pub open spec fn last_of(s: Seq<char>, c: char) -> int
    decreases s.len(),
{
    if s.len() == 0 {
        -1
    } else if s.last() == c {
        s.len() - 1
    } else {
        last_of(s.drop_last(), c)
    }
}

/// What `s.rsplit(c).next()` yields: the text after the last `c`, or all of
/// `s` when it holds none.
pub open spec fn after_last(s: Seq<char>, c: char) -> Seq<char> {
    s.skip(last_of(s, c) + 1)
}

/// `s.rsplit(c).next().unwrap()`.
pub fn after_last_char<'a>(s: &'a str, c: char) -> (r: &'a str)
    ensures
        r@ == after_last(s@, c),
{
    let n = s.unicode_len();
    let mut k: usize = n;
    assert(s@.take(n as int) =~= s@);
    while k > 0 && s.get_char(k - 1) != c
        invariant
            n == s@.len(),
            k <= n,
            last_of(s@, c) == last_of(s@.take(k as int), c),
        decreases k,
    {
        let ghost t = s@.take(k as int);
        assert(t.last() == s@[k - 1]);
        assert(t.drop_last() =~= s@.take(k - 1));
        assert(last_of(t, c) == last_of(t.drop_last(), c));
        k = k - 1;
    }
    proof {
        let t = s@.take(k as int);
        if k == 0 {
            assert(t.len() == 0);
            assert(last_of(t, c) == -1);
        } else {
            assert(t.last() == c);
            assert(last_of(t, c) == k - 1);
        }
    }
    let r = s.substring_char(k, n);
    assert(r@ =~= s@.skip(k as int));
    r
}

/// The value of a run of ASCII digits.
pub open spec fn digits_value(d: Seq<char>) -> int
    decreases d.len(),
{
    if d.len() == 0 {
        0
    } else {
        digits_value(d.drop_last()) * 10 + (d.last() as int - '0' as int)
    }
}

pub open spec fn is_digit(c: char) -> bool {
    '0' as int <= c as int && c as int <= '9' as int
}

pub open spec fn all_digits(d: Seq<char>) -> bool {
    forall|i: int| 0 <= i < d.len() ==> is_digit(#[trigger] d[i])
}

/// `str::parse` for a primitive integer type with the given range: an
/// optional `+` (or, for a signed type, `-`), then at least one ASCII digit,
/// and nothing else; a value outside the range is an error.
pub open spec fn parse_int(s: Seq<char>, signed: bool, min: int, max: int) -> Option<int> {
    if s.len() == 0 {
        None
    } else if (s[0] == '+' || s[0] == '-') && s.len() == 1 {
        None
    } else {
        let neg = signed && s[0] == '-';
        let d = if s[0] == '+' || neg { s.drop_first() } else { s };
        if !all_digits(d) {
            None
        } else {
            let v = if neg { -digits_value(d) } else { digits_value(d) };
            if min <= v && v <= max {
                Some(v)
            } else {
                None
            }
        }
    }
}

proof fn lemma_digits_grow(d: Seq<char>, k: int)
    requires
        all_digits(d),
        0 <= k <= d.len(),
    ensures
        digits_value(d.take(k)) <= digits_value(d),
        0 <= digits_value(d.take(k)),
    decreases d.len() - k,
{
    if k < d.len() {
        lemma_digits_grow(d, k + 1);
        assert(d.take(k + 1).drop_last() =~= d.take(k));
        assert(is_digit(d[k]));
    } else {
        assert(d.take(k) =~= d);
    }
    lemma_digits_nonneg(d);
}

proof fn lemma_digits_nonneg(d: Seq<char>)
    requires
        all_digits(d),
    ensures
        0 <= digits_value(d),
    decreases d.len(),
{
    if d.len() > 0 {
        assert(all_digits(d.drop_last()));
        lemma_digits_nonneg(d.drop_last());
        assert(is_digit(d[d.len() - 1]));
    }
}

const DIGITS_CAP: u128 = 0x1_0000_0000_0000_0000;

/// The value of `s[from..]` when it is all ASCII digits and at most 2^64;
/// `None` otherwise.
fn digits_from(s: &str, from: usize) -> (r: Option<u128>)
    requires
        from <= s@.len(),
    ensures
        match r {
            Some(v) => all_digits(s@.skip(from as int)) && v == digits_value(s@.skip(from as int))
                && v <= DIGITS_CAP,
            None => !all_digits(s@.skip(from as int)) || digits_value(s@.skip(from as int))
                > DIGITS_CAP,
        },
{
    let n = s.unicode_len();
    let ghost d = s@.skip(from as int);
    let mut acc: u128 = 0;
    let mut i = from;
    assert(d.take(0) =~= Seq::<char>::empty());
    while i < n
        invariant
            n == s@.len(),
            from <= i <= n,
            d == s@.skip(from as int),
            all_digits(d.take(i - from)),
            acc == digits_value(d.take(i - from)),
            acc <= DIGITS_CAP,
        decreases n - i,
    {
        let c = s.get_char(i);
        if !('0' <= c && c <= '9') {
            assert(d[i - from] == c);
            return None;
        }
        let dv = (c as u32 - '0' as u32) as u128;
        assert(d.take(i - from + 1).drop_last() =~= d.take(i - from));
        assert(all_digits(d.take(i - from + 1)));
        acc = acc * 10 + dv;
        i = i + 1;
        if acc > DIGITS_CAP {
            proof {
                if all_digits(d) {
                    lemma_digits_grow(d, i - from);
                }
            }
            return None;
        }
    }
    assert(d.take(i - from) =~= d);
    Some(acc)
}

/// `str::parse::<i32>`.
pub fn parse_i32(s: &str) -> (r: Option<i32>)
    ensures
        match r {
            Some(v) => parse_int(s@, true, i32::MIN as int, i32::MAX as int) == Some(v as int),
            None => parse_int(s@, true, i32::MIN as int, i32::MAX as int) is None,
        },
{
    let n = s.unicode_len();
    if n == 0 {
        return None;
    }
    let c0 = s.get_char(0);
    if (c0 == '+' || c0 == '-') && n == 1 {
        return None;
    }
    let neg = c0 == '-';
    let from: usize = if c0 == '+' || neg { 1 } else { 0 };
    assert(from == 1 ==> s@.skip(1) =~= s@.drop_first());
    assert(s@.skip(0) =~= s@);
    match digits_from(s, from) {
        None => None,
        Some(v) => {
            if neg {
                if v <= 0x8000_0000 {
                    Some((0 - (v as i64)) as i32)
                } else {
                    None
                }
            } else {
                if v <= 0x7fff_ffff {
                    Some(v as i32)
                } else {
                    None
                }
            }
        },
    }
}

/// `str::parse::<u64>`.
pub fn parse_u64(s: &str) -> (r: Option<u64>)
    ensures
        match r {
            Some(v) => parse_int(s@, false, 0, u64::MAX as int) == Some(v as int),
            None => parse_int(s@, false, 0, u64::MAX as int) is None,
        },
{
    let n = s.unicode_len();
    if n == 0 {
        return None;
    }
    let c0 = s.get_char(0);
    if (c0 == '+' || c0 == '-') && n == 1 {
        return None;
    }
    let from: usize = if c0 == '+' { 1 } else { 0 };
    assert(from == 1 ==> s@.skip(1) =~= s@.drop_first());
    assert(s@.skip(0) =~= s@);
    match digits_from(s, from) {
        None => None,
        Some(v) => {
            if v <= 0xffff_ffff_ffff_ffff {
                Some(v as u64)
            } else {
                None
            }
        },
    }
}


pub open spec fn digit_char(d: int) -> char {
    (d + '0' as int) as char
}

/// The decimal digits of `n`, most significant first, without leading zeros.
pub open spec fn nat_digits(n: nat) -> Seq<char>
    decreases n,
{
    if n < 10 {
        seq![digit_char(n as int)]
    } else {
        nat_digits(n / 10).push(digit_char((n % 10) as int))
    }
}

/// How `ToString` writes an integer: a `-` for negative values, then the
/// decimal digits.
pub open spec fn decimal(n: int) -> Seq<char> {
    if n < 0 {
        seq!['-'] + nat_digits((-n) as nat)
    } else {
        nat_digits(n as nat)
    }
}

fn digit_str(d: u64) -> (r: &'static str)
    requires
        d < 10,
    ensures
        r@ == seq![digit_char(d as int)],
{
    match d {
        0 => { proof { reveal_strlit("0"); } assert("0"@ =~= seq!['0']); "0" },
        1 => { proof { reveal_strlit("1"); } assert("1"@ =~= seq!['1']); "1" },
        2 => { proof { reveal_strlit("2"); } assert("2"@ =~= seq!['2']); "2" },
        3 => { proof { reveal_strlit("3"); } assert("3"@ =~= seq!['3']); "3" },
        4 => { proof { reveal_strlit("4"); } assert("4"@ =~= seq!['4']); "4" },
        5 => { proof { reveal_strlit("5"); } assert("5"@ =~= seq!['5']); "5" },
        6 => { proof { reveal_strlit("6"); } assert("6"@ =~= seq!['6']); "6" },
        7 => { proof { reveal_strlit("7"); } assert("7"@ =~= seq!['7']); "7" },
        8 => { proof { reveal_strlit("8"); } assert("8"@ =~= seq!['8']); "8" },
        _ => { proof { reveal_strlit("9"); } assert("9"@ =~= seq!['9']); "9" },
    }
}

/// The decimal digits of `n`.
pub fn u64_to_string(n: u64) -> (r: String)
    ensures
        r@ == nat_digits(n as nat),
    decreases n,
{
    if n < 10 {
        String::from_str(digit_str(n))
    } else {
        let mut r = u64_to_string(n / 10);
        r.append(digit_str(n % 10));
        r
    }
}

/// `i64::to_string`.
pub fn i64_to_string(n: i64) -> (r: String)
    ensures
        r@ == decimal(n as int),
{
    if n < 0 {
        let mag: u64 = (0 - (n as i128)) as u64;
        let mut r = String::from_str("-");
        proof {
            reveal_strlit("-");
        }
        r.append(u64_to_string(mag).as_str());
        assert(r@ =~= seq!['-'] + nat_digits((-n) as nat));
        r
    } else {
        u64_to_string(n as u64)
    }
}

proof fn lemma_nat_digits(n: nat)
    ensures
        all_digits(nat_digits(n)),
        digits_value(nat_digits(n)) == n,
        nat_digits(n).len() >= 1,
        is_digit(nat_digits(n)[0]),
    decreases n,
{
    if n >= 10 {
        lemma_nat_digits(n / 10);
        let d = nat_digits(n);
        assert(d.drop_last() =~= nat_digits(n / 10));
        assert(d.last() == digit_char((n % 10) as int));
        assert(digit_char((n % 10) as int) as int == (n % 10) + '0' as int);
        assert((n / 10) * 10 + n % 10 == n);
        assert forall|i: int| 0 <= i < d.len() implies is_digit(#[trigger] d[i]) by {
            if i < d.len() - 1 {
                assert(d[i] == nat_digits(n / 10)[i]);
            }
        }
        assert(digits_value(d) == digits_value(d.drop_last()) * 10 + (d.last() as int - '0' as int));
    } else {
        let d = nat_digits(n);
        assert(d.drop_last() =~= Seq::<char>::empty());
        assert(digits_value(d.drop_last()) == 0);
        assert(digit_char(n as int) as int == n + '0' as int);
    }
}

/// Reading back what was written: `str::parse` recovers every integer of the
/// target type from its decimal text.
pub proof fn lemma_parse_decimal(n: int, signed: bool, min: int, max: int)
    requires
        min <= n <= max,
        signed || n >= 0,
    ensures
        parse_int(decimal(n), signed, min, max) == Some(n),
{
    if n < 0 {
        lemma_nat_digits((-n) as nat);
        let s = decimal(n);
        assert(s.drop_first() =~= nat_digits((-n) as nat));
    } else {
        lemma_nat_digits(n as nat);
    }
}


/// Whether an optional text is exactly `lit`.
pub fn opt_str_is(o: Option<&str>, lit: &str) -> (r: bool)
    ensures
        r == (match o {
            Some(s) => s@ == lit@,
            None => false,
        }),
{
    match o {
        Some(s) => str_eq(s, lit),
        None => false,
    }
}


/// What `s.split(c).next()` yields: the text before the first `c`, or all
/// of `s`.
pub open spec fn first_field(s: Seq<char>, c: char) -> Seq<char> {
    s.take(first_of(s, c) as int)
}

pub fn field_before<'a>(s: &'a str, c: char) -> (r: &'a str)
    ensures
        r@ == first_field(s@, c),
{
    let k = find_char_from(s, c, 0);
    assert(s@.subrange(0, s@.len() as int) =~= s@);
    let r = s.substring_char(0, k);
    assert(r@ =~= s@.take(k as int));
    r
}

} // verus!
