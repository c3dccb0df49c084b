//! Character-level helpers shared by the parsers: Unicode whitespace,
//! trimming, splitting into words, substring search and number parsing.
use vstd::prelude::*;

verus! {

/// `String::push` appends one character to the string.
pub assume_specification[ String::push ](s: &mut String, ch: char)
    ensures
        final(s)@ == old(s)@.push(ch),
;

/// The code points with the Unicode `White_Space` property, which is what
/// `char::is_whitespace` (and so `str::trim` and `str::split_whitespace`) tests.
pub open spec fn is_ws(c: char) -> bool {
    ||| ('\u{9}' <= c && c <= '\u{d}')
    ||| c == ' '
    ||| c == '\u{85}'
    ||| c == '\u{a0}'
    ||| c == '\u{1680}'
    ||| ('\u{2000}' <= c && c <= '\u{200a}')
    ||| c == '\u{2028}'
    ||| c == '\u{2029}'
    ||| c == '\u{202f}'
    ||| c == '\u{205f}'
    ||| c == '\u{3000}'
}

pub fn is_whitespace(c: char) -> (res: bool)
    ensures
        res == is_ws(c),
{
    ('\u{9}' <= c && c <= '\u{d}') || c == ' ' || c == '\u{85}' || c == '\u{a0}' || c == '\u{1680}'
        || ('\u{2000}' <= c && c <= '\u{200a}') || c == '\u{2028}' || c == '\u{2029}'
        || c == '\u{202f}' || c == '\u{205f}' || c == '\u{3000}'
}

pub open spec fn option_str_view(o: Option<&str>) -> Option<Seq<char>> {
    match o {
        Some(s) => Some(s@),
        None => None,
    }
}

pub open spec fn option_string_view(o: Option<String>) -> Option<Seq<char>> {
    match o {
        Some(s) => Some(s@),
        None => None,
    }
}

/// The characters of a string, in order.
pub fn chars_of(s: &str) -> (v: Vec<char>)
    ensures
        v@ == s@,
{
    let mut v: Vec<char> = Vec::new();
    for c in it: s.chars()
        invariant
            v@ == it.seq().take(it.index() as int),
    {
        v.push(c);
        assert(v@ =~= it.seq().take(it.index() + 1));
    }
    v
}


/// `str::trim`: the sequence without its leading and trailing whitespace.
pub open spec fn trim_start(t: Seq<char>) -> Seq<char>
    decreases t.len(),
{
    if t.len() > 0 && is_ws(t[0]) {
        trim_start(t.drop_first())
    } else {
        t
    }
}

pub open spec fn trim_end(t: Seq<char>) -> Seq<char>
    decreases t.len(),
{
    if t.len() > 0 && is_ws(t.last()) {
        trim_end(t.drop_last())
    } else {
        t
    }
}

pub open spec fn trim(t: Seq<char>) -> Seq<char> {
    trim_end(trim_start(t))
}

/// Number of non-whitespace characters at the start of `t`.
pub open spec fn leading_word_len(t: Seq<char>) -> nat
    decreases t.len(),
{
    if t.len() > 0 && !is_ws(t[0]) {
        1 + leading_word_len(t.drop_first())
    } else {
        0
    }
}

pub proof fn lemma_leading_word_len_bound(t: Seq<char>)
    ensures
        leading_word_len(t) <= t.len(),
        t.len() > 0 && !is_ws(t[0]) ==> leading_word_len(t) >= 1,
    decreases t.len(),
{
    if t.len() > 0 && !is_ws(t[0]) {
        lemma_leading_word_len_bound(t.drop_first());
    }
}

/// `str::split_whitespace`: the maximal runs of non-whitespace characters.
pub open spec fn words(t: Seq<char>) -> Seq<Seq<char>>
    decreases t.len(),
{
    if t.len() == 0 {
        seq![]
    } else if is_ws(t[0]) {
        words(t.drop_first())
    } else {
        let n = leading_word_len(t) as int;
        proof {
            lemma_leading_word_len_bound(t);
        }
        seq![t.take(n)] + words(t.skip(n))
    }
}

pub proof fn lemma_leading_word_chars(t: Seq<char>)
    ensures
        forall|k: int| 0 <= k < leading_word_len(t) ==> !is_ws(#[trigger] t[k]),
    decreases t.len(),
{
    if t.len() > 0 && !is_ws(t[0]) {
        let u = t.drop_first();
        lemma_leading_word_chars(u);
        lemma_leading_word_len_bound(u);
        assert forall|k: int| 0 <= k < leading_word_len(t) implies !is_ws(#[trigger] t[k]) by {
            if k > 0 {
                assert(t[k] == u[k - 1]);
            }
        }
    }
}

/// Words are never empty and hold no whitespace.
pub proof fn lemma_words_are_words(t: Seq<char>)
    ensures
        forall|i: int|
            0 <= i < words(t).len() ==> (#[trigger] words(t)[i]).len() > 0 && forall|k: int|
                0 <= k < words(t)[i].len() ==> !is_ws(#[trigger] words(t)[i][k]),
    decreases t.len(),
{
    if t.len() > 0 {
        if is_ws(t[0]) {
            lemma_words_are_words(t.drop_first());
            assert(words(t) == words(t.drop_first()));
        } else {
            let n = leading_word_len(t) as int;
            lemma_leading_word_len_bound(t);
            lemma_leading_word_chars(t);
            lemma_words_are_words(t.skip(n));
            let w = words(t);
            let rest = words(t.skip(n));
            assert(w == seq![t.take(n)] + rest);
            assert forall|i: int| 0 <= i < w.len() implies (#[trigger] w[i]).len() > 0 && forall|k: int|
                0 <= k < w[i].len() ==> !is_ws(#[trigger] w[i][k]) by {
                if i == 0 {
                    assert(w[0] == t.take(n));
                    assert forall|k: int| 0 <= k < w[0].len() implies !is_ws(#[trigger] w[0][k]) by {
                        assert(w[0][k] == t[k]);
                    }
                } else {
                    assert(w[i] == rest[i - 1]);
                }
            }
            assert(words(t) == w);
        }
    }
}

/// `t` ends with `suffix` (`str::ends_with`).
pub open spec fn ends_with(t: Seq<char>, suffix: Seq<char>) -> bool {
    suffix.len() <= t.len() && t.subrange(t.len() - suffix.len(), t.len() as int) == suffix
}

/// Position of the first occurrence of `pat` in `t` at or after `i` (`str::find`).
pub open spec fn find_from(t: Seq<char>, pat: Seq<char>, i: int) -> Option<int>
    decreases t.len() + 1 - i,
{
    if i < 0 || i + pat.len() > t.len() {
        None
    } else if t.subrange(i, i + pat.len()) == pat {
        Some(i)
    } else {
        find_from(t, pat, i + 1)
    }
}

pub open spec fn find(t: Seq<char>, pat: Seq<char>) -> Option<int> {
    find_from(t, pat, 0)
}

pub proof fn lemma_find_from_bound(t: Seq<char>, pat: Seq<char>, i: int)
    ensures
        find_from(t, pat, i) matches Some(k) ==> 0 <= k && k + pat.len() <= t.len(),
    decreases t.len() + 1 - i,
{
    if !(i < 0 || i + pat.len() > t.len()) && t.subrange(i, i + pat.len()) != pat {
        lemma_find_from_bound(t, pat, i + 1);
    }
}

pub open spec fn is_digit(c: char) -> bool {
    '0' <= c && c <= '9'
}

pub open spec fn digit_value(c: char) -> nat {
    (c as int - '0' as int) as nat
}

/// The number written by the decimal digits `d`.
pub open spec fn digits_value(d: Seq<char>) -> nat
    decreases d.len(),
{
    if d.len() == 0 {
        0
    } else {
        digits_value(d.drop_last()) * 10 + digit_value(d.last())
    }
}

/// `str::parse::<usize>`: an optional `+`, then one or more decimal digits,
/// whose value fits in a `usize`.
pub open spec fn unsigned_digits(w: Seq<char>) -> Seq<char> {
    if w.len() > 0 && w[0] == '+' { w.drop_first() } else { w }
}

pub open spec fn parse_usize(w: Seq<char>) -> Option<usize> {
    let d = unsigned_digits(w);
    if d.len() > 0 && (forall|k: int| 0 <= k < d.len() ==> is_digit(#[trigger] d[k]))
        && digits_value(d) <= usize::MAX {
        Some(digits_value(d) as usize)
    } else {
        None
    }
}


/// The characters `s[a..b]` as a string.
pub fn string_of(s: &Vec<char>, a: usize, b: usize) -> (res: String)
    requires
        a <= b <= s.len(),
    ensures
        res@ == s@.subrange(a as int, b as int),
{
    let mut res = String::new();
    let mut k = a;
    while k < b
        invariant
            a <= k <= b <= s.len(),
            res@ == s@.subrange(a as int, k as int),
        decreases b - k,
    {
        res.push(s[k]);
        k = k + 1;
        assert(res@ =~= s@.subrange(a as int, k as int));
    }
    res
}

/// Whether `s[a..b]` is exactly `lit`.
pub fn range_equals(s: &Vec<char>, a: usize, b: usize, lit: &Vec<char>) -> (res: bool)
    requires
        a <= b <= s.len(),
    ensures
        res == (s@.subrange(a as int, b as int) == lit@),
{
    if b - a != lit.len() {
        return false;
    }
    let mut k: usize = 0;
    while k < lit.len()
        invariant
            b - a == lit.len(),
            a <= b <= s.len(),
            0 <= k <= lit.len(),
            forall|j: int| 0 <= j < k ==> s@[a + j] == lit@[j],
        decreases lit.len() - k,
    {
        if s[a + k] != lit[k] {
            assert(s@.subrange(a as int, b as int)[k as int] != lit@[k as int]);
            return false;
        }
        k = k + 1;
    }
    assert(s@.subrange(a as int, b as int) =~= lit@);
    true
}

/// The bounds of `trim(s[a..b])` inside `s`.
pub fn trim_range(s: &Vec<char>, a: usize, b: usize) -> (res: (usize, usize))
    requires
        a <= b <= s.len(),
    ensures
        a <= res.0 <= res.1 <= b,
        s@.subrange(res.0 as int, res.1 as int) == trim(s@.subrange(a as int, b as int)),
{
    let mut lo = a;
    while lo < b && is_whitespace(s[lo])
        invariant
            a <= lo <= b <= s.len(),
            trim_start(s@.subrange(a as int, b as int)) == trim_start(s@.subrange(lo as int, b as int)),
        decreases b - lo,
    {
        assert(s@.subrange(lo as int, b as int).drop_first() =~= s@.subrange(lo + 1, b as int));
        lo = lo + 1;
    }
    assert(trim_start(s@.subrange(lo as int, b as int)) == s@.subrange(lo as int, b as int));
    let mut hi = b;
    while hi > lo && is_whitespace(s[hi - 1])
        invariant
            a <= lo <= hi <= b <= s.len(),
            trim(s@.subrange(a as int, b as int)) == trim_end(s@.subrange(lo as int, hi as int)),
        decreases hi - lo,
    {
        assert(s@.subrange(lo as int, hi as int).drop_last() =~= s@.subrange(lo as int, hi - 1));
        hi = hi - 1;
    }
    (lo, hi)
}

pub proof fn lemma_leading_word_len_exact(t: Seq<char>, n: int)
    requires
        0 <= n <= t.len(),
        forall|j: int| 0 <= j < n ==> !is_ws(#[trigger] t[j]),
        n == t.len() || is_ws(t[n]),
    ensures
        leading_word_len(t) == n,
    decreases n,
{
    if n > 0 {
        let u = t.drop_first();
        assert forall|j: int| 0 <= j < n - 1 implies !is_ws(#[trigger] u[j]) by {
            assert(u[j] == t[j + 1]);
        }
        lemma_leading_word_len_exact(u, n - 1);
    }
}

/// The words of a sequence, given as index ranges into `s`.
pub open spec fn spans_view(s: Seq<char>, spans: Seq<(usize, usize)>) -> Seq<Seq<char>> {
    spans.map_values(|p: (usize, usize)| s.subrange(p.0 as int, p.1 as int))
}

/// The bounds of the words of `s[a..b]` (`str::split_whitespace`).
pub fn word_spans(s: &Vec<char>, a: usize, b: usize) -> (res: Vec<(usize, usize)>)
    requires
        a <= b <= s.len(),
    ensures
        forall|j: int| 0 <= j < res.len() ==> a <= (#[trigger] res@[j]).0 <= res@[j].1 <= b,
        spans_view(s@, res@) == words(s@.subrange(a as int, b as int)),
{
    let mut res: Vec<(usize, usize)> = Vec::new();
    let mut k = a;
    while k < b
        invariant
            a <= k <= b <= s.len(),
            forall|j: int| 0 <= j < res.len() ==> a <= (#[trigger] res@[j]).0 <= res@[j].1 <= b,
            words(s@.subrange(a as int, b as int)) == spans_view(s@, res@) + words(
                s@.subrange(k as int, b as int),
            ),
        decreases b - k,
    {
        let ghost t = s@.subrange(k as int, b as int);
        if is_whitespace(s[k]) {
            assert(t.drop_first() =~= s@.subrange(k + 1, b as int));
            k = k + 1;
        } else {
            let mut m = k + 1;
            while m < b && !is_whitespace(s[m])
                invariant
                    k < m <= b <= s.len(),
                    forall|j: int| k <= j < m ==> !is_ws(#[trigger] s@[j]),
                decreases b - m,
            {
                m = m + 1;
            }
            proof {
                assert forall|j: int| 0 <= j < m - k implies !is_ws(#[trigger] t[j]) by {
                    assert(t[j] == s@[k + j]);
                }
                lemma_leading_word_len_exact(t, m - k);
                assert(t.take(m - k) =~= s@.subrange(k as int, m as int));
                assert(t.skip(m - k) =~= s@.subrange(m as int, b as int));
            }
            let ghost old_spans = res@;
            res.push((k, m));
            assert(spans_view(s@, res@) =~= spans_view(s@, old_spans).push(
                s@.subrange(k as int, m as int),
            ));
            k = m;
        }
    }
    assert(words(s@.subrange(k as int, b as int)) =~= Seq::<Seq<char>>::empty());
    assert(spans_view(s@, res@) + Seq::<Seq<char>>::empty() =~= spans_view(s@, res@));
    res
}

/// The position of the first occurrence of `pat` in `t` (`str::find`).
pub fn find_chars(t: &Vec<char>, pat: &Vec<char>) -> (res: Option<usize>)
    ensures
        match res {
            Some(i) => find(t@, pat@) == Some(i as int),
            None => find(t@, pat@) is None,
        },
{
    if pat.len() > t.len() {
        return None;
    }
    let last = t.len() - pat.len();
    let mut i: usize = 0;
    loop
        invariant
            pat.len() <= t.len(),
            last == t.len() - pat.len(),
            i <= last,
            find(t@, pat@) == find_from(t@, pat@, i as int),
        decreases last - i,
    {
        if range_equals(t, i, i + pat.len(), pat) {
            return Some(i);
        }
        if i == last {
            return None;
        }
        i = i + 1;
    }
}

/// Whether `s[a..b]` ends with `suffix`.
pub fn range_ends_with(s: &Vec<char>, a: usize, b: usize, suffix: &Vec<char>) -> (res: bool)
    requires
        a <= b <= s.len(),
    ensures
        res == ends_with(s@.subrange(a as int, b as int), suffix@),
{
    if suffix.len() > b - a {
        return false;
    }
    let r = range_equals(s, b - suffix.len(), b, suffix);
    assert(s@.subrange(a as int, b as int).subrange(b - a - suffix.len(), b - a) =~= s@.subrange(
        b - suffix.len(),
        b as int,
    ));
    r
}

pub proof fn lemma_digits_value_prefix(d: Seq<char>, k: int)
    requires
        0 <= k <= d.len(),
        forall|j: int| 0 <= j < d.len() ==> is_digit(#[trigger] d[j]),
    ensures
        digits_value(d.take(k)) <= digits_value(d),
    decreases d.len() - k,
{
    if k < d.len() {
        lemma_digits_value_prefix(d, k + 1);
        assert(d.take(k + 1).drop_last() =~= d.take(k));
    } else {
        assert(d.take(k) =~= d);
    }
}

/// `str::parse::<usize>` on `s[a..b]`.
pub fn parse_usize_range(s: &Vec<char>, a: usize, b: usize) -> (res: Option<usize>)
    requires
        a <= b <= s.len(),
    ensures
        res == parse_usize(s@.subrange(a as int, b as int)),
{
    let ghost w = s@.subrange(a as int, b as int);
    let start = if a < b && s[a] == '+' { a + 1 } else { a };
    let ghost d = unsigned_digits(w);
    assert(w.len() > 0 ==> w[0] == s@[a as int]);
    assert(d =~= s@.subrange(start as int, b as int));
    if start == b {
        return None;
    }
    let mut acc: usize = 0;
    let mut k = start;
    while k < b
        invariant
            a <= start <= k <= b <= s.len(),
            d == s@.subrange(start as int, b as int),
            w == s@.subrange(a as int, b as int),
            d == unsigned_digits(w),
            forall|j: int| start <= j < k ==> is_digit(#[trigger] s@[j]),
            acc == digits_value(d.take(k - start)),
        decreases b - k,
    {
        let c = s[k];
        if !('0' <= c && c <= '9') {
            assert(!is_digit(d[k - start]));
            assert(!(forall|j: int| 0 <= j < d.len() ==> is_digit(#[trigger] d[j])));
            assert(parse_usize(w) is None);
            return None;
        }
        let dv = (c as u32 - '0' as u32) as usize;
        assert(d.take(k + 1 - start).drop_last() =~= d.take(k - start));
        assert(d.take(k + 1 - start).last() == c);
        assert(digits_value(d.take(k + 1 - start)) == acc * 10 + dv);
        match acc.checked_mul(10) {
            None => {
                proof {
                    if forall|j: int| 0 <= j < d.len() ==> is_digit(#[trigger] d[j]) {
                        lemma_digits_value_prefix(d, k + 1 - start);
                    }
                }
                return None;
            },
            Some(t) => match t.checked_add(dv) {
                None => {
                    proof {
                        if forall|j: int| 0 <= j < d.len() ==> is_digit(#[trigger] d[j]) {
                            lemma_digits_value_prefix(d, k + 1 - start);
                        }
                    }
                    return None;
                },
                Some(v) => {
                    acc = v;
                },
            },
        }
        k = k + 1;
    }
    assert(d.take(b - start) =~= d);
    assert forall|j: int| 0 <= j < d.len() implies is_digit(#[trigger] d[j]) by {
        assert(d[j] == s@[start + j]);
    }
    Some(acc)
}


/// Whether two strings hold the same characters.
pub fn str_equal(a: &str, b: &str) -> (res: bool)
    ensures
        res == (a@ == b@),
{
    let x = chars_of(a);
    let y = chars_of(b);
    assert(x@.subrange(0, x.len() as int) =~= x@);
    range_equals(&x, 0, x.len(), &y)
}


/// Every decimal number that fits a `usize` is read, with or without a
/// leading `+`, as the number its digits write.
pub proof fn lemma_parse_usize_reads_every_number(d: Seq<char>)
    requires
        d.len() > 0,
        forall|k: int| 0 <= k < d.len() ==> is_digit(#[trigger] d[k]),
        digits_value(d) <= usize::MAX,
    ensures
        parse_usize(d) == Some(digits_value(d) as usize),
        parse_usize(seq!['+'] + d) == Some(digits_value(d) as usize),
{
    assert(is_digit(d[0]));
    assert((seq!['+'] + d).drop_first() =~= d);
}

/// A word that holds a character other than a digit (after an optional
/// leading `+`) is not a number.
pub proof fn lemma_parse_usize_refuses_non_digits(w: Seq<char>, k: int)
    requires
        0 <= k < w.len(),
        !is_digit(w[k]),
        !(k == 0 && w[0] == '+'),
    ensures
        parse_usize(w) is None,
{
    let d = unsigned_digits(w);
    if w.len() > 0 && w[0] == '+' {
        assert(d[k - 1] == w[k]);
    } else {
        assert(d[k] == w[k]);
    }
}

} // verus!
