use vstd::prelude::*;

verus! {

/// `char::is_whitespace`: the Unicode `White_Space` property.
pub open spec fn is_space(c: char) -> bool {
    ||| c == ' '
    ||| ('\u{9}' <= c && c <= '\u{d}')
    ||| c == '\u{85}'
    ||| c == '\u{a0}'
    ||| c == '\u{1680}'
    ||| ('\u{2000}' <= c && c <= '\u{200a}')
    ||| c == '\u{2028}'
    ||| c == '\u{2029}'
    ||| c == '\u{202f}'
    ||| c == '\u{205f}'
    ||| c == '\u{3000}'
}

/// Executable `is_space`.
pub fn is_space_char(c: char) -> (r: bool)
    ensures
        r == is_space(c),
{
    c == ' ' || ('\u{9}' <= c && c <= '\u{d}') || c == '\u{85}' || c == '\u{a0}' || c
        == '\u{1680}' || ('\u{2000}' <= c && c <= '\u{200a}') || c == '\u{2028}' || c
        == '\u{2029}' || c == '\u{202f}' || c == '\u{205f}' || c == '\u{3000}'
}

/// Number of leading whitespace characters of `s`.
pub open spec fn space_prefix_len(s: Seq<char>) -> nat
    decreases s.len(),
{
    if s.len() > 0 && is_space(s[0]) {
        1 + space_prefix_len(s.drop_first())
    } else {
        0
    }
}

/// Number of trailing whitespace characters of `s`.
pub open spec fn space_suffix_len(s: Seq<char>) -> nat
    decreases s.len(),
{
    if s.len() > 0 && is_space(s.last()) {
        1 + space_suffix_len(s.drop_last())
    } else {
        0
    }
}

/// Number of leading non-whitespace characters of `s`.
pub open spec fn word_len(s: Seq<char>) -> nat
    decreases s.len(),
{
    if s.len() > 0 && !is_space(s[0]) {
        1 + word_len(s.drop_first())
    } else {
        0
    }
}

/// `str::trim_start`.
pub open spec fn trim_start(s: Seq<char>) -> Seq<char> {
    s.skip(space_prefix_len(s) as int)
}

/// `str::trim_end`.
pub open spec fn trim_end(s: Seq<char>) -> Seq<char> {
    s.take(s.len() - space_suffix_len(s))
}

/// `str::trim`.
pub open spec fn trim(s: Seq<char>) -> Seq<char> {
    trim_end(trim_start(s))
}

pub proof fn lemma_space_prefix_len(s: Seq<char>)
    ensures
        space_prefix_len(s) <= s.len(),
        forall|i: int| 0 <= i < space_prefix_len(s) ==> is_space(#[trigger] s[i]),
        space_prefix_len(s) < s.len() ==> !is_space(s[space_prefix_len(s) as int]),
    decreases s.len(),
{
    if s.len() > 0 && is_space(s[0]) {
        lemma_space_prefix_len(s.drop_first());
        assert forall|i: int| 0 <= i < space_prefix_len(s) implies is_space(#[trigger] s[i]) by {
            if i > 0 {
                assert(s[i] == s.drop_first()[i - 1]);
            }
        }
    }
}

pub proof fn lemma_space_suffix_len(s: Seq<char>)
    ensures
        space_suffix_len(s) <= s.len(),
        forall|i: int|
            s.len() - space_suffix_len(s) <= i < s.len() ==> is_space(#[trigger] s[i]),
        space_suffix_len(s) < s.len() ==> !is_space(s[s.len() - space_suffix_len(s) - 1]),
    decreases s.len(),
{
    if s.len() > 0 && is_space(s.last()) {
        lemma_space_suffix_len(s.drop_last());
        assert forall|i: int|
            s.len() - space_suffix_len(s) <= i < s.len() implies is_space(#[trigger] s[i]) by {
            if i < s.len() - 1 {
                assert(s[i] == s.drop_last()[i]);
            }
        }
    }
}

pub proof fn lemma_word_len(s: Seq<char>)
    ensures
        word_len(s) <= s.len(),
        forall|i: int| 0 <= i < word_len(s) ==> !is_space(#[trigger] s[i]),
        word_len(s) < s.len() ==> is_space(s[word_len(s) as int]),
    decreases s.len(),
{
    if s.len() > 0 && !is_space(s[0]) {
        lemma_word_len(s.drop_first());
        assert forall|i: int| 0 <= i < word_len(s) implies !is_space(#[trigger] s[i]) by {
            if i > 0 {
                assert(s[i] == s.drop_first()[i - 1]);
            }
        }
    }
}

/// A prefix of spaces followed by a non-space (or the end) has exactly that length.
pub proof fn lemma_space_prefix_len_exact(s: Seq<char>, k: int)
    requires
        0 <= k <= s.len(),
        forall|i: int| 0 <= i < k ==> is_space(#[trigger] s[i]),
        k < s.len() ==> !is_space(s[k]),
    ensures
        space_prefix_len(s) == k,
    decreases k,
{
    if k > 0 {
        assert forall|i: int| 0 <= i < k - 1 implies is_space(#[trigger] s.drop_first()[i]) by {
            assert(s.drop_first()[i] == s[i + 1]);
        }
        lemma_space_prefix_len_exact(s.drop_first(), k - 1);
    }
}

pub proof fn lemma_space_suffix_len_exact(s: Seq<char>, k: int)
    requires
        0 <= k <= s.len(),
        forall|i: int| s.len() - k <= i < s.len() ==> is_space(#[trigger] s[i]),
        k < s.len() ==> !is_space(s[s.len() - k - 1]),
    ensures
        space_suffix_len(s) == k,
    decreases k,
{
    if k > 0 {
        assert forall|i: int| s.len() - 1 - (k - 1) <= i < s.len() - 1 implies is_space(
            #[trigger] s.drop_last()[i],
        ) by {
            assert(s.drop_last()[i] == s[i]);
        }
        lemma_space_suffix_len_exact(s.drop_last(), k - 1);
    }
}

pub proof fn lemma_word_len_exact(s: Seq<char>, k: int)
    requires
        0 <= k <= s.len(),
        forall|i: int| 0 <= i < k ==> !is_space(#[trigger] s[i]),
        k < s.len() ==> is_space(s[k]),
    ensures
        word_len(s) == k,
    decreases k,
{
    if k > 0 {
        assert forall|i: int| 0 <= i < k - 1 implies !is_space(#[trigger] s.drop_first()[i]) by {
            assert(s.drop_first()[i] == s[i + 1]);
        }
        lemma_word_len_exact(s.drop_first(), k - 1);
    }
}

/// Appends one character to a string: std's `String::push`, which the standard library
/// documents as appending the given `char` to the end of the `String`. Claimed: the
/// characters afterwards are the ones before followed by `c`.
#[verifier::external_body]
pub(crate) fn push_char(s: &mut String, c: char)
    ensures
        final(s)@ == old(s)@.push(c),
{
    s.push(c);
}

/// The characters of `s`, in order.
pub fn chars_of(s: &str) -> (r: Vec<char>)
    ensures
        r@ == s@,
{
    let mut r: Vec<char> = Vec::new();
    for c in it: s.chars()
        invariant
            r@ == it.seq().take(it.index() as int),
    {
        r.push(c);
    }
    r
}

/// The string made of `v[lo..hi]`.
pub fn string_of(v: &Vec<char>, lo: usize, hi: usize) -> (r: String)
    requires
        lo <= hi <= v.len(),
    ensures
        r@ == v@.subrange(lo as int, hi as int),
{
    let mut r = String::new();
    let mut i = lo;
    while i < hi
        invariant
            lo <= i <= hi <= v.len(),
            r@ == v@.subrange(lo as int, i as int),
        decreases hi - i,
    {
        push_char(&mut r, v[i]);
        i += 1;
        assert(r@ =~= v@.subrange(lo as int, i as int));
    }
    r
}

/// Start of `trim_start(v[lo..hi])` inside `v`.
pub fn skip_spaces(v: &Vec<char>, lo: usize, hi: usize) -> (r: usize)
    requires
        lo <= hi <= v.len(),
    ensures
        lo <= r <= hi,
        r - lo == space_prefix_len(v@.subrange(lo as int, hi as int)),
        v@.subrange(r as int, hi as int) == trim_start(v@.subrange(lo as int, hi as int)),
{
    let mut i = lo;
    while i < hi && is_space_char(v[i])
        invariant
            lo <= i <= hi <= v.len(),
            forall|k: int| lo <= k < i ==> is_space(#[trigger] v@[k]),
        decreases hi - i,
    {
        i += 1;
    }
    let ghost s = v@.subrange(lo as int, hi as int);
    proof {
        assert forall|k: int| 0 <= k < i - lo implies is_space(#[trigger] s[k]) by {
            assert(s[k] == v@[lo + k]);
        }
        if i < hi {
            assert(s[i - lo] == v@[i as int]);
        }
        lemma_space_prefix_len_exact(s, i - lo);
        assert(v@.subrange(i as int, hi as int) =~= s.skip(i - lo));
    }
    i
}

/// End of `trim_end(v[lo..hi])` inside `v`.
pub fn skip_spaces_back(v: &Vec<char>, lo: usize, hi: usize) -> (r: usize)
    requires
        lo <= hi <= v.len(),
    ensures
        lo <= r <= hi,
        hi - r == space_suffix_len(v@.subrange(lo as int, hi as int)),
        v@.subrange(lo as int, r as int) == trim_end(v@.subrange(lo as int, hi as int)),
{
    let mut j = hi;
    while j > lo && is_space_char(v[j - 1])
        invariant
            lo <= j <= hi <= v.len(),
            forall|k: int| j <= k < hi ==> is_space(#[trigger] v@[k]),
        decreases j - lo,
    {
        j -= 1;
    }
    let ghost s = v@.subrange(lo as int, hi as int);
    proof {
        assert forall|k: int| s.len() - (hi - j) <= k < s.len() implies is_space(
            #[trigger] s[k],
        ) by {
            assert(s[k] == v@[lo + k]);
        }
        if j > lo {
            assert(s[s.len() - (hi - j) - 1] == v@[j - 1]);
        }
        lemma_space_suffix_len_exact(s, hi - j);
        assert(v@.subrange(lo as int, j as int) =~= s.take(j - lo));
    }
    j
}

/// Bounds of `trim(v[lo..hi])` inside `v`.
pub fn trim_range(v: &Vec<char>, lo: usize, hi: usize) -> (r: (usize, usize))
    requires
        lo <= hi <= v.len(),
    ensures
        lo <= r.0 <= r.1 <= hi,
        v@.subrange(r.0 as int, r.1 as int) == trim(v@.subrange(lo as int, hi as int)),
{
    let a = skip_spaces(v, lo, hi);
    let b = skip_spaces_back(v, a, hi);
    (a, b)
}

/// `str::trim`, as an owned string.
pub fn trim_str(s: &str) -> (r: String)
    ensures
        r@ == trim(s@),
{
    let v = chars_of(s);
    let (a, b) = trim_range(&v, 0, v.len());
    assert(v@.subrange(0, v.len() as int) =~= v@);
    string_of(&v, a, b)
}


/// Length of the first line of `s` (up to, not including, the first `'\n'`).
pub open spec fn newline_index(s: Seq<char>) -> nat
    decreases s.len(),
{
    if s.len() == 0 || s[0] == '\n' {
        0
    } else {
        1 + newline_index(s.drop_first())
    }
}

/// A line ended by `"\r\n"` loses its `'\r'`.
pub open spec fn strip_cr(l: Seq<char>) -> Seq<char> {
    if l.len() > 0 && l.last() == '\r' {
        l.drop_last()
    } else {
        l
    }
}

/// `str::lines`: the text split at `'\n'` or `"\r\n"`; a final line ending is optional
/// and adds no empty line.
pub open spec fn lines(s: Seq<char>) -> Seq<Seq<char>>
    decreases s.len(),
{
    if s.len() == 0 {
        seq![]
    } else {
        let i = newline_index(s);
        if i < s.len() {
            seq![strip_cr(s.take(i as int))] + lines(s.skip(i as int + 1))
        } else {
            seq![s]
        }
    }
}

/// `str::split_whitespace`: the maximal runs of non-whitespace characters, in order.
pub open spec fn words(s: Seq<char>) -> Seq<Seq<char>>
    decreases s.len(),
{
    let t = trim_start(s);
    if t.len() == 0 {
        seq![]
    } else {
        proof {
            lemma_space_prefix_len(s);
            lemma_word_len(t);
            assert(t[0] == s[space_prefix_len(s) as int]);
        }
        let k = word_len(t);
        seq![t.take(k as int)] + words(t.skip(k as int))
    }
}

pub proof fn lemma_newline_index_exact(s: Seq<char>, k: int)
    requires
        0 <= k <= s.len(),
        forall|i: int| 0 <= i < k ==> #[trigger] s[i] != '\n',
        k < s.len() ==> s[k] == '\n',
    ensures
        newline_index(s) == k,
    decreases k,
{
    if k > 0 {
        assert forall|i: int| 0 <= i < k - 1 implies #[trigger] s.drop_first()[i] != '\n' by {
            assert(s.drop_first()[i] == s[i + 1]);
        }
        lemma_newline_index_exact(s.drop_first(), k - 1);
    }
}

/// The texts of the ranges `r` of `v`.
pub open spec fn range_texts(v: Seq<char>, r: Seq<(usize, usize)>) -> Seq<Seq<char>> {
    Seq::new(r.len(), |i: int| v.subrange(r[i].0 as int, r[i].1 as int))
}

/// The ranges all lie inside `v[lo..hi]`.
pub open spec fn ranges_within(r: Seq<(usize, usize)>, lo: int, hi: int) -> bool {
    forall|i: int| 0 <= i < r.len() ==> lo <= (#[trigger] r[i]).0 <= r[i].1 <= hi
}

/// The first line of `v[pos..]`: returns the end of its text and where the next line starts.
pub fn next_line(v: &Vec<char>, pos: usize) -> (r: (usize, usize))
    requires
        pos < v.len(),
    ensures
        pos <= r.0 <= r.1 <= v.len(),
        pos < r.1,
        lines(v@.skip(pos as int)) == seq![v@.subrange(pos as int, r.0 as int)] + lines(
            v@.skip(r.1 as int),
        ),
{
    let n = v.len();
    let mut j = pos;
    while j < n && v[j] != '\n'
        invariant
            pos <= j <= n == v.len(),
            forall|k: int| pos <= k < j ==> #[trigger] v@[k] != '\n',
        decreases n - j,
    {
        j += 1;
    }
    let ghost s = v@.skip(pos as int);
    proof {
        assert forall|k: int| 0 <= k < j - pos implies #[trigger] s[k] != '\n' by {
            assert(s[k] == v@[pos + k]);
        }
        if j < n {
            assert(s[j - pos] == v@[j as int]);
        }
        lemma_newline_index_exact(s, j - pos);
    }
    if j < n {
        let mut e = j;
        if e > pos && v[e - 1] == '\r' {
            e = e - 1;
        }
        proof {
            assert(s.take(j - pos) =~= v@.subrange(pos as int, j as int));
            assert(s.skip(j - pos + 1) =~= v@.skip(j + 1));
            assert(strip_cr(v@.subrange(pos as int, j as int)) =~= v@.subrange(
                pos as int,
                e as int,
            ));
        }
        (e, j + 1)
    } else {
        proof {
            assert(s =~= v@.subrange(pos as int, n as int));
            assert(v@.skip(n as int) =~= Seq::<char>::empty());
            assert(lines(Seq::<char>::empty()) =~= Seq::<Seq<char>>::empty());
        }
        (n, n)
    }
}

/// `split_whitespace` of `v[lo..hi]`, as ranges of `v`.
pub fn split_words(v: &Vec<char>, lo: usize, hi: usize) -> (r: Vec<(usize, usize)>)
    requires
        lo <= hi <= v.len(),
    ensures
        ranges_within(r@, lo as int, hi as int),
        range_texts(v@, r@) == words(v@.subrange(lo as int, hi as int)),
{
    let mut r: Vec<(usize, usize)> = Vec::new();
    let mut pos = lo;
    loop
        invariant
            lo <= pos <= hi <= v.len(),
            ranges_within(r@, lo as int, pos as int),
            words(v@.subrange(lo as int, hi as int)) == range_texts(v@, r@) + words(
                v@.subrange(pos as int, hi as int),
            ),
        decreases hi - pos,
    {
        let a = skip_spaces(v, pos, hi);
        if a == hi {
            proof {
                assert(trim_start(v@.subrange(pos as int, hi as int)).len() == 0);
                assert(range_texts(v@, r@) + words(v@.subrange(pos as int, hi as int))
                    =~= range_texts(v@, r@));
            }
            return r;
        }
        let mut e = a;
        while e < hi && !is_space_char(v[e])
            invariant
                a <= e <= hi <= v.len(),
                forall|k: int| a <= k < e ==> !is_space(#[trigger] v@[k]),
            decreases hi - e,
        {
            e += 1;
        }
        proof {
            let s = v@.subrange(pos as int, hi as int);
            let t = v@.subrange(a as int, hi as int);
            assert(trim_start(s) == t);
            lemma_space_prefix_len(s);
            assert(t[0] == v@[a as int]);
            assert forall|k: int| 0 <= k < e - a implies !is_space(#[trigger] t[k]) by {
                assert(t[k] == v@[a + k]);
            }
            if e < hi {
                assert(t[e - a] == v@[e as int]);
            }
            lemma_word_len_exact(t, e - a);
            assert(t.take(e - a) =~= v@.subrange(a as int, e as int));
            assert(t.skip(e - a) =~= v@.subrange(e as int, hi as int));
            assert(words(s) == seq![v@.subrange(a as int, e as int)] + words(
                v@.subrange(e as int, hi as int),
            ));
        }
        let ghost old_r = r@;
        r.push((a, e));
        proof {
            assert(range_texts(v@, r@) =~= range_texts(v@, old_r).push(
                v@.subrange(a as int, e as int),
            ));
            assert(range_texts(v@, old_r) + (seq![v@.subrange(a as int, e as int)] + words(
                v@.subrange(e as int, hi as int),
            )) =~= range_texts(v@, r@) + words(v@.subrange(e as int, hi as int)));
        }
        pos = e;
    }
}


/// `s` begins with `p` (`str::starts_with`).
pub open spec fn has_prefix(s: Seq<char>, p: Seq<char>) -> bool {
    p.len() <= s.len() && s.take(p.len() as int) == p
}

/// `s` ends with `p` (`str::ends_with`).
pub open spec fn has_suffix(s: Seq<char>, p: Seq<char>) -> bool {
    p.len() <= s.len() && s.skip(s.len() - p.len()) == p
}

/// Whether `v[lo..hi]` begins with `p`.
pub fn range_has_prefix(v: &Vec<char>, lo: usize, hi: usize, p: &Vec<char>) -> (r: bool)
    requires
        lo <= hi <= v.len(),
    ensures
        r == has_prefix(v@.subrange(lo as int, hi as int), p@),
{
    let ghost s = v@.subrange(lo as int, hi as int);
    if p.len() > hi - lo {
        return false;
    }
    let mut i: usize = 0;
    while i < p.len()
        invariant
            lo <= hi <= v.len(),
            p.len() <= hi - lo,
            i <= p.len(),
            s == v@.subrange(lo as int, hi as int),
            forall|k: int| 0 <= k < i ==> v@[lo + k] == p@[k],
        decreases p.len() - i,
    {
        if v[lo + i] != p[i] {
            proof {
                assert(s.take(p.len() as int)[i as int] == v@[lo + i]);
            }
            return false;
        }
        i += 1;
    }
    assert(s.take(p.len() as int) =~= p@);
    true
}

/// Whether `v[lo..hi]` ends with `p`.
pub fn range_has_suffix(v: &Vec<char>, lo: usize, hi: usize, p: &Vec<char>) -> (r: bool)
    requires
        lo <= hi <= v.len(),
    ensures
        r == has_suffix(v@.subrange(lo as int, hi as int), p@),
{
    let ghost s = v@.subrange(lo as int, hi as int);
    if p.len() > hi - lo {
        return false;
    }
    let start = hi - p.len();
    let mut i: usize = 0;
    while i < p.len()
        invariant
            lo <= start <= hi <= v.len(),
            start + p.len() == hi,
            i <= p.len(),
            s == v@.subrange(lo as int, hi as int),
            forall|k: int| 0 <= k < i ==> v@[start + k] == p@[k],
        decreases p.len() - i,
    {
        if v[start + i] != p[i] {
            proof {
                assert(s.skip(s.len() - p.len())[i as int] == v@[start + i]);
            }
            return false;
        }
        i += 1;
    }
    assert(s.skip(s.len() - p.len()) =~= p@);
    true
}

/// An ASCII decimal digit.
pub open spec fn is_digit(c: char) -> bool {
    '0' <= c && c <= '9'
}

/// The value of a decimal digit character.
pub open spec fn digit_value(c: char) -> nat {
    (c as int - '0' as int) as nat
}

/// The number that a string of decimal digits denotes.
pub open spec fn digits_value(d: Seq<char>) -> nat
    decreases d.len(),
{
    if d.len() == 0 {
        0
    } else {
        digits_value(d.drop_last()) * 10 + digit_value(d.last())
    }
}

/// The digits part of an unsigned number: `s` without one leading `'+'`.
pub open spec fn unsigned_digits(s: Seq<char>) -> Seq<char> {
    if s.len() > 0 && s[0] == '+' {
        s.drop_first()
    } else {
        s
    }
}

/// Every character of `d` is a decimal digit.
pub open spec fn all_digits(d: Seq<char>) -> bool {
    forall|i: int| 0 <= i < d.len() ==> is_digit(#[trigger] d[i])
}

/// What an unsigned `FromStr` reads: one optional leading `'+'`, then one or more
/// decimal digits and nothing else.
pub open spec fn parse_unsigned(s: Seq<char>) -> Option<nat> {
    let d = unsigned_digits(s);
    if d.len() > 0 && all_digits(d) {
        Some(digits_value(d))
    } else {
        None
    }
}

/// `str::parse::<u64>()`, as an `Option`.
pub open spec fn parse_u64(s: Seq<char>) -> Option<u64> {
    match parse_unsigned(s) {
        Some(n) => if n <= u64::MAX {
            Some(n as u64)
        } else {
            None
        },
        None => None,
    }
}

/// `str::parse::<u32>()`, as an `Option`.
pub open spec fn parse_u32(s: Seq<char>) -> Option<u32> {
    match parse_unsigned(s) {
        Some(n) => if n <= u32::MAX {
            Some(n as u32)
        } else {
            None
        },
        None => None,
    }
}

pub proof fn lemma_digits_value_prefix(d: Seq<char>, i: int)
    requires
        0 <= i <= d.len(),
    ensures
        digits_value(d.take(i)) <= digits_value(d),
    decreases d.len(),
{
    if i < d.len() {
        lemma_digits_value_prefix(d.drop_last(), i);
        assert(d.drop_last().take(i) =~= d.take(i));
    } else {
        assert(d.take(i) =~= d);
    }
}

/// Reads `v[lo..hi]` as an unsigned decimal number no larger than `max`.
#[verifier::loop_isolation(false)]
fn parse_bounded(v: &Vec<char>, lo: usize, hi: usize, max: u64) -> (r: Option<u64>)
    requires
        lo <= hi <= v.len(),
        max >= 9,
    ensures
        r == (match parse_unsigned(v@.subrange(lo as int, hi as int)) {
            Some(n) => if n <= max {
                Some(n as u64)
            } else {
                None::<u64>
            },
            None => None,
        }),
{
    let ghost s = v@.subrange(lo as int, hi as int);
    let mut start = lo;
    if lo < hi && v[lo] == '+' {
        start = lo + 1;
    }
    let ghost d = v@.subrange(start as int, hi as int);
    proof {
        if lo < hi && v@[lo as int] == '+' {
            assert(s[0] == '+');
            assert(s.drop_first() =~= d);
        } else {
            assert(s =~= d);
        }
    }
    if start == hi {
        return None;
    }
    let mut acc: u64 = 0;
    let mut i = start;
    while i < hi
        invariant
            lo <= start < hi <= v.len(),
            start <= i <= hi,
            d == v@.subrange(start as int, hi as int),
            forall|k: int| 0 <= k < i - start ==> is_digit(#[trigger] d[k]),
            acc == digits_value(d.take(i - start)),
            acc <= max,
        decreases hi - i,
    {
        let c = v[i];
        proof {
            assert(d[i - start] == c);
        }
        if !('0' <= c && c <= '9') {
            assert(!is_digit(d[i - start]));
            return None;
        }
        let dv = (c as u32 - '0' as u32) as u64;
        proof {
            let t = d.take(i - start + 1);
            assert(t.drop_last() =~= d.take(i - start));
            assert(t.last() == c);
            assert(digits_value(t) == acc * 10 + dv);
        }
        if acc > (max - dv) / 10 {
            proof {
                assert(acc * 10 + dv > max);
                lemma_digits_value_prefix(d, i - start + 1);
                assert(digits_value(d) > max);
            }
            return None;
        }
        acc = acc * 10 + dv;
        i += 1;
    }
    assert(d.take(hi - start) =~= d);
    Some(acc)
}

/// `str::parse::<u64>()` of `v[lo..hi]`.
pub fn parse_u64_range(v: &Vec<char>, lo: usize, hi: usize) -> (r: Option<u64>)
    requires
        lo <= hi <= v.len(),
    ensures
        r == parse_u64(v@.subrange(lo as int, hi as int)),
{
    parse_bounded(v, lo, hi, u64::MAX)
}

/// `str::parse::<u32>()` of `v[lo..hi]`.
pub fn parse_u32_range(v: &Vec<char>, lo: usize, hi: usize) -> (r: Option<u32>)
    requires
        lo <= hi <= v.len(),
    ensures
        r == parse_u32(v@.subrange(lo as int, hi as int)),
{
    match parse_bounded(v, lo, hi, u32::MAX as u64) {
        Some(n) => Some(n as u32),
        None => None,
    }
}

/// The character of a decimal digit.
pub open spec fn digit_char(d: nat) -> char {
    ((d + 48) as u8) as char
}

/// The decimal notation of `n` (`u64::to_string`).
pub open spec fn decimal(n: nat) -> Seq<char>
    decreases n,
{
    if n < 10 {
        seq![digit_char(n)]
    } else {
        decimal(n / 10).push(digit_char(n % 10))
    }
}

proof fn lemma_digit_char(d: nat)
    requires
        d < 10,
    ensures
        is_digit(digit_char(d)),
        digit_value(digit_char(d)) == d,
{
    let c = digit_char(d);
    assert(c as int == d + 48);
}

/// The decimal notation of a number reads back as that number.
pub proof fn decimal_reads_back(n: nat)
    ensures
        all_digits(decimal(n)),
        digits_value(decimal(n)) == n,
        decimal(n).len() > 0,
        n <= u64::MAX ==> parse_u64(decimal(n)) == Some(n as u64),
    decreases n,
{
    let d = decimal(n);
    lemma_digit_char(n % 10);
    if n < 10 {
        assert(d[0] == digit_char(n));
        assert(d.drop_last() =~= Seq::<char>::empty());
        assert(digits_value(d.drop_last()) == 0);
        assert(d.last() == digit_char(n));
        assert(digits_value(d) == digit_value(digit_char(n)));
    } else {
        decimal_reads_back(n / 10);
        let e = decimal(n / 10);
        assert(d.drop_last() =~= e);
        assert(d.last() == digit_char(n % 10));
        assert(digits_value(d) == digits_value(e) * 10 + digit_value(digit_char(n % 10)));
        assert forall|i: int| 0 <= i < d.len() implies is_digit(#[trigger] d[i]) by {
            if i < e.len() {
                assert(d[i] == e[i]);
            }
        }
    }
    if d[0] == '+' {
        assert(is_digit(d[0]));
    }
    assert(unsigned_digits(d) == d);
}

/// Two numbers with the same decimal notation are equal.
pub proof fn decimal_is_injective(a: nat, b: nat)
    ensures
        decimal(a) == decimal(b) ==> a == b,
{
    decimal_reads_back(a);
    decimal_reads_back(b);
}

/// Appends the decimal notation of `n`.
pub fn push_decimal(s: &mut String, n: u64)
    ensures
        final(s)@ == old(s)@ + decimal(n as nat),
    decreases n,
{
    if n >= 10 {
        push_decimal(s, n / 10);
    }
    let d = (n % 10) as u8;
    push_char(s, (d + 48) as char);
    assert(final(s)@ =~= old(s)@ + decimal(n as nat));
}


/// Appends the characters of `v`.
pub fn push_chars(s: &mut String, v: &Vec<char>)
    ensures
        final(s)@ == old(s)@ + v@,
{
    let mut i: usize = 0;
    while i < v.len()
        invariant
            i <= v.len(),
            s@ == old(s)@ + v@.take(i as int),
        decreases v.len() - i,
    {
        push_char(s, v[i]);
        i += 1;
        assert(s@ =~= old(s)@ + v@.take(i as int));
    }
    assert(v@.take(v.len() as int) =~= v@);
}

/// Appends `t`.
pub fn push_str(s: &mut String, t: &str)
    ensures
        final(s)@ == old(s)@ + t@,
{
    let v = chars_of(t);
    push_chars(s, &v);
}

/// Whether two strings hold the same characters.
pub fn str_eq(a: &str, b: &str) -> (r: bool)
    ensures
        r == (a@ == b@),
{
    let va = chars_of(a);
    let vb = chars_of(b);
    if va.len() != vb.len() {
        assert(va@.len() != vb@.len());
        return false;
    }
    let mut i: usize = 0;
    while i < va.len()
        invariant
            va.len() == vb.len(),
            va@ == a@,
            vb@ == b@,
            i <= va.len(),
            forall|k: int| 0 <= k < i ==> va@[k] == vb@[k],
        decreases va.len() - i,
    {
        if va[i] != vb[i] {
            assert(va@[i as int] != vb@[i as int]);
            return false;
        }
        i += 1;
    }
    assert(va@ =~= vb@);
    true
}

/// The decimal notation of `n` (`u64::to_string`).
pub fn decimal_string(n: u64) -> (r: String)
    ensures
        r@ == decimal(n as nat),
{
    let mut s = String::new();
    push_decimal(&mut s, n);
    assert(s@ =~= decimal(n as nat));
    s
}


/// Position of the first `c` in `s`, or its length where there is none.
pub open spec fn char_index(s: Seq<char>, c: char) -> nat
    decreases s.len(),
{
    if s.len() == 0 || s[0] == c {
        0
    } else {
        1 + char_index(s.drop_first(), c)
    }
}

pub proof fn lemma_char_index_exact(s: Seq<char>, c: char, k: int)
    requires
        0 <= k <= s.len(),
        forall|i: int| 0 <= i < k ==> #[trigger] s[i] != c,
        k < s.len() ==> s[k] == c,
    ensures
        char_index(s, c) == k,
    decreases k,
{
    if k > 0 {
        assert forall|i: int| 0 <= i < k - 1 implies #[trigger] s.drop_first()[i] != c by {
            assert(s.drop_first()[i] == s[i + 1]);
        }
        lemma_char_index_exact(s.drop_first(), c, k - 1);
    }
}

/// Position (inside `v`) of the first `c` in `v[lo..hi]`, or `hi`.
pub fn find_char(v: &Vec<char>, lo: usize, hi: usize, c: char) -> (r: usize)
    requires
        lo <= hi <= v.len(),
    ensures
        lo <= r <= hi,
        r - lo == char_index(v@.subrange(lo as int, hi as int), c),
{
    let mut j = lo;
    while j < hi && v[j] != c
        invariant
            lo <= j <= hi <= v.len(),
            forall|k: int| lo <= k < j ==> #[trigger] v@[k] != c,
        decreases hi - j,
    {
        j += 1;
    }
    let ghost s = v@.subrange(lo as int, hi as int);
    proof {
        assert forall|k: int| 0 <= k < j - lo implies #[trigger] s[k] != c by {
            assert(s[k] == v@[lo + k]);
        }
        if j < hi {
            assert(s[j - lo] == v@[j as int]);
        }
        lemma_char_index_exact(s, c, j - lo);
    }
    j
}

} // verus!
