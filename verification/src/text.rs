use vstd::prelude::*;

verus! {

/// The characters of `s`, in order.
pub fn chars_of(s: &str) -> (out: Vec<char>)
    ensures
        out@ == s@,
{
    let mut out: Vec<char> = Vec::new();
    for c in it: s.chars()
        invariant
            out@ == it.seq().take(it.index() as int),
            it.seq() == s@,
    {
        out.push(c);
    }
    out
}

/// `String` made of the characters of `v` (std's `FromIterator<char>` for `String`).
#[verifier::external_body]
pub(crate) fn string_from_chars(v: &[char]) -> (out: String)
    ensures
        out@ == v@,
{
    v.iter().collect()
}


/// A character with the Unicode `White_Space` property, which is what std's
/// `char::is_whitespace` tests.
pub open spec fn is_ws(c: char) -> bool {
    let u = c as u32;
    ||| 0x9 <= u <= 0xD
    ||| u == 0x20
    ||| u == 0x85
    ||| u == 0xA0
    ||| u == 0x1680
    ||| 0x2000 <= u <= 0x200A
    ||| u == 0x2028
    ||| u == 0x2029
    ||| u == 0x202F
    ||| u == 0x205F
    ||| u == 0x3000
}

/// Whether `c` is Unicode white space.
pub fn is_whitespace(c: char) -> (b: bool)
    ensures
        b == is_ws(c),
{
    let u = c as u32;
    (0x9 <= u && u <= 0xD) || u == 0x20 || u == 0x85 || u == 0xA0 || u == 0x1680 || (0x2000 <= u
        && u <= 0x200A) || u == 0x2028 || u == 0x2029 || u == 0x202F || u == 0x205F || u == 0x3000
}

/// Index of the first character of `s` at or after `i` that is not white space (or `s.len()`).
pub open spec fn skip_ws(s: Seq<char>, i: int) -> int
    decreases s.len() - i,
{
    if i < 0 || i >= s.len() || !is_ws(s[i]) {
        i
    } else {
        skip_ws(s, i + 1)
    }
}

/// End (exclusive) of the trailing white space of `s[..j]` scanned backwards: the smallest
/// `j' <= j` such that `s[j'..j]` is all white space.
pub open spec fn skip_ws_back(s: Seq<char>, j: int) -> int
    decreases j,
{
    if j <= 0 || j > s.len() || !is_ws(s[j - 1]) {
        j
    } else {
        skip_ws_back(s, j - 1)
    }
}

/// `s` without leading and trailing white space (std's `str::trim`).
pub open spec fn trim(s: Seq<char>) -> Seq<char> {
    let lo = skip_ws(s, 0);
    let hi = skip_ws_back(s, s.len() as int);
    if lo >= hi {
        Seq::empty()
    } else {
        s.subrange(lo, hi)
    }
}

pub proof fn lemma_skip_ws(s: Seq<char>, i: int)
    requires
        0 <= i <= s.len(),
    ensures
        i <= skip_ws(s, i) <= s.len(),
        forall|x: int| i <= x < skip_ws(s, i) ==> is_ws(#[trigger] s[x]),
        skip_ws(s, i) < s.len() ==> !is_ws(s[skip_ws(s, i)]),
    decreases s.len() - i,
{
    if i < s.len() && is_ws(s[i]) {
        lemma_skip_ws(s, i + 1);
    }
}

pub proof fn lemma_skip_ws_back(s: Seq<char>, j: int)
    requires
        0 <= j <= s.len(),
    ensures
        0 <= skip_ws_back(s, j) <= j,
        forall|x: int| skip_ws_back(s, j) <= x < j ==> is_ws(#[trigger] s[x]),
        skip_ws_back(s, j) > 0 ==> !is_ws(s[skip_ws_back(s, j) - 1]),
    decreases j,
{
    if j > 0 && is_ws(s[j - 1]) {
        lemma_skip_ws_back(s, j - 1);
    }
}

/// Bounds `(lo, hi)` of `trim(s)` in `s`.
pub fn trim_bounds(s: &[char]) -> (r: (usize, usize))
    ensures
        r.0 == skip_ws(s@, 0),
        r.1 == skip_ws_back(s@, s@.len() as int),
        r.0 <= s@.len(),
        r.1 <= s@.len(),
{
    let n = s.len();
    let mut lo: usize = 0;
    while lo < n && is_whitespace(s[lo])
        invariant
            n == s@.len(),
            lo <= n,
            skip_ws(s@, lo as int) == skip_ws(s@, 0),
        decreases n - lo,
    {
        lo += 1;
    }
    let mut hi: usize = n;
    while hi > 0 && is_whitespace(s[hi - 1])
        invariant
            n == s@.len(),
            hi <= n,
            skip_ws_back(s@, hi as int) == skip_ws_back(s@, n as int),
        decreases hi,
    {
        hi -= 1;
    }
    (lo, hi)
}

/// The characters of `trim(s)`.
pub fn trim_chars(s: &[char]) -> (out: Vec<char>)
    ensures
        out@ == trim(s@),
{
    let (lo, hi) = trim_bounds(s);
    let mut out: Vec<char> = Vec::new();
    if lo < hi {
        let mut j = lo;
        while j < hi
            invariant
                lo <= j <= hi <= s@.len(),
                out@ == s@.subrange(lo as int, j as int),
            decreases hi - j,
        {
            out.push(s[j]);
            assert(s@.subrange(lo as int, j + 1) == s@.subrange(lo as int, j as int).push(s@[j as int]));
            j += 1;
        }
    }
    out
}

/// End (exclusive) of the word that starts at `j`.
pub open spec fn word_end(s: Seq<char>, j: int) -> int
    decreases s.len() - j,
{
    if j < 0 || j >= s.len() || is_ws(s[j]) {
        j
    } else {
        word_end(s, j + 1)
    }
}

/// The white-space separated words of `s[i..]` (std's `str::split_whitespace`).
pub open spec fn words_from(s: Seq<char>, i: int) -> Seq<Seq<char>>
    decreases s.len() - i,
{
    if i < 0 || i >= s.len() {
        Seq::empty()
    } else if is_ws(s[i]) {
        words_from(s, i + 1)
    } else {
        let e = word_end(s, i);
        if e <= i || e > s.len() {
            Seq::empty()
        } else {
            seq![s.subrange(i, e)] + words_from(s, e)
        }
    }
}

/// The white-space separated words of `s`.
pub open spec fn words(s: Seq<char>) -> Seq<Seq<char>> {
    words_from(s, 0)
}

pub proof fn lemma_word_end(s: Seq<char>, j: int)
    requires
        0 <= j <= s.len(),
    ensures
        j <= word_end(s, j) <= s.len(),
        forall|x: int| j <= x < word_end(s, j) ==> !is_ws(#[trigger] s[x]),
        word_end(s, j) < s.len() ==> is_ws(s[word_end(s, j)]),
    decreases s.len() - j,
{
    if j < s.len() && !is_ws(s[j]) {
        lemma_word_end(s, j + 1);
    }
}

/// The words of `s`, each as its characters.
pub fn split_words(s: &[char]) -> (out: Vec<Vec<char>>)
    ensures
        out@.len() == words(s@).len(),
        forall|k: int| 0 <= k < out@.len() ==> #[trigger] out@[k]@ == words(s@)[k],
{
    let n = s.len();
    let mut out: Vec<Vec<char>> = Vec::new();
    let mut i: usize = 0;
    while i < n
        invariant
            n == s@.len(),
            i <= n,
            out@.len() + words_from(s@, i as int).len() == words(s@).len(),
            forall|k: int| 0 <= k < out@.len() ==> #[trigger] out@[k]@ == words(s@)[k],
            forall|k: int|
                0 <= k < words_from(s@, i as int).len() ==> #[trigger] words_from(s@, i as int)[k]
                    == words(s@)[out@.len() + k],
        decreases n - i,
    {
        if is_whitespace(s[i]) {
            i += 1;
        } else {
            proof {
                lemma_word_end(s@, i as int);
            }
            let mut e = i;
            let mut w: Vec<char> = Vec::new();
            while e < n && !is_whitespace(s[e])
                invariant
                    n == s@.len(),
                    i <= e <= n,
                    word_end(s@, e as int) == word_end(s@, i as int),
                    w@ == s@.subrange(i as int, e as int),
                decreases n - e,
            {
                w.push(s[e]);
                assert(s@.subrange(i as int, e + 1) == s@.subrange(i as int, e as int).push(s@[e as int]));
                e += 1;
            }
            let ghost rest = words_from(s@, i as int);
            assert(rest == seq![s@.subrange(i as int, e as int)] + words_from(s@, e as int));
            assert(rest[0] == w@);
            assert forall|k: int| 0 <= k < words_from(s@, e as int).len() implies #[trigger] words_from(s@, e as int)[k]
                == words(s@)[out@.len() + 1 + k] by {
                assert(words_from(s@, e as int)[k] == rest[k + 1]);
            }
            out.push(w);
            i = e;
        }
    }
    out
}

/// `ws` joined with `sep` between neighbours (std's `join`).
pub open spec fn join(ws: Seq<Seq<char>>, sep: Seq<char>) -> Seq<char>
    decreases ws.len(),
{
    if ws.len() == 0 {
        Seq::empty()
    } else if ws.len() == 1 {
        ws[0]
    } else {
        join(ws.drop_last(), sep) + sep + ws.last()
    }
}

/// The words `ws[a..b]` joined with single spaces.
pub fn join_words(ws: &Vec<Vec<char>>, a: usize, b: usize) -> (out: Vec<char>)
    requires
        a <= b <= ws@.len(),
    ensures
        out@ == join(ws@.subrange(a as int, b as int).map_values(|w: Vec<char>| w@), seq![' ']),
{
    let mut out: Vec<char> = Vec::new();
    let mut j = a;
    while j < b
        invariant
            a <= j <= b <= ws@.len(),
            out@ == join(ws@.subrange(a as int, j as int).map_values(|w: Vec<char>| w@), seq![' ']),
        decreases b - j,
    {
        let ghost before = out@;
        if j > a {
            out.push(' ');
        }
        let w = &ws[j];
        let mut x: usize = 0;
        let ghost mid = out@;
        while x < w.len()
            invariant
                x <= w@.len(),
                out@ == mid + w@.subrange(0, x as int),
            decreases w@.len() - x,
        {
            out.push(w[x]);
            assert(w@.subrange(0, x + 1) == w@.subrange(0, x as int).push(w@[x as int]));
            x += 1;
        }
        assert(w@.subrange(0, w@.len() as int) == w@);
        let ghost prev = ws@.subrange(a as int, j as int).map_values(|w: Vec<char>| w@);
        let ghost next = ws@.subrange(a as int, j + 1).map_values(|w: Vec<char>| w@);
        assert(next.drop_last() =~= prev);
        assert(next.last() == ws@[j as int]@);
        if j > a {
            assert(out@ =~= join(prev, seq![' ']) + seq![' '] + ws@[j as int]@);
        } else {
            assert(next.len() == 1);
            assert(out@ =~= ws@[j as int]@);
        }
        j += 1;
    }
    out
}

/// Index of the first occurrence of `pat` in `s` at or after `i`.
pub open spec fn find_from(s: Seq<char>, pat: Seq<char>, i: int) -> Option<int>
    decreases s.len() + 1 - i,
{
    if i < 0 || i + pat.len() > s.len() {
        None
    } else if s.subrange(i, i + pat.len()) == pat {
        Some(i)
    } else {
        find_from(s, pat, i + 1)
    }
}

/// Index of the first occurrence of `pat` in `s` (std's `str::find`, counted in characters).
pub open spec fn find(s: Seq<char>, pat: Seq<char>) -> Option<int> {
    find_from(s, pat, 0)
}

pub proof fn lemma_find_from(s: Seq<char>, pat: Seq<char>, i: int)
    requires
        0 <= i,
    ensures
        find_from(s, pat, i) matches Some(k) ==> i <= k && k + pat.len() <= s.len()
            && s.subrange(k, k + pat.len()) == pat,
    decreases s.len() + 1 - i,
{
    if !(i + pat.len() > s.len()) && s.subrange(i, i + pat.len()) != pat {
        lemma_find_from(s, pat, i + 1);
    }
}

/// Whether `pat` occurs in `s` at `i`.
pub fn matches_at(s: &[char], pat: &[char], i: usize) -> (b: bool)
    requires
        i + pat@.len() <= s@.len(),
    ensures
        b == (s@.subrange(i as int, i + pat@.len()) == pat@),
{
    let n = pat.len();
    let ns = s.len();
    let mut j: usize = 0;
    while j < n
        invariant
            ns == s@.len(),
            n == pat@.len(),
            i + n <= s@.len(),
            j <= n,
            forall|x: int| 0 <= x < j ==> #[trigger] s@.subrange(i as int, i + n)[x] == pat@[x],
        decreases n - j,
    {
        if s[i + j] != pat[j] {
            assert(s@.subrange(i as int, i + n)[j as int] != pat@[j as int]);
            return false;
        }
        j += 1;
    }
    assert(s@.subrange(i as int, i + n) =~= pat@);
    true
}

/// The first occurrence of `pat` in `s` at or after `i`.
pub fn find_chars_from(s: &[char], pat: &[char], i: usize) -> (r: Option<usize>)
    ensures
        r matches Some(k) ==> find_from(s@, pat@, i as int) == Some(k as int),
        r is None ==> find_from(s@, pat@, i as int) is None,
{
    let n = s.len();
    let m = pat.len();
    if m > n {
        return None;
    }
    let mut j = i;
    while j <= n - m
        invariant
            n == s@.len(),
            m == pat@.len(),
            m <= n,
            i <= j,
            find_from(s@, pat@, j as int) == find_from(s@, pat@, i as int),
        decreases n + 1 - j,
    {
        if matches_at(s, pat, j) {
            return Some(j);
        }
        if j == n - m {
            assert(find_from(s@, pat@, j + 1) is None);
            return None;
        }
        j += 1;
    }
    None
}

/// Whether `w` ends with `c`.
pub fn ends_with_char(w: &[char], c: char) -> (b: bool)
    ensures
        b == (w@.len() > 0 && w@.last() == c),
{
    w.len() > 0 && w[w.len() - 1] == c
}

/// Appends the characters of `s` to `out`.
pub fn push_str_chars(out: &mut Vec<char>, s: &str)
    ensures
        final(out)@ == old(out)@ + s@,
{
    let cs = chars_of(s);
    push_all(out, &cs);
}

/// Appends `v` to `out`.
pub fn push_all(out: &mut Vec<char>, v: &Vec<char>)
    ensures
        final(out)@ == old(out)@ + v@,
{
    let mut j: usize = 0;
    while j < v.len()
        invariant
            j <= v@.len(),
            out@ == old(out)@ + v@.subrange(0, j as int),
        decreases v@.len() - j,
    {
        out.push(v[j]);
        assert(v@.subrange(0, j + 1) == v@.subrange(0, j as int).push(v@[j as int]));
        j += 1;
    }
    assert(v@.subrange(0, v@.len() as int) == v@);
}

/// Whether two strings have the same characters.
pub fn str_eq(a: &str, b: &str) -> (r: bool)
    ensures
        r == (a@ == b@),
{
    let x = chars_of(a);
    let y = chars_of(b);
    if x.len() != y.len() {
        return false;
    }
    let r = matches_at(x.as_slice(), y.as_slice(), 0);
    assert(x@.subrange(0, y@.len() as int) == x@);
    r
}

/// Whether `s` starts with `p`.
pub fn starts_with(s: &[char], p: &[char]) -> (r: bool)
    ensures
        r == (p@.len() <= s@.len() && s@.subrange(0, p@.len() as int) == p@),
{
    if p.len() > s.len() {
        return false;
    }
    matches_at(s, p, 0)
}

/// Whether `s` ends with `p`.
pub fn ends_with(s: &[char], p: &[char]) -> (r: bool)
    ensures
        r == (p@.len() <= s@.len() && s@.subrange(s@.len() - p@.len(), s@.len() as int) == p@),
{
    if p.len() > s.len() {
        return false;
    }
    matches_at(s, p, s.len() - p.len())
}

/// The characters `s[a..b]`.
pub fn sub_chars(s: &[char], a: usize, b: usize) -> (out: Vec<char>)
    requires
        a <= b <= s@.len(),
    ensures
        out@ == s@.subrange(a as int, b as int),
{
    let mut out: Vec<char> = Vec::new();
    let mut j = a;
    while j < b
        invariant
            a <= j <= b <= s@.len(),
            out@ == s@.subrange(a as int, j as int),
        decreases b - j,
    {
        out.push(s[j]);
        assert(s@.subrange(a as int, j + 1) == s@.subrange(a as int, j as int).push(s@[j as int]));
        j += 1;
    }
    out
}


/// The decimal digits of `n` (what `format!("{n}")` writes for an unsigned integer).
pub open spec fn decimal(n: nat) -> Seq<char>
    decreases n,
{
    if n < 10 {
        seq![digit_char(n)]
    } else {
        decimal(n / 10) + seq![digit_char(n % 10)]
    }
}

/// The character of a decimal digit.
pub open spec fn digit_char(d: nat) -> char {
    if d == 0 { '0' }
    else if d == 1 { '1' }
    else if d == 2 { '2' }
    else if d == 3 { '3' }
    else if d == 4 { '4' }
    else if d == 5 { '5' }
    else if d == 6 { '6' }
    else if d == 7 { '7' }
    else if d == 8 { '8' }
    else { '9' }
}

fn digit(d: usize) -> (c: char)
    requires
        d < 10,
    ensures
        c == digit_char(d as nat),
{
    if d == 0 { '0' }
    else if d == 1 { '1' }
    else if d == 2 { '2' }
    else if d == 3 { '3' }
    else if d == 4 { '4' }
    else if d == 5 { '5' }
    else if d == 6 { '6' }
    else if d == 7 { '7' }
    else if d == 8 { '8' }
    else { '9' }
}

/// Appends the decimal digits of `n` to `out`.
pub fn push_decimal(out: &mut Vec<char>, n: usize)
    ensures
        final(out)@ == old(out)@ + decimal(n as nat),
    decreases n,
{
    if n < 10 {
        out.push(digit(n));
    } else {
        push_decimal(out, n / 10);
        out.push(digit(n % 10));
    }
}


/// `s[i..]` with each occurrence of `from`, scanned left to right without overlap, replaced
/// by `to` (std's `str::replace` for a non-empty pattern).
pub open spec fn replace_from(s: Seq<char>, from: Seq<char>, to: Seq<char>, i: int) -> Seq<char>
    decreases s.len() - i,
{
    if i < 0 || i >= s.len() || from.len() == 0 {
        if 0 <= i <= s.len() { s.subrange(i, s.len() as int) } else { Seq::empty() }
    } else if i + from.len() <= s.len() && s.subrange(i, i + from.len()) == from {
        to + replace_from(s, from, to, i + from.len())
    } else {
        seq![s[i]] + replace_from(s, from, to, i + 1)
    }
}

/// `s` with every occurrence of `from` replaced by `to`.
pub open spec fn replace_str(s: Seq<char>, from: Seq<char>, to: Seq<char>) -> Seq<char> {
    replace_from(s, from, to, 0)
}

/// Replaces every occurrence of `from` in `s` by `to`, left to right.
pub fn replace_all(s: &[char], from: &str, to: &str) -> (out: Vec<char>)
    requires
        from@.len() >= 1,
    ensures
        out@ == replace_str(s@, from@, to@),
{
    let f = chars_of(from);
    let t = chars_of(to);
    let n = s.len();
    let m = f.len();
    let mut out: Vec<char> = Vec::new();
    let mut i: usize = 0;
    while i < n
        invariant
            n == s@.len(),
            m == f@.len(),
            f@ == from@,
            t@ == to@,
            m >= 1,
            i <= n,
            out@ + replace_from(s@, from@, to@, i as int) == replace_str(s@, from@, to@),
        decreases n - i,
    {
        let ghost before = out@;
        if m <= n - i && matches_at(s, f.as_slice(), i) {
            push_all(&mut out, &t);
            assert(out@ + replace_from(s@, from@, to@, (i + m) as int) =~= before + replace_from(s@, from@, to@, i as int));
            i += m;
        } else {
            out.push(s[i]);
            assert(out@ + replace_from(s@, from@, to@, i + 1) =~= before + replace_from(s@, from@, to@, i as int));
            i += 1;
        }
    }
    assert(replace_from(s@, from@, to@, i as int) =~= Seq::<char>::empty());
    assert(out@ + Seq::<char>::empty() =~= out@);
    out
}

/// `s` without the prefix `p` when it starts with it (std's `strip_prefix(..).unwrap_or(s)`).
pub open spec fn without_prefix(s: Seq<char>, p: Seq<char>) -> Seq<char> {
    if p.len() <= s.len() && s.subrange(0, p.len() as int) == p {
        s.subrange(p.len() as int, s.len() as int)
    } else {
        s
    }
}

/// `s` without the prefix `p` when it starts with it.
pub fn strip_prefix_chars(s: &[char], p: &str) -> (out: Vec<char>)
    ensures
        out@ == without_prefix(s@, p@),
{
    let pc = chars_of(p);
    if starts_with(s, pc.as_slice()) {
        sub_chars(s, pc.len(), s.len())
    } else {
        let out = sub_chars(s, 0, s.len());
        assert(s@.subrange(0, s@.len() as int) == s@);
        out
    }
}

/// `p` occurs somewhere in `s`.
pub open spec fn contains_seq(s: Seq<char>, p: Seq<char>) -> bool {
    find(s, p) is Some
}

/// Whether `p` occurs in `s` (std's `str::contains` with a string pattern).
pub fn contains_str(s: &str, p: &str) -> (r: bool)
    ensures
        r == contains_seq(s@, p@),
{
    let a = chars_of(s);
    let b = chars_of(p);
    find_chars_from(a.as_slice(), b.as_slice(), 0).is_some()
}

/// ASCII lowercase of a character; other characters stay.
pub open spec fn ascii_lower(c: char) -> char {
    if 'A' <= c && c <= 'Z' { ((c as u32) + 32) as char } else { c }
}

/// `a` and `b` are equal up to ASCII case (std's `eq_ignore_ascii_case`).
pub open spec fn eq_ignore_ascii_case(a: Seq<char>, b: Seq<char>) -> bool {
    a.len() == b.len() && forall|i: int| 0 <= i < a.len() ==> ascii_lower(#[trigger] a[i]) == ascii_lower(b[i])
}

fn lower_code(c: char) -> (r: u32)
    ensures
        r == ascii_lower(c) as u32,
{
    if 'A' <= c && c <= 'Z' {
        c as u32 + 32
    } else {
        c as u32
    }
}

fn same_up_to_case(x: char, y: char) -> (r: bool)
    ensures
        r == (ascii_lower(x) == ascii_lower(y)),
{
    lower_code(x) == lower_code(y)
}

/// Whether `a` and `b` are equal up to ASCII case.
pub fn str_eq_ignore_ascii_case(a: &str, b: &str) -> (r: bool)
    ensures
        r == eq_ignore_ascii_case(a@, b@),
{
    let x = chars_of(a);
    let y = chars_of(b);
    if x.len() != y.len() {
        return false;
    }
    let mut i: usize = 0;
    while i < x.len()
        invariant
            x@ == a@,
            y@ == b@,
            x@.len() == y@.len(),
            i <= x@.len(),
            forall|j: int| 0 <= j < i ==> ascii_lower(#[trigger] x@[j]) == ascii_lower(y@[j]),
        decreases x@.len() - i,
    {
        if !same_up_to_case(x[i], y[i]) {
            return false;
        }
        i += 1;
    }
    true
}

/// A decimal digit character.
pub open spec fn is_digit(c: char) -> bool {
    '0' <= c && c <= '9'
}

/// The value of a string of decimal digits.
pub open spec fn digits_value(d: Seq<char>) -> nat
    decreases d.len(),
{
    if d.len() == 0 {
        0
    } else {
        digits_value(d.drop_last()) * 10 + ((d.last() as u32) - ('0' as u32)) as nat
    }
}

/// `s` without one leading `+`.
pub open spec fn unsigned_digits(s: Seq<char>) -> Seq<char> {
    if s.len() > 0 && s[0] == '+' { s.drop_first() } else { s }
}

/// Every character of `d` is a decimal digit.
pub open spec fn all_digits(d: Seq<char>) -> bool {
    forall|i: int| 0 <= i < d.len() ==> is_digit(#[trigger] d[i])
}

/// What std's `from_str` for an unsigned integer type whose largest value is `max` makes of
/// `s`: an optional `+`, then at least one decimal digit and nothing else, with a value of at
/// most `max`.
pub open spec fn parse_uint_spec(s: Seq<char>, max: nat) -> Option<nat> {
    let d = unsigned_digits(s);
    if d.len() == 0 || !all_digits(d) {
        None
    } else if digits_value(d) > max {
        None
    } else {
        Some(digits_value(d))
    }
}

/// Parses `s` as an unsigned decimal integer of at most `max`.
pub fn parse_uint(s: &[char], max: u64) -> (r: Option<u64>)
    ensures
        match parse_uint_spec(s@, max as nat) {
            Some(v) => r == Some(v as u64),
            None => r is None,
        },
{
    let start: usize = if s.len() > 0 && s[0] == '+' { 1 } else { 0 };
    let ghost d = unsigned_digits(s@);
    assert(d == s@.subrange(start as int, s@.len() as int));
    if start >= s.len() {
        return None;
    }
    let mut acc: u128 = 0;
    let mut over = false;
    let mut i = start;
    while i < s.len()
        invariant
            start <= i <= s@.len(),
            d == s@.subrange(start as int, s@.len() as int),
            d == unsigned_digits(s@),
            forall|j: int| start <= j < i ==> is_digit(#[trigger] s@[j]),
            over <==> digits_value(s@.subrange(start as int, i as int)) > max,
            !over ==> acc == digits_value(s@.subrange(start as int, i as int)),
            acc <= max,
        decreases s@.len() - i,
    {
        let c = s[i];
        if !('0' <= c && c <= '9') {
            assert(d[i - start] == c);
            assert(!is_digit(d[i - start]));
            return None;
        }
        let ghost pre = s@.subrange(start as int, i as int);
        let ghost next = s@.subrange(start as int, i + 1);
        assert(next.drop_last() == pre);
        assert(next.last() == c);
        let dv: u128 = (c as u32 - '0' as u32) as u128;
        if !over {
            let v = acc * 10 + dv;
            if v > max as u128 {
                over = true;
            } else {
                acc = v;
            }
        } else {
            assert(digits_value(next) >= digits_value(pre));
        }
        i += 1;
    }
    assert(s@.subrange(start as int, s@.len() as int) == d);
    assert forall|j: int| 0 <= j < d.len() implies is_digit(#[trigger] d[j]) by {
        assert(d[j] == s@[j + start]);
    }
    if over {
        None
    } else {
        Some(acc as u64)
    }
}

/// `a` followed by `b`.
pub fn str_cat(a: &str, b: &str) -> (r: String)
    ensures
        r@ == a@ + b@,
{
    let mut out: Vec<char> = Vec::new();
    push_str_chars(&mut out, a);
    push_str_chars(&mut out, b);
    string_from_chars(out.as_slice())
}

/// `a`, then `b`, then `c`.
pub fn str_cat3(a: &str, b: &str, c: &str) -> (r: String)
    ensures
        r@ == a@ + b@ + c@,
{
    let mut out: Vec<char> = Vec::new();
    push_str_chars(&mut out, a);
    push_str_chars(&mut out, b);
    push_str_chars(&mut out, c);
    string_from_chars(out.as_slice())
}

} // verus!
