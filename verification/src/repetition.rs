//! Collapsing of runaway repetitions in decoded transcripts.
use vstd::prelude::*;

use crate::text::{chars_of, string_from_chars};

verus! {

/// End (exclusive) of the run of `s[i]` that continues at or after `j`.
pub open spec fn run_end(s: Seq<char>, i: int, j: int) -> int
    decreases s.len() - j,
{
    if j >= s.len() || j < 0 || s[j] != s[i] {
        j
    } else {
        run_end(s, i, j + 1)
    }
}

/// The result of collapsing every run longer than `t` in `s[i..]` to one character.
pub open spec fn char_fix_from(s: Seq<char>, t: nat, i: int) -> Seq<char>
    decreases s.len() - i,
{
    if i >= s.len() || i < 0 {
        Seq::empty()
    } else {
        let e = run_end(s, i, i + 1);
        let head = if e - i > t { seq![s[i]] } else { s.subrange(i, e) };
        if e <= i || e > s.len() {
            head
        } else {
            head + char_fix_from(s, t, e)
        }
    }
}

/// Each run of one character longer than `t` collapses to that character.
pub open spec fn char_fix(s: Seq<char>, t: nat) -> Seq<char> {
    char_fix_from(s, t, 0)
}

proof fn lemma_run_end_bounds(s: Seq<char>, i: int, j: int)
    requires
        0 <= i < s.len(),
        i < j,
    ensures
        j <= run_end(s, i, j),
        j <= s.len() ==> run_end(s, i, j) <= s.len(),
        forall|x: int| j <= x < run_end(s, i, j) ==> s[x] == s[i],
    decreases s.len() - j,
{
    if j >= s.len() || s[j] != s[i] {
    } else {
        lemma_run_end_bounds(s, i, j + 1);
    }
}

fn fix_char_repeats(chars: &[char], thresh: usize) -> (res: Vec<char>)
    ensures
        res@ == char_fix(chars@, thresh as nat),
{
    let n = chars.len();
    let mut res: Vec<char> = Vec::new();
    let mut i: usize = 0;
    while i < n
        invariant
            n == chars@.len(),
            i <= n,
            res@ + char_fix_from(chars@, thresh as nat, i as int) == char_fix(chars@, thresh as nat),
        decreases n - i,
    {
        let mut count: usize = 1;
        proof {
            lemma_run_end_bounds(chars@, i as int, i as int + 1);
        }
        while i + count < n && chars[i + count] == chars[i]
            invariant
                n == chars@.len(),
                i < n,
                1 <= count <= n - i,
                run_end(chars@, i as int, i as int + 1) == run_end(chars@, i as int, (i + count) as int),
            decreases n - i - count,
        {
            count += 1;
        }
        let ghost e = run_end(chars@, i as int, i as int + 1);
        assert(e == i + count);
        let ghost before = res@;
        if count > thresh {
            res.push(chars[i]);
            assert(res@ == before + seq![chars@[i as int]]);
        } else {
            let mut j: usize = i;
            while j < i + count
                invariant
                    n == chars@.len(),
                    i <= j <= i + count <= n,
                    res@ == before + chars@.subrange(i as int, j as int),
                decreases i + count - j,
            {
                res.push(chars[j]);
                assert(chars@.subrange(i as int, j + 1) == chars@.subrange(i as int, j as int).push(chars@[j as int]));
                j += 1;
            }
        }
        assert(res@ + char_fix_from(chars@, thresh as nat, (i + count) as int) == before + char_fix_from(chars@, thresh as nat, i as int));
        i += count;
    }
    assert(char_fix_from(chars@, thresh as nat, i as int) == Seq::<char>::empty());
    assert(res@ + Seq::<char>::empty() == res@);
    res
}


/// The `k` characters at `a` equal the `k` characters at `i`.
pub open spec fn seg_matches(s: Seq<char>, i: int, a: int, k: int) -> bool {
    s.subrange(a, a + k) == s.subrange(i, i + k)
}

/// The pattern `s[i..i+k]` occurs `t` times back to back from `i`.
pub open spec fn repeats_at(s: Seq<char>, i: int, k: int, t: int) -> bool {
    forall|rep: int| 1 <= rep < t ==> #[trigger] seg_matches(s, i, i + rep * k, k)
}

/// The smallest pattern length in `[k, m]` that repeats `t` times from `i`, stopping at the
/// first length whose `t` copies would run past the end.
pub open spec fn first_pattern(s: Seq<char>, t: int, m: int, i: int, k: int) -> Option<int>
    decreases m + 1 - k,
{
    if k > m || k < 1 || i + k * t > s.len() {
        None
    } else if repeats_at(s, i, k, t) {
        Some(k)
    } else {
        first_pattern(s, t, m, i, k + 1)
    }
}

/// End of the repeated region: whole further copies of `s[i..i+k]` are absorbed from `e` on.
pub open spec fn repeat_end(s: Seq<char>, i: int, k: int, e: int) -> int
    decreases s.len() - e,
{
    if k >= 1 && e + k <= s.len() && seg_matches(s, i, e, k) {
        repeat_end(s, i, k, e + k)
    } else {
        e
    }
}

/// Collapses the first run of `t` or more back-to-back copies of a pattern of at most `m`
/// characters to one copy, and does the same on what follows the run.
pub open spec fn pattern_fix(s: Seq<char>, t: int, m: int) -> Seq<char>
    decreases s.len(), 1int, 0int,
{
    if s.len() < 2 * t {
        s
    } else {
        pattern_scan(s, t, m, 0)
    }
}

/// `pattern_fix` on `s` where the scan has reached position `i`.
pub open spec fn pattern_scan(s: Seq<char>, t: int, m: int, i: int) -> Seq<char>
    decreases s.len(), 0int, s.len() - i,
{
    if i < 0 || i >= s.len() || i > s.len() - 2 * t {
        s.subrange(i, s.len() as int)
    } else {
        match first_pattern(s, t, m, i, 1) {
            Some(k) => {
                let e = repeat_end(s, i, k, i + t * k);
                if e <= 0 || e > s.len() {
                    s.subrange(i, i + k)
                } else {
                    s.subrange(i, i + k) + pattern_fix(s.subrange(e, s.len() as int), t, m)
                }
            },
            None => seq![s[i]] + pattern_scan(s, t, m, i + 1),
        }
    }
}

fn seg_eq(chars: &[char], i: usize, a: usize, k: usize) -> (res: bool)
    requires
        i + k <= chars@.len(),
        a + k <= chars@.len(),
    ensures
        res == seg_matches(chars@, i as int, a as int, k as int),
{
    let n = chars.len();
    let mut j: usize = 0;
    while j < k
        invariant
            n == chars@.len(),
            i + k <= chars@.len(),
            a + k <= chars@.len(),
            j <= k,
            forall|x: int| 0 <= x < j ==> #[trigger] chars@.subrange(a as int, a + k)[x] == chars@.subrange(i as int, i + k)[x],
        decreases k - j,
    {
        if chars[a + j] != chars[i + j] {
            assert(chars@.subrange(a as int, a + k)[j as int] != chars@.subrange(i as int, i + k)[j as int]);
            return false;
        }
        j += 1;
    }
    assert(chars@.subrange(a as int, a + k) =~= chars@.subrange(i as int, i + k));
    true
}

fn repeats_check(chars: &[char], i: usize, k: usize, t: usize) -> (res: bool)
    requires
        k >= 1,
        i + k * t <= chars@.len(),
    ensures
        res == repeats_at(chars@, i as int, k as int, t as int),
{
    let n = chars.len();
    let mut rep: usize = 1;
    while rep < t
        invariant
            n == chars@.len(),
            k >= 1,
            1 <= rep,
            i + k * t <= chars@.len(),
            forall|r: int| 1 <= r < rep ==> #[trigger] seg_matches(chars@, i as int, i + r * k, k as int),
        decreases t - rep,
    {
        assert(rep * k + k <= k * t) by (nonlinear_arith)
            requires rep < t, k >= 1;
        let start = i + rep * k;
        if !seg_eq(chars, i, start, k) {
            assert(!seg_matches(chars@, i as int, i + rep * k, k as int));
            return false;
        }
        rep += 1;
    }
    true
}

fn find_pattern(chars: &[char], i: usize, t: usize, m: usize) -> (res: Option<usize>)
    requires
        i <= chars@.len(),
    ensures
        res matches Some(k) ==> first_pattern(chars@, t as int, m as int, i as int, 1) == Some(k as int)
            && k >= 1 && i + k * t <= chars@.len(),
        res is None ==> first_pattern(chars@, t as int, m as int, i as int, 1) is None,
{
    let n = chars.len();
    let mut k: usize = 1;
    while k <= m
        invariant
            n == chars@.len(),
            i <= n,
            1 <= k,
            first_pattern(chars@, t as int, m as int, i as int, 1) == first_pattern(chars@, t as int, m as int, i as int, k as int),
        decreases m + 1 - k,
    {
        let kt = k.checked_mul(t);
        match kt {
            None => {
                assert(i + k * t > n);
                return None;
            },
            Some(kt) => {
                if kt > n - i {
                    return None;
                }
                if repeats_check(chars, i, k, t) {
                    return Some(k);
                }
            },
        }
        if k == m {
            assert(first_pattern(chars@, t as int, m as int, i as int, k + 1) is None);
            return None;
        }
        k += 1;
    }
    None
}

fn find_repeat_end(chars: &[char], i: usize, k: usize, e0: usize) -> (e: usize)
    requires
        k >= 1,
        i + k <= chars@.len(),
        e0 <= chars@.len(),
    ensures
        e as int == repeat_end(chars@, i as int, k as int, e0 as int),
        e0 <= e <= chars@.len(),
{
    let n = chars.len();
    let mut e = e0;
    while k <= n - e && seg_eq(chars, i, e, k)
        invariant
            n == chars@.len(),
            k >= 1,
            i + k <= n,
            e0 <= e <= n,
            repeat_end(chars@, i as int, k as int, e as int) == repeat_end(chars@, i as int, k as int, e0 as int),
        decreases n - e,
    {
        e += k;
    }
    e
}

fn push_range(out: &mut Vec<char>, chars: &[char], a: usize, b: usize)
    requires
        a <= b <= chars@.len(),
    ensures
        final(out)@ == old(out)@ + chars@.subrange(a as int, b as int),
{
    let mut j = a;
    while j < b
        invariant
            a <= j <= b <= chars@.len(),
            out@ == old(out)@ + chars@.subrange(a as int, j as int),
        decreases b - j,
    {
        out.push(chars[j]);
        assert(chars@.subrange(a as int, j + 1) == chars@.subrange(a as int, j as int).push(chars@[j as int]));
        j += 1;
    }
}

fn fix_pattern_repeats(chars: &[char], thresh: usize, max_len: usize) -> (res: Vec<char>)
    requires
        thresh >= 1,
    ensures
        res@ == pattern_fix(chars@, thresh as int, max_len as int),
    decreases chars@.len(),
{
    let n = chars.len();
    if n / 2 < thresh {
        let mut out: Vec<char> = Vec::new();
        push_range(&mut out, chars, 0, n);
        assert(chars@.subrange(0, n as int) == chars@);
        return out;
    }
    let min_repeat = thresh * 2;
    let ghost t = thresh as int;
    let ghost m = max_len as int;
    let mut i: usize = 0;
    let mut result: Vec<char> = Vec::new();
    while i <= n - min_repeat
        invariant
            n == chars@.len(),
            thresh >= 1,
            min_repeat == 2 * thresh <= n,
            t == thresh as int,
            m == max_len as int,
            i <= n - min_repeat + 1,
            result@ + pattern_scan(chars@, t, m, i as int) == pattern_fix(chars@, t, m),
        decreases n - i,
    {
        match find_pattern(chars, i, thresh, max_len) {
            Some(k) => {
                proof {
                    assert(k * thresh >= k) by (nonlinear_arith)
                        requires k >= 1, thresh >= 1;
                    assert(k * thresh == thresh * k) by (nonlinear_arith);
                }
                let end = find_repeat_end(chars, i, k, i + thresh * k);
                let ghost before = result@;
                push_range(&mut result, chars, i, i + k);
                let mut tail: Vec<char> = Vec::new();
                push_range(&mut tail, chars, end, n);
                let rest = fix_pattern_repeats(tail.as_slice(), thresh, max_len);
                let mut j: usize = 0;
                let ghost mid = result@;
                while j < rest.len()
                    invariant
                        j <= rest@.len(),
                        result@ == mid + rest@.subrange(0, j as int),
                    decreases rest@.len() - j,
                {
                    result.push(rest[j]);
                    assert(rest@.subrange(0, j + 1) == rest@.subrange(0, j as int).push(rest@[j as int]));
                    j += 1;
                }
                assert(rest@.subrange(0, rest@.len() as int) == rest@);
                assert(tail@ == chars@.subrange(end as int, n as int));
                assert(pattern_scan(chars@, t, m, i as int) == chars@.subrange(i as int, i + k)
                    + pattern_fix(chars@.subrange(end as int, n as int), t, m));
                assert(result@ =~= before + pattern_scan(chars@, t, m, i as int));
                return result;
            },
            None => {
                let ghost before = result@;
                result.push(chars[i]);
                assert(pattern_scan(chars@, t, m, i as int) == seq![chars@[i as int]] + pattern_scan(chars@, t, m, i + 1));
                assert(result@ + pattern_scan(chars@, t, m, i + 1) =~= before + pattern_scan(chars@, t, m, i as int));
                i += 1;
            },
        }
    }
    let ghost before = result@;
    push_range(&mut result, chars, i, n);
    result
}


/// The pattern length that the collapse of repeated patterns looks for at most.
pub const MAX_PATTERN_LEN: usize = 20;

/// What `detect_and_fix_repetitions` returns for `text` and `threshold`: first every run of
/// one character longer than `threshold` becomes that character, then repeated patterns of up
/// to twenty characters collapse.
pub open spec fn fixed_repetitions(text: Seq<char>, threshold: int) -> Seq<char> {
    pattern_fix(char_fix(text, threshold as nat), threshold, MAX_PATTERN_LEN as int)
}

/// Collapses runaway repetitions in decoded text: runs of one character longer than
/// `threshold` become one character, then the first pattern of up to twenty characters that
/// repeats `threshold` times or more back to back collapses to one copy, and so on after it.
pub fn detect_and_fix_repetitions(text: &str, threshold: usize) -> (res: String)
    requires
        threshold >= 1,
    ensures
        res@ == fixed_repetitions(text@, threshold as int),
{
    let chars = chars_of(text);
    let once = fix_char_repeats(chars.as_slice(), threshold);
    let twice = fix_pattern_repeats(once.as_slice(), threshold, MAX_PATTERN_LEN);
    string_from_chars(twice.as_slice())
}

proof fn lemma_char_fix_from_len(s: Seq<char>, t: nat, i: int)
    requires
        0 <= i <= s.len(),
    ensures
        char_fix_from(s, t, i).len() <= s.len() - i,
    decreases s.len() - i,
{
    if i < s.len() {
        lemma_run_end_bounds(s, i, i + 1);
        let e = run_end(s, i, i + 1);
        lemma_char_fix_from_len(s, t, e);
    }
}

proof fn lemma_char_fix_from_identity(s: Seq<char>, t: nat, i: int)
    requires
        0 <= i <= s.len(),
        forall|j: int| 0 <= j < s.len() ==> #[trigger] run_end(s, j, j + 1) - j <= t,
    ensures
        char_fix_from(s, t, i) == s.subrange(i, s.len() as int),
    decreases s.len() - i,
{
    if i < s.len() {
        lemma_run_end_bounds(s, i, i + 1);
        let e = run_end(s, i, i + 1);
        lemma_char_fix_from_identity(s, t, e);
        assert(s.subrange(i, e) + s.subrange(e, s.len() as int) =~= s.subrange(i, s.len() as int));
    } else {
        assert(s.subrange(i, s.len() as int) =~= Seq::<char>::empty());
    }
}

proof fn lemma_first_pattern_bounds(s: Seq<char>, t: int, m: int, i: int, k0: int)
    ensures
        first_pattern(s, t, m, i, k0) matches Some(k) ==> k >= 1 && k >= k0 && i + k * t <= s.len(),
    decreases m + 1 - k0,
{
    if !(k0 > m || k0 < 1 || i + k0 * t > s.len()) && !repeats_at(s, i, k0, t) {
        lemma_first_pattern_bounds(s, t, m, i, k0 + 1);
    }
}

proof fn lemma_repeat_end_bounds(s: Seq<char>, i: int, k: int, e: int)
    requires
        e <= s.len(),
    ensures
        e <= repeat_end(s, i, k, e) <= s.len(),
    decreases s.len() - e,
{
    if k >= 1 && e + k <= s.len() && seg_matches(s, i, e, k) {
        lemma_repeat_end_bounds(s, i, k, e + k);
    }
}

proof fn lemma_pattern_fix_len(s: Seq<char>, t: int, m: int)
    requires
        t >= 1,
    ensures
        pattern_fix(s, t, m).len() <= s.len(),
    decreases s.len(), 1int, 0int,
{
    if s.len() >= 2 * t {
        lemma_pattern_scan_len(s, t, m, 0);
    }
}

proof fn lemma_pattern_scan_len(s: Seq<char>, t: int, m: int, i: int)
    requires
        t >= 1,
        0 <= i <= s.len(),
    ensures
        pattern_scan(s, t, m, i).len() <= s.len() - i,
    decreases s.len(), 0int, s.len() - i,
{
    if !(i >= s.len() || i > s.len() - 2 * t) {
        lemma_first_pattern_bounds(s, t, m, i, 1);
        match first_pattern(s, t, m, i, 1) {
            Some(k) => {
                assert(t * k >= k) by (nonlinear_arith)
                    requires t >= 1, k >= 1;
                assert(k * t == t * k) by (nonlinear_arith);
                lemma_repeat_end_bounds(s, i, k, i + t * k);
                let e = repeat_end(s, i, k, i + t * k);
                lemma_pattern_fix_len(s.subrange(e, s.len() as int), t, m);
            },
            None => {
                lemma_pattern_scan_len(s, t, m, i + 1);
            },
        }
    }
}

/// Collapsing repetitions never makes the text longer.
pub proof fn lemma_fixed_repetitions_never_longer(text: Seq<char>, threshold: int)
    requires
        threshold >= 1,
    ensures
        fixed_repetitions(text, threshold).len() <= text.len(),
{
    lemma_char_fix_from_len(text, threshold as nat, 0);
    lemma_pattern_fix_len(char_fix(text, threshold as nat), threshold, MAX_PATTERN_LEN as int);
}

/// Text in which no character repeats more than `threshold` times in a row is left as it is
/// by the collapse of character runs.
pub proof fn lemma_short_runs_unchanged(text: Seq<char>, threshold: nat)
    requires
        forall|j: int| 0 <= j < text.len() ==> #[trigger] run_end(text, j, j + 1) - j <= threshold,
    ensures
        char_fix(text, threshold) == text,
{
    lemma_char_fix_from_identity(text, threshold, 0);
    assert(text.subrange(0, text.len() as int) == text);
}

/// Text shorter than twice the threshold has no pattern to collapse.
pub proof fn lemma_short_text_has_no_pattern(text: Seq<char>, threshold: int, max_len: int)
    requires
        text.len() < 2 * threshold,
    ensures
        pattern_fix(text, threshold, max_len) == text,
{
}


/// `text` begins with `t` back-to-back copies of its first `k` characters.
pub open spec fn begins_with_copies(text: Seq<char>, k: int, t: int) -> bool {
    forall|rep: int, y: int|
        1 <= rep < t && 0 <= y < k ==> #[trigger] text[rep * k + y] == text[y]
}

proof fn lemma_copy_matches(text: Seq<char>, p: Seq<char>, t: int, c: int)
    requires
        p.len() >= 1,
        text.len() == p.len() * t,
        forall|i: int| 0 <= i < text.len() ==> #[trigger] text[i] == p[i % (p.len() as int)],
        0 <= c < t,
    ensures
        c * p.len() + p.len() <= text.len(),
        seg_matches(text, 0, c * p.len(), p.len() as int),
{
    let l = p.len() as int;
    assert(c * l + l <= t * l) by (nonlinear_arith)
        requires c < t, l >= 1;
    assert forall|y: int| 0 <= y < l implies #[trigger] text.subrange(c * l, c * l + l)[y] == text.subrange(0, l)[y] by {
        assert(c * l >= 0) by (nonlinear_arith)
            requires c >= 0, l >= 1;
        vstd::arithmetic::div_mod::lemma_fundamental_div_mod_converse(c * l + y, l, c, y);
        vstd::arithmetic::div_mod::lemma_small_mod(y as nat, l as nat);
        assert(text[c * l + y] == p[y]);
        assert(text[y] == p[y]);
    }
    assert(text.subrange(c * l, c * l + l) =~= text.subrange(0, l));
}

proof fn lemma_repeat_end_whole(text: Seq<char>, p: Seq<char>, t: int, c: int)
    requires
        p.len() >= 1,
        text.len() == p.len() * t,
        forall|i: int| 0 <= i < text.len() ==> #[trigger] text[i] == p[i % (p.len() as int)],
        0 <= c <= t,
    ensures
        repeat_end(text, 0, p.len() as int, c * p.len()) == text.len(),
    decreases t - c,
{
    let l = p.len() as int;
    if c < t {
        lemma_copy_matches(text, p, t, c);
        assert(c * l + l == (c + 1) * l) by (nonlinear_arith);
        lemma_repeat_end_whole(text, p, t, c + 1);
    } else {
        assert(c * l == text.len()) by (nonlinear_arith)
            requires c == t, text.len() == l * t;
    }
}

proof fn lemma_first_pattern_reaches(text: Seq<char>, p: Seq<char>, t: int, threshold: int, k: int)
    requires
        2 <= p.len() <= 20,
        1 <= threshold <= t,
        text.len() == p.len() * t,
        forall|i: int| 0 <= i < text.len() ==> #[trigger] text[i] == p[i % (p.len() as int)],
        forall|j: int| 1 <= j < p.len() ==> !#[trigger] begins_with_copies(text, j, threshold),
        1 <= k <= p.len(),
    ensures
        first_pattern(text, threshold, 20, 0, k) == Some(p.len() as int),
    decreases p.len() - k,
{
    let l = p.len() as int;
    assert(k * threshold <= l * t) by (nonlinear_arith)
        requires k <= l, threshold <= t, k >= 1, threshold >= 1;
    if k < l {
        assert(!repeats_at(text, 0, k, threshold)) by {
            if repeats_at(text, 0, k, threshold) {
                assert forall|rep: int, y: int| 1 <= rep < threshold && 0 <= y < k implies #[trigger] text[rep * k + y] == text[y] by {
                    assert(rep * k + k <= text.len() && rep * k >= 0) by (nonlinear_arith)
                        requires 1 <= rep < threshold, k >= 1, k * threshold <= l * t, text.len() == l * t;
                    assert(seg_matches(text, 0, 0 + rep * k, k));
                    assert(text.subrange(rep * k, rep * k + k)[y] == text.subrange(0, k)[y]);
                }
                assert(begins_with_copies(text, k, threshold));
            }
        }
        lemma_first_pattern_reaches(text, p, t, threshold, k + 1);
    } else {
        assert forall|rep: int| 1 <= rep < threshold implies #[trigger] seg_matches(text, 0, 0 + rep * l, l) by {
            lemma_copy_matches(text, p, t, rep);
            assert(rep * l == rep * p.len());
        }
        assert(repeats_at(text, 0, l, threshold));
    }
}

/// Text made of `t` back-to-back copies of a pattern `p` of two to twenty characters, with
/// `t` at least `threshold`, collapses to one copy of `p`, provided that no character occurs
/// more than `threshold` times in a row and that the text does not begin with `threshold`
/// copies of a shorter pattern.
pub proof fn lemma_repeated_pattern_collapses(text: Seq<char>, p: Seq<char>, t: int, threshold: int)
    requires
        2 <= p.len() <= 20,
        1 <= threshold <= t,
        text.len() == p.len() * t,
        forall|i: int| 0 <= i < text.len() ==> #[trigger] text[i] == p[i % (p.len() as int)],
        forall|j: int| 0 <= j < text.len() ==> #[trigger] run_end(text, j, j + 1) - j <= threshold,
        forall|k: int| 1 <= k < p.len() ==> !#[trigger] begins_with_copies(text, k, threshold),
    ensures
        fixed_repetitions(text, threshold) == p,
{
    let l = p.len() as int;
    lemma_short_runs_unchanged(text, threshold as nat);
    assert(text.len() >= 2 * threshold) by (nonlinear_arith)
        requires text.len() == l * t, l >= 2, t >= threshold;
    lemma_first_pattern_reaches(text, p, t, threshold, 1);
    lemma_repeat_end_whole(text, p, t, threshold);
    assert(text.len() >= l) by (nonlinear_arith)
        requires text.len() == l * t, l >= 2, t >= 1;
    assert(threshold * l == l * threshold) by (nonlinear_arith);
    let e = repeat_end(text, 0, l, 0 + threshold * l);
    assert(e == text.len());
    assert(pattern_fix(text.subrange(e, text.len() as int), threshold, 20) == text.subrange(e, text.len() as int));
    assert(text.subrange(e, text.len() as int) =~= Seq::<char>::empty());
    assert(text.subrange(0, l) =~= p) by {
        assert forall|y: int| 0 <= y < l implies text[y] == p[y] by {
            vstd::arithmetic::div_mod::lemma_small_mod(y as nat, l as nat);
        }
    }
    assert(pattern_scan(text, threshold, 20, 0) == text.subrange(0, l) + Seq::<char>::empty());
    assert(text.subrange(0, l) + Seq::<char>::empty() =~= p);
}


proof fn lemma_run_of_one_char(text: Seq<char>, j: int)
    requires
        text.len() >= 1,
        forall|i: int| 0 <= i < text.len() ==> #[trigger] text[i] == text[0],
        1 <= j <= text.len(),
    ensures
        run_end(text, 0, j) == text.len(),
    decreases text.len() - j,
{
    if j < text.len() {
        lemma_run_of_one_char(text, j + 1);
    }
}

/// A run of one character longer than `threshold`, standing alone, comes back as that single
/// character.
pub proof fn lemma_long_run_collapses(text: Seq<char>, threshold: int)
    requires
        1 <= threshold < text.len(),
        forall|i: int| 0 <= i < text.len() ==> #[trigger] text[i] == text[0],
    ensures
        fixed_repetitions(text, threshold) == seq![text[0]],
{
    lemma_run_of_one_char(text, 1);
    let t = threshold as nat;
    assert(char_fix_from(text, t, text.len() as int) == Seq::<char>::empty());
    assert(char_fix(text, t) =~= seq![text[0]]);
}

} // verus!
