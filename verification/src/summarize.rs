//! Splitting of long transcripts for summarization, and cleaning of the summarizer's output.
use vstd::prelude::*;

use crate::text::{
    chars_of, ends_with_char, find, find_chars_from, find_from, join, join_words, lemma_find_from,
    push_all, push_decimal, push_str_chars, split_words, string_from_chars, sub_chars, trim,
    trim_chars, words, decimal,
};

verus! {

/// Words of a chunk of the transcript, at most, before a sentence boundary is sought.
pub const CHUNK_WORDS: usize = 1800;

/// Tokens the summarizer may generate for one section.
pub const CHUNK_MAX_NEW_TOKENS: usize = 256;

/// Tokens the summarizer may generate when merging section summaries.
pub const MERGE_MAX_NEW_TOKENS: usize = 384;

/// The summarizer model used when none is named.
pub const DEFAULT_SUMMARIZER_MODEL: &'static str = "qwen3-0.6b";

/// A word that ends a sentence.
pub open spec fn ends_sentence(w: Seq<char>) -> bool {
    w.len() > 0 && (w.last() == '.' || w.last() == '?' || w.last() == '!')
}

/// Index of the last sentence-ending word of `ws[lo..hi]`.
pub open spec fn last_sentence_end(ws: Seq<Seq<char>>, lo: int, hi: int) -> Option<int>
    decreases hi - lo,
{
    if hi <= lo || lo < 0 || hi > ws.len() {
        None
    } else if ends_sentence(ws[hi - 1]) {
        Some(hi - 1)
    } else {
        last_sentence_end(ws, lo, hi - 1)
    }
}

/// End (exclusive) of the chunk that starts at word `start`: `m` words, or fewer when a
/// sentence ends in the last quarter of that window (the last such sentence is kept whole).
pub open spec fn chunk_end(ws: Seq<Seq<char>>, start: int, m: int) -> int {
    let end = if start + m < ws.len() { start + m } else { ws.len() as int };
    if end < ws.len() {
        match last_sentence_end(ws, start + (m * 3) / 4, end) {
            Some(j) => j + 1,
            None => end,
        }
    } else {
        end
    }
}

/// The groups of words that form the chunks of `ws[start..]`.
pub open spec fn chunk_groups(ws: Seq<Seq<char>>, start: int, m: int) -> Seq<Seq<Seq<char>>>
    decreases ws.len() - start,
{
    if start < 0 || start >= ws.len() || m < 1 {
        Seq::empty()
    } else {
        let e = chunk_end(ws, start, m);
        if e <= start || e > ws.len() {
            Seq::empty()
        } else {
            seq![ws.subrange(start, e)] + chunk_groups(ws, e, m)
        }
    }
}

/// The chunks of a transcript for summarization: nothing for blank text, the trimmed text
/// itself when it has at most `m` words, else the chunk groups joined with single spaces.
pub open spec fn transcript_chunks(text: Seq<char>, m: int) -> Seq<Seq<char>> {
    let t = trim(text);
    if t.len() == 0 {
        Seq::empty()
    } else if words(t).len() <= m {
        seq![t]
    } else {
        chunk_groups(words(t), 0, m).map_values(|g: Seq<Seq<char>>| join(g, seq![' ']))
    }
}

proof fn lemma_last_sentence_end(ws: Seq<Seq<char>>, lo: int, hi: int)
    ensures
        last_sentence_end(ws, lo, hi) matches Some(j) ==> lo <= j < hi && ends_sentence(ws[j])
            && forall|x: int| j < x < hi ==> !#[trigger] ends_sentence(ws[x]),
        0 <= lo && hi <= ws.len() && last_sentence_end(ws, lo, hi) is None ==> forall|x: int|
            lo <= x < hi ==> !#[trigger] ends_sentence(ws[x]),
    decreases hi - lo,
{
    if !(hi <= lo || lo < 0 || hi > ws.len()) && !ends_sentence(ws[hi - 1]) {
        lemma_last_sentence_end(ws, lo, hi - 1);
    }
}

proof fn lemma_chunk_end(ws: Seq<Seq<char>>, start: int, m: int)
    requires
        0 <= start < ws.len(),
        m >= 1,
    ensures
        start < chunk_end(ws, start, m) <= ws.len(),
        chunk_end(ws, start, m) <= start + m,
{
    let end = if start + m < ws.len() { start + m } else { ws.len() as int };
    assert((m * 3) / 4 <= m) by (nonlinear_arith)
        requires m >= 1;
    assert((m * 3) / 4 >= 0) by (nonlinear_arith)
        requires m >= 1;
    lemma_last_sentence_end(ws, start + (m * 3) / 4, end);
}

/// Index of the last sentence-ending word in `ws[lo..hi]`.
fn find_last_sentence_end(ws: &Vec<Vec<char>>, lo: usize, hi: usize) -> (r: Option<usize>)
    requires
        lo <= hi <= ws@.len(),
    ensures
        r matches Some(j) ==> last_sentence_end(ws@.map_values(|w: Vec<char>| w@), lo as int, hi as int)
            == Some(j as int),
        r is None ==> last_sentence_end(ws@.map_values(|w: Vec<char>| w@), lo as int, hi as int) is None,
{
    let ghost wsv = ws@.map_values(|w: Vec<char>| w@);
    let mut j = hi;
    while j > lo
        invariant
            lo <= j <= hi <= ws@.len(),
            wsv == ws@.map_values(|w: Vec<char>| w@),
            last_sentence_end(wsv, lo as int, j as int) == last_sentence_end(wsv, lo as int, hi as int),
        decreases j,
    {
        let w = &ws[j - 1];
        assert(wsv[j - 1] == w@);
        if ends_with_char(w.as_slice(), '.') || ends_with_char(w.as_slice(), '?') || ends_with_char(
            w.as_slice(),
            '!',
        ) {
            return Some(j - 1);
        }
        j -= 1;
    }
    None
}

/// Splits a transcript into chunks of at most `max_words` words for summarization, cutting
/// after the last sentence end in the final quarter of each window when there is one.
pub fn chunk_transcript(text: &str, max_words: usize) -> (res: Vec<String>)
    requires
        max_words >= 1,
    ensures
        res@.len() == transcript_chunks(text@, max_words as int).len(),
        forall|k: int|
            0 <= k < res@.len() ==> #[trigger] res@[k]@ == transcript_chunks(text@, max_words as int)[k],
{
    let all = chars_of(text);
    let t = trim_chars(all.as_slice());
    let ghost tv = t@;
    let mut res: Vec<String> = Vec::new();
    if t.len() == 0 {
        return res;
    }
    let ws = split_words(t.as_slice());
    let ghost wsv = words(tv);
    assert(ws@.map_values(|w: Vec<char>| w@) =~= wsv);
    let n = ws.len();
    if n <= max_words {
        res.push(string_from_chars(t.as_slice()));
        return res;
    }
    let quarter3 = ((max_words as u128) * 3 / 4) as usize;
    let ghost m = max_words as int;
    let mut start: usize = 0;
    while start < n
        invariant
            n == ws@.len(),
            n == wsv.len(),
            max_words >= 1,
            m == max_words as int,
            quarter3 == (m * 3) / 4,
            ws@.map_values(|w: Vec<char>| w@) == wsv,
            start <= n,
            res@.len() + chunk_groups(wsv, start as int, m).len() == chunk_groups(wsv, 0, m).len(),
            forall|k: int|
                0 <= k < res@.len() ==> #[trigger] res@[k]@ == join(chunk_groups(wsv, 0, m)[k], seq![' ']),
            forall|k: int|
                0 <= k < chunk_groups(wsv, start as int, m).len() ==> #[trigger] chunk_groups(wsv, start as int, m)[k]
                    == chunk_groups(wsv, 0, m)[res@.len() + k],
        decreases n - start,
    {
        proof {
            lemma_chunk_end(wsv, start as int, m);
            assert((m * 3) / 4 <= m) by (nonlinear_arith)
                requires m >= 1;
        }
        let mut end = if max_words < n - start { start + max_words } else { n };
        if end < n {
            let search_from = start + quarter3;
            match find_last_sentence_end(&ws, search_from, end) {
                Some(j) => {
                    end = j + 1;
                },
                None => {},
            }
        }
        assert(end == chunk_end(wsv, start as int, m));
        let joined = join_words(&ws, start, end);
        assert(ws@.subrange(start as int, end as int).map_values(|w: Vec<char>| w@) =~= wsv.subrange(
            start as int,
            end as int,
        ));
        let ghost rest = chunk_groups(wsv, start as int, m);
        assert(rest == seq![wsv.subrange(start as int, end as int)] + chunk_groups(wsv, end as int, m));
        assert(rest[0] == wsv.subrange(start as int, end as int));
        assert forall|k: int| 0 <= k < chunk_groups(wsv, end as int, m).len() implies #[trigger] chunk_groups(
            wsv,
            end as int,
            m,
        )[k] == chunk_groups(wsv, 0, m)[res@.len() + 1 + k] by {
            assert(chunk_groups(wsv, end as int, m)[k] == rest[k + 1]);
        }
        res.push(string_from_chars(joined.as_slice()));
        start = end;
    }
    res
}

/// The chunk word groups cover the words of `ws[start..]` in order, each with one to `m` words.
pub proof fn lemma_chunk_groups_partition(ws: Seq<Seq<char>>, start: int, m: int)
    requires
        0 <= start <= ws.len(),
        m >= 1,
    ensures
        chunk_groups(ws, start, m).flatten() == ws.subrange(start, ws.len() as int),
        forall|k: int|
            0 <= k < chunk_groups(ws, start, m).len() ==> 1 <= #[trigger] chunk_groups(ws, start, m)[k].len() <= m,
    decreases ws.len() - start,
{
    if start < ws.len() {
        lemma_chunk_end(ws, start, m);
        let e = chunk_end(ws, start, m);
        lemma_chunk_groups_partition(ws, e, m);
        let head = seq![ws.subrange(start, e)];
        let tail = chunk_groups(ws, e, m);
        vstd::seq_lib::lemma_flatten_concat(head, tail);
        assert(head.flatten() =~= ws.subrange(start, e)) by {
            assert(head.drop_first() =~= Seq::<Seq<Seq<char>>>::empty().drop_first() || head.drop_first().len() == 0);
            assert(head.drop_first().flatten() =~= Seq::<Seq<char>>::empty());
        }
        assert(ws.subrange(start, e) + ws.subrange(e, ws.len() as int) =~= ws.subrange(start, ws.len() as int));
        assert forall|k: int| 0 <= k < chunk_groups(ws, start, m).len() implies 1 <= #[trigger] chunk_groups(
            ws,
            start,
            m,
        )[k].len() <= m by {
            if k > 0 {
                assert(chunk_groups(ws, start, m)[k] == tail[k - 1]);
            }
        }
    } else {
        assert(ws.subrange(start, ws.len() as int) =~= Seq::<Seq<char>>::empty());
    }
}

/// A chunk that starts at word `start` (before the last word) ends at the window of `m`
/// words, clipped to the last word, unless a word in the final quarter of the window ends a
/// sentence and the window stops before the last word: then it ends just after the last such
/// word. The chunk is the words from `start` to that end.
pub proof fn lemma_chunk_cut_at_last_sentence_end(ws: Seq<Seq<char>>, start: int, m: int)
    requires
        0 <= start < ws.len(),
        m >= 1,
    ensures
        ({
            let end = if start + m < ws.len() { start + m } else { ws.len() as int };
            let from = start + (m * 3) / 4;
            let e = start + chunk_groups(ws, start, m)[0].len();
            &&& chunk_groups(ws, start, m).len() >= 1
            &&& start < e <= end
            &&& chunk_groups(ws, start, m)[0] == ws.subrange(start, e)
            &&& end == ws.len() ==> e == end
            &&& end < ws.len() && (exists|j: int| from <= j < end && #[trigger] ends_sentence(ws[j]))
                ==> from <= e - 1 && ends_sentence(ws[e - 1])
                    && forall|j: int| e - 1 < j < end ==> !#[trigger] ends_sentence(ws[j])
            &&& end < ws.len() && (forall|j: int| from <= j < end ==> !#[trigger] ends_sentence(ws[j]))
                ==> e == end
        }),
{
    let end = if start + m < ws.len() { start + m } else { ws.len() as int };
    let from = start + (m * 3) / 4;
    lemma_chunk_end(ws, start, m);
    assert((m * 3) / 4 <= m && (m * 3) / 4 >= 0) by (nonlinear_arith)
        requires m >= 1;
    lemma_last_sentence_end(ws, from, end);
    let e0 = chunk_end(ws, start, m);
    assert(chunk_groups(ws, start, m)[0] == ws.subrange(start, e0));
}

/// Every chunk of a long transcript is the single-space join of a group of its words; the
/// groups, in order, are exactly the transcript's words, each group holding one to `m` words.
pub proof fn lemma_transcript_chunks_lossless(text: Seq<char>, m: int)
    requires
        m >= 1,
        words(trim(text)).len() > m,
    ensures
        chunk_groups(words(trim(text)), 0, m).flatten() == words(trim(text)),
        transcript_chunks(text, m).len() == chunk_groups(words(trim(text)), 0, m).len(),
        forall|k: int|
            0 <= k < transcript_chunks(text, m).len() ==> #[trigger] transcript_chunks(text, m)[k] == join(
                chunk_groups(words(trim(text)), 0, m)[k],
                seq![' '],
            ),
{
    let ws = words(trim(text));
    lemma_chunk_groups_partition(ws, 0, m);
    assert(ws.subrange(0, ws.len() as int) == ws);
    if trim(text).len() == 0 {
        assert(words(trim(text)) =~= Seq::<Seq<char>>::empty());
    }
}


/// The opening tag of a reasoning block.
pub open spec fn think_open() -> Seq<char> {
    seq!['<', 't', 'h', 'i', 'n', 'k', '>']
}

/// The closing tag of a reasoning block.
pub open spec fn think_close() -> Seq<char> {
    seq!['<', '/', 't', 'h', 'i', 'n', 'k', '>']
}

/// `s` with its reasoning blocks removed: the first `<think>` and everything up to and
/// including the next `</think>` go, again and again; an unclosed block runs to the end.
pub open spec fn remove_think_blocks(s: Seq<char>) -> Seq<char>
    decreases s.len(),
{
    match find(s, think_open()) {
        None => s,
        Some(a) => match find_from(s, think_close(), a) {
            Some(p) => {
                if 0 <= a <= p && p + 8 <= s.len() {
                    remove_think_blocks(s.subrange(0, a) + s.subrange(p + 8, s.len() as int))
                } else {
                    s
                }
            },
            None => if 0 <= a <= s.len() {
                s.subrange(0, a)
            } else {
                s
            },
        },
    }
}

/// What `strip_think` returns.
pub open spec fn stripped_think(s: Seq<char>) -> Seq<char> {
    trim(remove_think_blocks(s))
}

/// Removes `<think>…</think>` reasoning blocks (and an unclosed trailing one) from model output,
/// then trims white space.
pub fn strip_think(text: &str) -> (res: String)
    ensures
        res@ == stripped_think(text@),
{
    let mut out = chars_of(text);
    let mut open: Vec<char> = Vec::new();
    push_str_chars(&mut open, "<think>");
    let mut close: Vec<char> = Vec::new();
    push_str_chars(&mut close, "</think>");
    proof {
        reveal_strlit("<think>");
        reveal_strlit("</think>");
        assert(open@ =~= think_open());
        assert(close@ =~= think_close());
    }
    loop
        invariant_except_break
            open@ == think_open(),
            close@ == think_close(),
            remove_think_blocks(out@) == remove_think_blocks(text@),
        ensures
            out@ == remove_think_blocks(text@),
        decreases out@.len(),
    {
        match find_chars_from(out.as_slice(), open.as_slice(), 0) {
            None => {
                break;
            },
            Some(a) => {
                proof {
                    lemma_find_from(out@, think_open(), 0);
                }
                match find_chars_from(out.as_slice(), close.as_slice(), a) {
                    Some(p) => {
                        proof {
                            lemma_find_from(out@, think_close(), a as int);
                        }
                        let n = out.len();
                        let mut next = sub_chars(out.as_slice(), 0, a);
                        let tail = sub_chars(out.as_slice(), p + 8, n);
                        push_all(&mut next, &tail);
                        out = next;
                    },
                    None => {
                        let cut = sub_chars(out.as_slice(), 0, a);
                        out = cut;
                        break;
                    },
                }
            },
        }
    }
    let t = trim_chars(out.as_slice());
    string_from_chars(t.as_slice())
}


/// `pat` occurs in `s` at `i`.
pub open spec fn occurs_at(s: Seq<char>, pat: Seq<char>, i: int) -> bool {
    0 <= i && i + pat.len() <= s.len() && s.subrange(i, i + pat.len()) == pat
}

proof fn lemma_find_from_none(s: Seq<char>, pat: Seq<char>, i: int, j: int)
    requires
        0 <= i <= j,
        find_from(s, pat, i) is None,
    ensures
        !occurs_at(s, pat, j),
    decreases s.len() + 1 - i,
{
    if i + pat.len() <= s.len() && i < j {
        lemma_find_from_none(s, pat, i + 1, j);
    }
}

proof fn lemma_find_from_first(s: Seq<char>, pat: Seq<char>, i: int, j: int)
    requires
        0 <= i <= j,
        find_from(s, pat, i) matches Some(a) && j < a,
    ensures
        !occurs_at(s, pat, j),
    decreases s.len() + 1 - i,
{
    if i < j {
        lemma_find_from_first(s, pat, i + 1, j);
    }
}

proof fn lemma_occurs_in_subrange(s: Seq<char>, pat: Seq<char>, lo: int, hi: int, j: int)
    requires
        0 <= lo <= hi <= s.len(),
        occurs_at(s.subrange(lo, hi), pat, j),
    ensures
        occurs_at(s, pat, lo + j),
{
    assert(s.subrange(lo + j, lo + j + pat.len()) =~= s.subrange(lo, hi).subrange(j, j + pat.len()));
}

proof fn lemma_removed_has_no_open(s: Seq<char>)
    ensures
        forall|j: int| !occurs_at(remove_think_blocks(s), think_open(), j),
    decreases s.len(),
{
    match find(s, think_open()) {
        None => {
            assert forall|j: int| !occurs_at(remove_think_blocks(s), think_open(), j) by {
                if j >= 0 {
                    lemma_find_from_none(s, think_open(), 0, j);
                }
            }
        },
        Some(a) => {
            lemma_find_from(s, think_open(), 0);
            match find_from(s, think_close(), a) {
                Some(p) => {
                    lemma_find_from(s, think_close(), a);
                    let next = s.subrange(0, a) + s.subrange(p + 8, s.len() as int);
                    assert(think_close().len() == 8);
                    assert(remove_think_blocks(s) == remove_think_blocks(next));
                    lemma_removed_has_no_open(next);
                },
                None => {
                    assert forall|j: int| !occurs_at(remove_think_blocks(s), think_open(), j) by {
                        if occurs_at(s.subrange(0, a), think_open(), j) {
                            lemma_occurs_in_subrange(s, think_open(), 0, a, j);
                            lemma_find_from_first(s, think_open(), 0, j);
                        }
                    }
                },
            }
        },
    }
}

/// What `strip_think` returns holds no `<think>` tag anywhere.
pub proof fn lemma_stripped_has_no_think_tag(s: Seq<char>)
    ensures
        forall|j: int| !occurs_at(stripped_think(s), think_open(), j),
{
    let r = remove_think_blocks(s);
    lemma_removed_has_no_open(s);
    crate::text::lemma_skip_ws(r, 0);
    crate::text::lemma_skip_ws_back(r, r.len() as int);
    let lo = crate::text::skip_ws(r, 0);
    let hi = crate::text::skip_ws_back(r, r.len() as int);
    assert forall|j: int| !occurs_at(stripped_think(s), think_open(), j) by {
        if lo < hi && occurs_at(r.subrange(lo, hi), think_open(), j) {
            lemma_occurs_in_subrange(r, think_open(), lo, hi, j);
        }
    }
}


/// The system instruction of the summarizer.
pub const SYSTEM_PROMPT: &'static str = "You summarize English speech transcripts. Be concise. Use short bullet points. Cover: what it is about, key points, decisions, and action items. Do not invent facts.";

/// The chat prompt that asks the summarizer to answer `user`.
pub open spec fn chat_prompt(user: Seq<char>) -> Seq<char> {
    "<|im_start|>system\n"@ + SYSTEM_PROMPT@ + "<|im_end|>\n<|im_start|>user\n"@ + user
        + "\n/no_think<|im_end|>\n<|im_start|>assistant\n"@
}

/// Wraps a user message in the summarizer's chat template (system prompt, no thinking).
pub fn build_prompt(user: &str) -> (res: String)
    ensures
        res@ == chat_prompt(user@),
{
    let mut out: Vec<char> = Vec::new();
    push_str_chars(&mut out, "<|im_start|>system\n");
    push_str_chars(&mut out, SYSTEM_PROMPT);
    push_str_chars(&mut out, "<|im_end|>\n<|im_start|>user\n");
    push_str_chars(&mut out, user);
    push_str_chars(&mut out, "\n/no_think<|im_end|>\n<|im_start|>assistant\n");
    string_from_chars(out.as_slice())
}

/// The request for section `i` (counted from zero) of `n` sections.
pub open spec fn section_request(i: int, n: int, chunk: Seq<char>) -> Seq<char> {
    if n == 1 {
        "Summarize this English transcript:\n\n"@ + chunk
    } else {
        "This is section "@ + decimal((i + 1) as nat) + " of "@ + decimal(n as nat)
            + " of a long English transcript. Summarize only this section:\n\n"@ + chunk
    }
}

/// The user message that asks for a summary of section `i` (from zero) of `n`.
pub fn section_user_prompt(i: usize, n: usize, chunk: &str) -> (res: String)
    requires
        i < n,
    ensures
        res@ == section_request(i as int, n as int, chunk@),
{
    let mut out: Vec<char> = Vec::new();
    if n == 1 {
        push_str_chars(&mut out, "Summarize this English transcript:\n\n");
        push_str_chars(&mut out, chunk);
    } else {
        push_str_chars(&mut out, "This is section ");
        push_decimal(&mut out, i + 1);
        push_str_chars(&mut out, " of ");
        push_decimal(&mut out, n);
        push_str_chars(&mut out, " of a long English transcript. Summarize only this section:\n\n");
        push_str_chars(&mut out, chunk);
    }
    string_from_chars(out.as_slice())
}

/// Progress report before section `i` (from zero) of `n`: the step, the number of steps (one
/// more when the section summaries are merged) and the message.
pub open spec fn section_progress(i: int, n: int) -> (int, int, Seq<char>) {
    (i, if n > 1 { n + 1 } else { n }, "Summarizing section "@ + decimal((i + 1) as nat) + " of "@
        + decimal(n as nat))
}

/// The progress report made before summarizing section `i` (from zero) of `n`.
pub fn section_progress_report(i: usize, n: usize) -> (res: (usize, usize, String))
    requires
        i < n < usize::MAX,
    ensures
        (res.0 as int, res.1 as int, res.2@) == section_progress(i as int, n as int),
{
    let mut out: Vec<char> = Vec::new();
    push_str_chars(&mut out, "Summarizing section ");
    push_decimal(&mut out, i + 1);
    push_str_chars(&mut out, " of ");
    push_decimal(&mut out, n);
    let total = if n > 1 { n + 1 } else { n };
    (i, total, string_from_chars(out.as_slice()))
}

/// The section summaries, each headed `Section <k>:`, separated by blank lines.
pub open spec fn sections_text(parts: Seq<Seq<char>>) -> Seq<char> {
    join(
        parts.map(|i: int, p: Seq<char>| "Section "@ + decimal((i + 1) as nat) + ":\n"@ + p),
        "\n\n"@,
    )
}

/// The request to merge section summaries into one.
pub open spec fn merge_request(parts: Seq<Seq<char>>) -> Seq<char> {
    "Combine these section summaries of a long English conversation into one concise summary with: overview, key points, decisions, action items.\n\n"@
        + sections_text(parts)
}

/// The user message that asks to merge the section summaries `parts`.
pub fn merge_user_prompt(parts: &Vec<String>) -> (res: String)
    requires
        parts@.len() < usize::MAX,
    ensures
        res@ == merge_request(parts@.map_values(|p: String| p@)),
{
    let ghost pv = parts@.map_values(|p: String| p@);
    let ghost heads = pv.map(|i: int, p: Seq<char>| "Section "@ + decimal((i + 1) as nat) + ":\n"@ + p);
    let mut out: Vec<char> = Vec::new();
    push_str_chars(
        &mut out,
        "Combine these section summaries of a long English conversation into one concise summary with: overview, key points, decisions, action items.\n\n",
    );
    let ghost prefix = out@;
    let mut k: usize = 0;
    while k < parts.len()
        invariant
            k <= parts@.len() < usize::MAX,
            pv == parts@.map_values(|p: String| p@),
            heads == pv.map(|i: int, p: Seq<char>| "Section "@ + decimal((i + 1) as nat) + ":\n"@ + p),
            out@ == prefix + join(heads.subrange(0, k as int), "\n\n"@),
        decreases parts@.len() - k,
    {
        let ghost before = out@;
        if k > 0 {
            push_str_chars(&mut out, "\n\n");
        }
        let ghost mid = out@;
        push_str_chars(&mut out, "Section ");
        push_decimal(&mut out, k + 1);
        push_str_chars(&mut out, ":\n");
        push_str_chars(&mut out, parts[k].as_str());
        assert(out@ == mid + heads[k as int]);
        let ghost next = heads.subrange(0, k + 1);
        assert(next.drop_last() =~= heads.subrange(0, k as int));
        if k > 0 {
            assert(out@ =~= prefix + (join(heads.subrange(0, k as int), "\n\n"@) + "\n\n"@ + heads[k as int]));
        } else {
            assert(out@ =~= prefix + heads[k as int]);
        }
        k += 1;
    }
    assert(heads.subrange(0, parts@.len() as int) == heads);
    string_from_chars(out.as_slice())
}

/// What to do once every section has been summarized.
pub enum SummaryStep {
    /// The summary is finished.
    Done(String),
    /// The section summaries must be merged: the model is given this prompt.
    Merge(String),
}

/// Adds the cleaned model output `raw` to the section summaries when anything is left of it.
pub fn keep_section_summary(parts: &mut Vec<String>, raw: &str)
    ensures
        stripped_think(raw@).len() == 0 ==> final(parts)@ == old(parts)@,
        stripped_think(raw@).len() > 0 ==> final(parts)@.len() == old(parts)@.len() + 1
            && final(parts)@.subrange(0, old(parts)@.len() as int) == old(parts)@
            && final(parts)@.last()@ == stripped_think(raw@),
{
    let part = strip_think(raw);
    let cs = chars_of(part.as_str());
    if cs.len() > 0 {
        parts.push(part);
        assert(parts@.subrange(0, old(parts)@.len() as int) =~= old(parts)@);
    }
}

/// Finishes a summary from the non-empty section summaries: none gives an empty summary, one
/// is the summary, more are merged by the model with the returned prompt.
pub fn finish_summary(parts: &Vec<String>) -> (res: SummaryStep)
    requires
        parts@.len() < usize::MAX,
    ensures
        parts@.len() == 0 ==> (res matches SummaryStep::Done(s) && s@.len() == 0),
        parts@.len() == 1 ==> (res matches SummaryStep::Done(s) && s@ == parts@[0]@),
        parts@.len() > 1 ==> (res matches SummaryStep::Merge(p) && p@ == chat_prompt(
            merge_request(parts@.map_values(|p: String| p@)),
        )),
{
    if parts.len() == 0 {
        SummaryStep::Done(String::new())
    } else if parts.len() == 1 {
        SummaryStep::Done(parts[0].clone())
    } else {
        let user = merge_user_prompt(parts);
        SummaryStep::Merge(build_prompt(user.as_str()))
    }
}

/// The tokens that end a completion: Qwen's `<|endoftext|>` and `<|im_end|>` ids, then the
/// ids the tokenizer gives those two tokens, when it has them.
pub fn completion_stop_ids(endoftext: Option<usize>, im_end: Option<usize>) -> (v: Vec<usize>)
    ensures
        v@ == seq![151_643usize, 151_645usize]
            + (match endoftext { Some(e) => seq![e], None => Seq::empty() })
            + (match im_end { Some(e) => seq![e], None => Seq::empty() }),
{
    let mut v: Vec<usize> = Vec::new();
    v.push(151_643);
    v.push(151_645);
    if let Some(e) = endoftext {
        v.push(e);
    }
    if let Some(e) = im_end {
        v.push(e);
    }
    assert(v@ =~= seq![151_643usize, 151_645usize]
        + (match endoftext { Some(e) => seq![e], None => Seq::empty() })
        + (match im_end { Some(e) => seq![e], None => Seq::empty() }));
    v
}

} // verus!
