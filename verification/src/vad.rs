//! Voice-activity post-processing: the runs of speech frames that a frame-wise speech
//! probability gives, with hysteresis. The caller compares the probabilities with the onset
//! and offset thresholds and counts how many frames of silence end a run; padding, merging and
//! the conversion to seconds stay with the caller.
use vstd::prelude::*;

verus! {

/// The runs of speech in frames `i..` of a scan whose open run started at `start` and whose
/// last speech frame so far is `last`: a frame is speech when it reaches the onset threshold
/// outside a run, or the offset threshold inside one; a run ends at its last speech frame once
/// `k` frames have passed since it, and a run still open at the end reaches the end.
pub open spec fn runs_from(on: Seq<bool>, off: Seq<bool>, k: nat, i: int, start: Option<int>, last: int) -> Seq<(int, int)>
    decreases on.len() - i,
{
    if i < 0 || i >= on.len() {
        match start {
            Some(s) => seq![(s, on.len() as int)],
            None => Seq::empty(),
        }
    } else {
        let speaking = match start {
            None => on[i],
            Some(_) => off[i],
        };
        if speaking {
            runs_from(on, off, k, i + 1, if start is None { Some(i) } else { start }, i)
        } else {
            match start {
                Some(s) => if i - last >= k {
                    seq![(s, last + 1)] + runs_from(on, off, k, i + 1, None, last)
                } else {
                    runs_from(on, off, k, i + 1, start, last)
                },
                None => runs_from(on, off, k, i + 1, None, last),
            }
        }
    }
}

/// The runs of speech of a whole scan, as `(first frame, end frame)`.
pub open spec fn speech_runs_spec(on: Seq<bool>, off: Seq<bool>, k: nat) -> Seq<(int, int)> {
    runs_from(on, off, k, 0, None, 0)
}

/// The runs `r` are non-empty, lie in `[lo, n]`, and each ends before the next starts.
pub open spec fn ordered_runs(r: Seq<(int, int)>, lo: int, n: int) -> bool {
    &&& forall|j: int| 0 <= j < r.len() ==> lo <= #[trigger] r[j].0 < r[j].1 <= n
    &&& forall|j: int| 0 <= j < r.len() - 1 ==> #[trigger] r[j].1 < r[j + 1].0
}

/// `r` as pairs of integers.
pub open spec fn as_int_pairs(r: Seq<(usize, usize)>) -> Seq<(int, int)> {
    r.map_values(|p: (usize, usize)| (p.0 as int, p.1 as int))
}

proof fn lemma_runs_from_ordered(on: Seq<bool>, off: Seq<bool>, k: nat, i: int, start: Option<int>, last: int, lo: int)
    requires
        0 <= i <= on.len(),
        start matches Some(s) ==> lo <= s <= last < i,
        start is None ==> lo <= i,
    ensures
        ordered_runs(runs_from(on, off, k, i, start, last), lo, on.len() as int),
    decreases on.len() - i,
{
    let n = on.len() as int;
    if i >= n {
    } else {
        let speaking = match start {
            None => on[i],
            Some(_) => off[i],
        };
        if speaking {
            let st = if start is None { Some(i) } else { start };
            lemma_runs_from_ordered(on, off, k, i + 1, st, i, lo);
        } else {
            match start {
                Some(s) => {
                    if i - last >= k {
                        let rest = runs_from(on, off, k, i + 1, None, last);
                        lemma_runs_from_ordered(on, off, k, i + 1, None, last, i + 1);
                        let r = seq![(s, last + 1)] + rest;
                        assert forall|j: int| 0 <= j < r.len() implies lo <= #[trigger] r[j].0 < r[j].1 <= n by {
                            if j > 0 {
                                assert(r[j] == rest[j - 1]);
                            }
                        }
                        assert forall|j: int| 0 <= j < r.len() - 1 implies #[trigger] r[j].1 < r[j + 1].0 by {
                            assert(r[j + 1] == rest[j]);
                            if j > 0 {
                                assert(r[j] == rest[j - 1]);
                            }
                        }
                    } else {
                        lemma_runs_from_ordered(on, off, k, i + 1, start, last, lo);
                    }
                },
                None => {
                    lemma_runs_from_ordered(on, off, k, i + 1, None, last, lo);
                },
            }
        }
    }
}

/// The runs of speech are non-empty, lie within the scan, and come in order with a gap
/// between one and the next.
pub proof fn lemma_speech_runs_ordered(on: Seq<bool>, off: Seq<bool>, k: nat)
    ensures
        ordered_runs(speech_runs_spec(on, off, k), 0, on.len() as int),
{
    lemma_runs_from_ordered(on, off, k, 0, None, 0, 0);
}

/// The runs of speech of a scan: `onset[i]` tells whether the probability of frame `i`
/// reaches the onset threshold, `offset[i]` whether it reaches the offset threshold, and
/// `min_silence_frames` frames after the last speech frame end a run.
pub fn speech_runs(onset: &[bool], offset: &[bool], min_silence_frames: usize) -> (r: Vec<(usize, usize)>)
    requires
        onset@.len() == offset@.len(),
    ensures
        as_int_pairs(r@) == speech_runs_spec(onset@, offset@, min_silence_frames as nat),
        ordered_runs(as_int_pairs(r@), 0, onset@.len() as int),
{
    let n = onset.len();
    let mut out: Vec<(usize, usize)> = Vec::new();
    let mut start: Option<usize> = None;
    let mut last: usize = 0;
    let mut i: usize = 0;
    let ghost k = min_silence_frames as nat;
    while i < n
        invariant
            n == onset@.len(),
            onset@.len() == offset@.len(),
            k == min_silence_frames as nat,
            i <= n,
            last <= i,
            start matches Some(s) ==> s <= last < i,
            as_int_pairs(out@) + runs_from(onset@, offset@, k, i as int,
                match start { Some(s) => Some(s as int), None => None }, last as int)
                == speech_runs_spec(onset@, offset@, k),
        decreases n - i,
    {
        let ghost before = as_int_pairs(out@);
        let ghost st0: Option<int> = match start { Some(s) => Some(s as int), None => None };
        let ghost last0 = last as int;
        let ghost cur = runs_from(onset@, offset@, k, i as int, st0, last0);
        let speaking = match start {
            None => onset[i],
            Some(_) => offset[i],
        };
        if speaking {
            last = i;
            if start.is_none() {
                start = Some(i);
            }
            assert(cur == runs_from(onset@, offset@, k, i + 1,
                match start { Some(s) => Some(s as int), None => None }, last as int));
        } else if let Some(s) = start {
            if i - last >= min_silence_frames {
                out.push((s, last + 1));
                assert(as_int_pairs(out@) =~= before.push((s as int, last + 1)));
                let ghost rest = runs_from(onset@, offset@, k, i + 1, None, last as int);
                assert(cur == seq![(s as int, last + 1)] + rest);
                assert(as_int_pairs(out@) + rest =~= before + (seq![(s as int, last + 1)] + rest));
                start = None;
            } else {
                assert(cur == runs_from(onset@, offset@, k, i + 1, st0, last0));
            }
        } else {
            assert(cur == runs_from(onset@, offset@, k, i + 1, None, last0));
        }
        i += 1;
    }
    let ghost end_runs = runs_from(onset@, offset@, k, n as int,
        match start { Some(s) => Some(s as int), None => None }, last as int);
    if let Some(s) = start {
        let ghost before = as_int_pairs(out@);
        out.push((s, n));
        assert(as_int_pairs(out@) =~= before + end_runs);
    } else {
        assert(as_int_pairs(out@) =~= as_int_pairs(out@) + end_runs);
    }
    proof {
        lemma_speech_runs_ordered(onset@, offset@, k);
    }
    out
}

} // verus!
