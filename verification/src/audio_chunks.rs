//! Splitting long audio for Qwen3-ASR into chunks at quiet boundaries, without losing or
//! repeating a sample: the cursor below decides where each chunk may end; the caller finds the
//! quietest point of a search window (a computation on the samples) and hands it back.
use vstd::prelude::*;

verus! {

/// The sample ranges `r` cover `[0, upto)` in order, each range starting where the previous
/// one ended.
pub open spec fn contiguous(r: Seq<(usize, usize)>, upto: int) -> bool {
    &&& r.len() == 0 ==> upto == 0
    &&& r.len() > 0 ==> r[0].0 == 0 && r.last().1 == upto
    &&& forall|i: int| 0 <= i < r.len() ==> r[i].0 <= r[i].1
    &&& forall|i: int| 0 <= i < r.len() - 1 ==> #[trigger] r[i].1 == r[i + 1].0
}

/// What the cursor asks for next.
#[derive(Clone, Copy, Debug, PartialEq, Eq, Structural)]
pub enum ChunkStep {
    /// What is left fits in one chunk: finish.
    Done,
    /// The search window is too small: cut at this sample.
    Cut(usize),
    /// Find the quietest point of `[left, right)` and hand it to `advance_found`.
    Search { left: usize, right: usize },
}

/// Where the chunks of `total_len` samples end, so far. Chunks are at most `max_len` samples
/// long before the search, whose window reaches `expand` samples to each side of the cut; a
/// window of `win` samples or less is not searched.
pub struct ChunkCursor {
    total_len: usize,
    max_len: usize,
    expand: usize,
    win: usize,
    start: usize,
    ranges: Vec<(usize, usize)>,
}

impl ChunkCursor {
    /// The cursor is consistent: its position is within the audio, the sums it forms fit in a
    /// `usize`, and its chunks cover the samples before its position.
    pub closed spec fn wf(self) -> bool {
        &&& self.start <= self.total_len
        &&& self.max_len >= 1
        &&& self.win >= 4
        &&& contiguous(self.ranges@, self.start as int)
    }

    /// Samples already assigned to chunks.
    pub closed spec fn position(self) -> nat {
        self.start as nat
    }

    /// The chunks found so far, as sample ranges.
    pub closed spec fn chunks(self) -> Seq<(usize, usize)> {
        self.ranges@
    }

    /// The length of the audio.
    pub closed spec fn total(self) -> nat {
        self.total_len as nat
    }

    /// The longest chunk before the search.
    pub closed spec fn max_chunk(self) -> nat {
        self.max_len as nat
    }

    /// How far the search window reaches to each side of the cut.
    pub closed spec fn reach(self) -> nat {
        self.expand as nat
    }

    /// The longest window that is not searched.
    pub closed spec fn window(self) -> nat {
        self.win as nat
    }

    /// The next step can be worked out without overflow: when a cut is due, the cut plus the
    /// reach of the search, and the start of the window plus the window of the search, fit in
    /// a `usize`.
    pub closed spec fn step_fits(self) -> bool {
        let cut = self.start + self.max_len;
        let left = if cut >= self.expand && cut - self.expand > self.start { cut - self.expand } else { self.start as int };
        self.total_len - self.start > self.max_len ==> cut + self.expand <= usize::MAX && left + self.win <= usize::MAX
    }

    /// The step the cursor asks for at `start`.
    pub closed spec fn spec_step(self) -> ChunkStep {
        if self.total_len - self.start <= self.max_len {
            ChunkStep::Done
        } else {
            let cut = self.start + self.max_len;
            let left = if cut >= self.expand && cut - self.expand > self.start { cut - self.expand } else { self.start as int };
            let right = if cut + self.expand < self.total_len { cut + self.expand } else { self.total_len as int };
            if right <= left + self.win {
                ChunkStep::Cut(cut as usize)
            } else {
                ChunkStep::Search { left: left as usize, right: right as usize }
            }
        }
    }

    /// A cursor at the start of `total_len` samples; windows shorter than four samples are
    /// widened to four. Chunks must be allowed at least one sample: with none, a window too
    /// small to search would cut an empty chunk at the start again and again.
    pub fn new(total_len: usize, max_len: usize, expand: usize, win: usize) -> (c: Self)
        requires
            max_len >= 1,
        ensures
            c.wf(),
            c.position() == 0,
            c.chunks().len() == 0,
            c.total() == total_len,
            c.max_chunk() == max_len,
            c.reach() == expand,
            c.window() == (if win > 4 { win } else { 4 }),
    {
        let win = if win > 4 { win } else { 4 };
        ChunkCursor { total_len, max_len, expand, win, start: 0, ranges: Vec::new() }
    }

    /// Whether the next step can be worked out without overflow.
    pub fn can_step(&self) -> (r: bool)
        requires
            self.wf(),
        ensures
            r == self.step_fits(),
    {
        if self.total_len - self.start <= self.max_len {
            return true;
        }
        let cut = self.start + self.max_len;
        if cut > usize::MAX - self.expand {
            return false;
        }
        let left = if cut >= self.expand && cut - self.expand > self.start { cut - self.expand } else { self.start };
        left <= usize::MAX - self.win
    }

    /// The next step: done when what is left fits in a chunk; else the cut `max_len` after
    /// the start, and the window of `expand` samples around it, clipped to the start and the
    /// end, which is searched when it is longer than the window of the search.
    pub fn step(&self) -> (s: ChunkStep)
        requires
            self.wf(),
            self.step_fits(),
        ensures
            s == self.spec_step(),
            s matches ChunkStep::Cut(c) ==> self.position() < c < self.total(),
            s matches ChunkStep::Search { left, right } ==> self.position() <= left < right <= self.total(),
    {
        if self.total_len - self.start <= self.max_len {
            ChunkStep::Done
        } else {
            let cut = self.start + self.max_len;
            let left = if cut >= self.expand && cut - self.expand > self.start { cut - self.expand } else { self.start };
            let right = if cut + self.expand < self.total_len { cut + self.expand } else { self.total_len };
            if right <= left + self.win {
                ChunkStep::Cut(cut)
            } else {
                ChunkStep::Search { left, right }
            }
        }
    }

    /// The step asks to finish exactly when what is left fits in one chunk. Otherwise the cut
    /// lies `max_chunk` samples past the position, and the window around it reaches `reach`
    /// samples to each side, clipped to the position on the left and to the end of the audio
    /// on the right; it is searched when it is longer than `window`, else the chunk ends at
    /// the cut.
    pub proof fn lemma_step_window(self)
        requires
            self.wf(),
        ensures
            ({
                let p = self.position() as int;
                let cut = p + self.max_chunk();
                let left = if cut - self.reach() > p { cut - self.reach() } else { p };
                let right = if cut + self.reach() < self.total() { cut + self.reach() } else { self.total() as int };
                &&& (self.spec_step() is Done <==> self.total() - p <= self.max_chunk())
                &&& (self.spec_step() is Cut <==> self.total() - p > self.max_chunk() && right - left <= self.window())
                &&& self.spec_step() matches ChunkStep::Cut(c) ==> c == cut
                &&& self.spec_step() matches ChunkStep::Search { left: l, right: r } ==> l == left && r == right
                    && r - l > self.window()
            }),
    {
    }

    fn push_chunk(&mut self, boundary: usize)
        requires
            old(self).wf(),
            old(self).start < boundary <= old(self).total_len,
        ensures
            final(self).wf(),
            final(self).start == boundary,
            final(self).ranges@ == old(self).ranges@.push((old(self).start, boundary)),
            final(self).total_len == old(self).total_len,
            final(self).max_len == old(self).max_len,
            final(self).expand == old(self).expand,
            final(self).win == old(self).win,
    {
        let s = self.start;
        self.ranges.push((s, boundary));
        self.start = boundary;
        let ghost r = self.ranges@;
        assert(contiguous(r, boundary as int)) by {
            assert forall|i: int| 0 <= i < r.len() - 1 implies #[trigger] r[i].1 == r[i + 1].0 by {
                if i == r.len() - 2 {
                    assert(r[i] == old(self).ranges@.last());
                }
            }
        }
    }

    /// Ends the current chunk at the cut, when the window was too small to search.
    pub fn advance_cut(&mut self)
        requires
            old(self).wf(),
            old(self).spec_step() is Cut,
        ensures
            final(self).wf(),
            final(self).total() == old(self).total(),
            old(self).spec_step() matches ChunkStep::Cut(c) && final(self).position() == c
                && final(self).chunks() == old(self).chunks().push((old(self).position() as usize, c)),
            final(self).position() > old(self).position(),
    {
        let cut = self.start + self.max_len;
        self.push_chunk(cut);
    }

    /// Ends the current chunk at `found`, the quietest point the caller found in the search
    /// window, moved to at least one sample past the start and at most to the end.
    pub fn advance_found(&mut self, found: usize)
        requires
            old(self).wf(),
            old(self).spec_step() is Search,
        ensures
            final(self).wf(),
            final(self).total() == old(self).total(),
            final(self).position() == (if found < old(self).position() + 1 {
                old(self).position() + 1
            } else if found > old(self).total() {
                old(self).total()
            } else {
                found as nat
            }),
            final(self).chunks() == old(self).chunks().push((old(self).position() as usize, final(self).position() as usize)),
            final(self).position() > old(self).position(),
    {
        let lo = self.start + 1;
        let b = if found < lo { lo } else { found };
        let b = if b > self.total_len { self.total_len } else { b };
        self.push_chunk(b);
    }

    /// The chunks, once the step is `Done`: the ranges found, then the tail up to the end.
    /// They cover every sample once, in order.
    pub fn finish(self) -> (r: Vec<(usize, usize)>)
        requires
            self.wf(),
            self.spec_step() is Done,
        ensures
            r@ == self.chunks().push((self.position() as usize, self.total() as usize)),
            contiguous(r@, self.total() as int),
            r@.len() >= 1,
    {
        let s = self.start;
        let t = self.total_len;
        let mut ranges = self.ranges;
        let ghost old_r = ranges@;
        ranges.push((s, t));
        let ghost r = ranges@;
        assert(contiguous(r, t as int)) by {
            assert forall|i: int| 0 <= i < r.len() - 1 implies #[trigger] r[i].1 == r[i + 1].0 by {
                if i == r.len() - 2 {
                    assert(r[i] == old_r.last());
                }
            }
        }
        ranges
    }
}

/// The length of a chunk after padding with silence to at least `min_len` samples.
pub fn padded_len(len: usize, min_len: usize) -> (r: usize)
    ensures
        r == if len < min_len { min_len } else { len },
{
    if len < min_len { min_len } else { len }
}

} // verus!
