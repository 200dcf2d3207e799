//! The block bookkeeping of the FIR decimator: where each output window
//! starts in the history-extended block, the offset carried to the next
//! block, and the history kept between blocks. The multiply-accumulate over
//! each window belongs to the sample code.
use vstd::prelude::*;

verus! {

/// The starts `pending, pending + d, ...` of the windows of `taps` samples
/// that fit in `total` samples.
pub open spec fn window_starts(pending: int, total: int, taps: int, d: int) -> Seq<int>
    decreases total + d - pending,
{
    if d >= 1 && pending >= 0 && taps >= 0 && pending + taps <= total {
        seq![pending] + window_starts(pending + d, total, taps, d)
    } else {
        seq![]
    }
}

/// The first start past the last window that fits.
pub open spec fn next_start(pending: int, total: int, taps: int, d: int) -> int
    decreases total + d - pending,
{
    if d >= 1 && pending >= 0 && taps >= 0 && pending + taps <= total {
        next_start(pending + d, total, taps, d)
    } else {
        pending
    }
}

/// The history kept for the next block: the last `h.len()` samples of the
/// history followed by the block.
pub open spec fn shifted_history<T>(h: Seq<T>, input: Seq<T>) -> Seq<T> {
    (h + input).subrange(input.len() as int, (h.len() + input.len()) as int)
}

/// What one block produces.
#[derive(Clone, Debug, PartialEq, Eq)]
pub enum DecimationPlan {
    /// A factor of at most one: the block passes through unchanged.
    PassThrough,
    /// Output windows start at these positions of history followed by block.
    Windows(Vec<usize>),
}

/// The position of a decimating FIR filter in its input stream.
#[derive(Clone, Copy, Debug, PartialEq, Eq)]
pub struct DecimationSchedule {
    pub num_taps: usize,
    pub hist_len: usize,
    pub decimation_factor: usize,
    pub pending_offset: usize,
}

impl DecimationSchedule {
    /// A filter of `num_taps` taps that keeps every `decimation_factor`-th
    /// output, with a history of `num_taps - 1` samples.
    pub fn new(num_taps: usize, decimation_factor: usize) -> (r: Self)
        ensures
            r.num_taps == num_taps,
            r.hist_len == (if num_taps > 0 {
                num_taps - 1
            } else {
                0
            }),
            r.decimation_factor == decimation_factor,
            r.pending_offset == 0,
    {
        let hist_len = if num_taps > 0 {
            num_taps - 1
        } else {
            0
        };
        DecimationSchedule { num_taps, hist_len, decimation_factor, pending_offset: 0 }
    }

    /// Back to the start of a stream.
    pub fn reset(&mut self)
        ensures
            *final(self) == (DecimationSchedule { pending_offset: 0, ..*old(self) }),
    {
        self.pending_offset = 0;
    }

    /// Plans one block of `input_len` samples. With a factor of at most one
    /// the block passes through. Otherwise output windows start at the
    /// carried offset and every `decimation_factor` samples after it, while
    /// a whole window fits in history and block; the first start that does
    /// not fit, less the block length, is carried to the next block.
    pub fn plan_block(&mut self, input_len: usize) -> (r: DecimationPlan)
        requires
            old(self).hist_len + input_len + old(self).num_taps + old(self).decimation_factor
                + old(self).pending_offset <= usize::MAX,
        ensures
            old(self).decimation_factor <= 1 ==> r == DecimationPlan::PassThrough && *final(self)
                == *old(self),
            old(self).decimation_factor > 1 ==> {
                let total = old(self).hist_len + input_len;
                let p = old(self).pending_offset as int;
                let n = old(self).num_taps as int;
                let d = old(self).decimation_factor as int;
                let nx = next_start(p, total, n, d);
                &&& r matches DecimationPlan::Windows(w) && w@.map_values(|x: usize| x as int)
                    == window_starts(p, total, n, d)
                &&& final(self).pending_offset == (if nx >= input_len {
                    nx - input_len
                } else {
                    0
                })
                &&& final(self).num_taps == old(self).num_taps
                &&& final(self).hist_len == old(self).hist_len
                &&& final(self).decimation_factor == old(self).decimation_factor
            },
    {
        if self.decimation_factor <= 1 {
            return DecimationPlan::PassThrough;
        }
        let total = self.hist_len + input_len;
        let n = self.num_taps;
        let d = self.decimation_factor;
        let ghost p0 = self.pending_offset as int;
        let mut idx = self.pending_offset;
        let mut starts: Vec<usize> = Vec::new();
        while idx + n <= total
            invariant
                d > 1,
                total + n + d <= usize::MAX,
                idx + n <= usize::MAX,
                starts@.map_values(|x: usize| x as int) + window_starts(idx as int, total as int, n as int, d as int)
                    == window_starts(p0, total as int, n as int, d as int),
                next_start(idx as int, total as int, n as int, d as int) == next_start(
                    p0,
                    total as int,
                    n as int,
                    d as int,
                ),
            decreases total + d - idx,
        {
            let ghost before = starts@;
            starts.push(idx);
            assert(starts@.map_values(|x: usize| x as int) =~= before.map_values(|x: usize| x as int).push(idx as int));
            idx = idx + d;
        }
        assert(window_starts(idx as int, total as int, n as int, d as int) =~= Seq::<int>::empty());
        assert(starts@.map_values(|x: usize| x as int) + Seq::<int>::empty() =~= starts@.map_values(|x: usize| x as int));
        self.pending_offset = if idx >= input_len {
            idx - input_len
        } else {
            0
        };
        DecimationPlan::Windows(starts)
    }
}

/// Keeps the last `history.len()` samples of the history followed by the
/// block.
pub fn shift_history<T: Copy>(history: &mut Vec<T>, input: &[T])
    ensures
        final(history)@ == shifted_history(old(history)@, input@),
{
    let h = history.len();
    let ghost all = old(history)@ + input@;
    if input.len() >= h {
        let start = input.len() - h;
        let mut k: usize = 0;
        while k < h
            invariant
                k <= h,
                h == history@.len(),
                start + h == input.len(),
                all == old(history)@ + input@,
                h == old(history)@.len(),
                forall|j: int| 0 <= j < k ==> history@[j] == input@[start + j],
            decreases h - k,
        {
            history.set(k, input[start + k]);
            k = k + 1;
        }
        assert(history@ =~= shifted_history(old(history)@, input@));
    } else {
        let shift = h - input.len();
        let mut k: usize = 0;
        while k < shift
            invariant
                k <= shift,
                shift + input@.len() == h,
                h == history@.len(),
                h == old(history)@.len(),
                forall|j: int| 0 <= j < k ==> history@[j] == old(history)@[j + input@.len()],
                forall|j: int| k <= j < h ==> history@[j] == old(history)@[j],
            decreases shift - k,
        {
            let v = history[k + input.len()];
            history.set(k, v);
            k = k + 1;
        }
        let mut q: usize = 0;
        while q < input.len()
            invariant
                q <= input@.len(),
                shift + input@.len() == h,
                h == history@.len(),
                h == old(history)@.len(),
                forall|j: int| 0 <= j < shift ==> history@[j] == old(history)@[j + input@.len()],
                forall|j: int| 0 <= j < q ==> history@[shift + j] == input@[j],
            decreases input.len() - q,
        {
            history.set(shift + q, input[q]);
            q = q + 1;
        }
        assert(history@ =~= shifted_history(old(history)@, input@));
    }
}

proof fn lemma_window_starts_translate(p: int, t: int, n: int, d: int, a: int)
    requires
        p >= 0,
        a >= 0,
        n >= 0,
        d >= 1,
    ensures
        window_starts(p + a, t + a, n, d) == window_starts(p, t, n, d).map_values(|x: int| x + a),
        next_start(p + a, t + a, n, d) == next_start(p, t, n, d) + a,
    decreases t + d - p,
{
    if p + n <= t {
        lemma_window_starts_translate(p + d, t, n, d, a);
        assert(window_starts(p + a, t + a, n, d) =~= window_starts(p, t, n, d).map_values(
            |x: int| x + a,
        ));
    } else {
        assert(window_starts(p, t, n, d).map_values(|x: int| x + a) =~= Seq::<int>::empty());
    }
}

proof fn lemma_next_start_past_end(q: int, t: int, n: int, d: int)
    requires
        q >= 0,
        n >= 0,
        d >= 1,
    ensures
        next_start(q, t, n, d) + n > t,
        next_start(q, t, n, d) >= q,
    decreases t + d - q,
{
    if q + n <= t {
        lemma_next_start_past_end(q + d, t, n, d);
    }
}

proof fn lemma_window_starts_split(q: int, h: int, a: int, b: int, n: int, d: int)
    requires
        q >= 0,
        h >= 0,
        a >= 0,
        b >= 0,
        n >= 0,
        d >= 1,
        next_start(q, h + a, n, d) >= a,
    ensures
        window_starts(q, h + a + b, n, d) == window_starts(q, h + a, n, d) + window_starts(
            next_start(q, h + a, n, d) - a,
            h + b,
            n,
            d,
        ).map_values(|x: int| x + a),
        next_start(q, h + a + b, n, d) == next_start(next_start(q, h + a, n, d) - a, h + b, n, d)
            + a,
    decreases h + a + d - q,
{
    if q + n <= h + a {
        lemma_window_starts_split(q + d, h, a, b, n, d);
        assert(window_starts(q, h + a + b, n, d) =~= window_starts(q, h + a, n, d)
            + window_starts(next_start(q, h + a, n, d) - a, h + b, n, d).map_values(
            |x: int| x + a,
        ));
    } else {
        lemma_window_starts_translate(q - a, h + b, n, d, a);
        assert(window_starts(q, h + a, n, d) =~= Seq::<int>::empty());
        assert(window_starts(q, h + a + b, n, d) =~= window_starts(q, h + a, n, d)
            + window_starts(next_start(q, h + a, n, d) - a, h + b, n, d).map_values(
            |x: int| x + a,
        ));
    }
}

/// Splitting a stream into blocks does not move the output windows: the
/// windows of a first block of `a` samples, followed by those of a second
/// block of `b` samples planned from the carried offset (shifted by `a`
/// into stream positions), are the windows of one block of `a + b` samples.
/// The offset carried out of the second block is the one carried out of
/// the single block. This holds when the history spans at least `taps - 1`
/// samples, as it does for a schedule made by `DecimationSchedule::new`.
pub proof fn law_decimation_stream_continuity(
    pending: int,
    hist_len: int,
    a: int,
    b: int,
    taps: int,
    d: int,
)
    requires
        pending >= 0,
        hist_len >= 0,
        hist_len + 1 >= taps,
        a >= 0,
        b >= 0,
        taps >= 0,
        d >= 1,
    ensures
        ({
            let nx = next_start(pending, hist_len + a, taps, d);
            let carried = if nx >= a {
                nx - a
            } else {
                0
            };
            window_starts(pending, hist_len + a, taps, d) + window_starts(
                carried,
                hist_len + b,
                taps,
                d,
            ).map_values(|x: int| x + a) == window_starts(pending, hist_len + a + b, taps, d)
        }),
        ({
            let nx = next_start(pending, hist_len + a, taps, d);
            let carried = if nx >= a {
                nx - a
            } else {
                0
            };
            let nx2 = next_start(carried, hist_len + b, taps, d);
            let nx_whole = next_start(pending, hist_len + a + b, taps, d);
            (if nx2 >= b {
                nx2 - b
            } else {
                0
            }) == (if nx_whole >= a + b {
                nx_whole - (a + b)
            } else {
                0
            })
        }),
{
    lemma_next_start_past_end(pending, hist_len + a, taps, d);
    lemma_window_starts_split(pending, hist_len, a, b, taps, d);
    let nx = next_start(pending, hist_len + a, taps, d);
    lemma_next_start_past_end(nx - a, hist_len + b, taps, d);
}

/// Keeping history block by block keeps the same samples as keeping it
/// over the two blocks at once.
pub proof fn law_history_continuity<T>(h: Seq<T>, a: Seq<T>, b: Seq<T>)
    ensures
        shifted_history(shifted_history(h, a), b) == shifted_history(h, a + b),
{
    let h1 = shifted_history(h, a);
    assert(h1.len() == h.len());
    assert(shifted_history(h1, b) =~= shifted_history(h, a + b));
}

} // verus!
