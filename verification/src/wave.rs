//! Bit-packed frame store: dense storage for a contiguous cycle range across
//! a fixed signal list, with bit-level accessors. Each bit occupies one
//! storage unit (a byte holding 0 or 1); a signal's bits live in its bitrange
//! within every frame, and frames are laid out consecutively by cycle.

use vstd::prelude::*;

use crate::signal::SignalType;

verus! {

/// Sum of the widths of the first `n` signals, in construction order.
pub open spec fn prefix_width(signals: Seq<SignalType>, n: int) -> nat
    decreases n,
{
    if n <= 0 {
        0
    } else {
        prefix_width(signals, n - 1) + signals[n - 1].spec_width()
    }
}

/// Sum of all signal widths: the storage units one frame occupies.
pub open spec fn total_width(signals: Seq<SignalType>) -> nat {
    prefix_width(signals, signals.len() as int)
}

pub proof fn lemma_prefix_width_monotonic(signals: Seq<SignalType>, i: int, j: int)
    requires
        i <= j,
    ensures
        prefix_width(signals, i) <= prefix_width(signals, j),
    decreases j - i,
{
    if i < j {
        lemma_prefix_width_monotonic(signals, i, j - 1);
    }
}

/// The bitrange at `i` begins exactly where the one before it ends.
pub open spec fn contiguous_at(bitranges: Seq<(usize, usize)>, i: int) -> bool {
    bitranges[i].0 == bitranges[i - 1].1
}

/// A dense rectangular slice: a fixed list of signals over the half-open
/// cycle range `[cycle_start, cycle_end)`. Shape is fixed at construction;
/// bit content is mutable through `set`.
pub struct WaveData {
    pub cycle_start: u64,
    pub cycle_end: u64,
    pub bitranges: Vec<(usize, usize)>,
    pub bytes_per_frame: usize,
    pub data: Vec<u8>,
}

impl WaveData {
    /// Number of cycles the store covers.
    pub open spec fn spec_num_cycles(self) -> int {
        self.cycle_end - self.cycle_start
    }

    /// Shape invariant: bitranges form a running prefix partition of
    /// `[0, bytes_per_frame)`, and the buffer holds exactly one frame per
    /// cycle in range.
    pub open spec fn wf(self) -> bool {
        &&& self.cycle_start <= self.cycle_end
        &&& self.cycle_end - self.cycle_start <= usize::MAX
        &&& forall|i: int|
            0 <= i < self.bitranges@.len() ==> (#[trigger] self.bitranges@[i]).0
                <= self.bitranges@[i].1 && self.bitranges@[i].1 <= self.bytes_per_frame
        &&& forall|i: int| 0 < i < self.bitranges@.len() ==> #[trigger] contiguous_at(
            self.bitranges@,
            i,
        )
        &&& self.bitranges@.len() > 0 ==> self.bitranges@[0].0 == 0
            && self.bitranges@[self.bitranges@.len() - 1].1 == self.bytes_per_frame
        &&& self.bitranges@.len() == 0 ==> self.bytes_per_frame == 0
        &&& self.data@.len() == self.bytes_per_frame * self.spec_num_cycles()
    }

    /// Width in storage bits of the signal at index `i` of this store.
    pub open spec fn signal_width(self, i: int) -> int {
        self.bitranges@[i].1 - self.bitranges@[i].0
    }

    /// First storage index of the frame for `cycle`.
    pub open spec fn frame_offset(self, cycle: int) -> int {
        (cycle - self.cycle_start) * self.bytes_per_frame
    }

    /// Storage index of bit `k` of signal `i` at `cycle`.
    pub open spec fn bit_index(self, i: int, cycle: int, k: int) -> int {
        self.frame_offset(cycle) + self.bitranges@[i].0 + k
    }

    /// The bits of signal `i` at `cycle`, in storage order: a nonzero
    /// storage unit reads as `true`.
    pub open spec fn read_bits(self, i: int, cycle: int) -> Seq<bool> {
        Seq::new(
            self.signal_width(i) as nat,
            |k: int| self.data@[self.bit_index(i, cycle, k)] != 0,
        )
    }

    /// The buffer after writing bits `v` over signal `i` at `cycle`:
    /// one storage unit per bit, all other positions unchanged.
    pub open spec fn written(self, i: int, cycle: int, v: Seq<bool>) -> Seq<u8> {
        Seq::new(
            self.data@.len() as nat,
            |p: int|
                if self.bit_index(i, cycle, 0) <= p < self.bit_index(
                    i,
                    cycle,
                    self.signal_width(i),
                ) {
                    if v[p - self.bit_index(i, cycle, 0)] {
                        1u8
                    } else {
                        0u8
                    }
                } else {
                    self.data@[p]
                },
        )
    }

    /// Every storage index of a valid signal at a valid cycle lies inside
    /// the buffer.
    pub proof fn lemma_bit_index_in_bounds(self, i: int, cycle: int, k: int)
        requires
            self.wf(),
            0 <= i < self.bitranges@.len(),
            self.cycle_start <= cycle < self.cycle_end,
            0 <= k <= self.signal_width(i),
        ensures
            0 <= self.frame_offset(cycle),
            self.frame_offset(cycle) + self.bytes_per_frame <= self.data@.len(),
            self.bitranges@[i].0 + self.signal_width(i) <= self.bytes_per_frame,
            0 <= self.bit_index(i, cycle, 0),
            self.bit_index(i, cycle, k) <= self.data@.len(),
            k < self.signal_width(i) ==> self.bit_index(i, cycle, k) < self.data@.len(),
    {
        let cs = self.cycle_start as int;
        let ce = self.cycle_end as int;
        let bpf = self.bytes_per_frame as int;
        assert(0 <= (cycle - cs) * bpf && (cycle - cs) * bpf + bpf <= bpf * (ce - cs))
            by (nonlinear_arith)
            requires
                cs <= cycle < ce,
                bpf >= 0,
        ;
        assert(self.data@.len() == bpf * (ce - cs));
    }

    /// Builds a zero-initialized frame store for `signals` over the cycle
    /// range `[cycle_start, cycle_end)`: bitranges are the running prefix
    /// sums of the signal widths, and the buffer holds one frame per cycle.
    pub fn new(signals: &Vec<SignalType>, cycle_start: u64, cycle_end: u64) -> (w: WaveData)
        requires
            cycle_start <= cycle_end,
            cycle_end - cycle_start <= usize::MAX,
            total_width(signals@) <= usize::MAX,
            total_width(signals@) * (cycle_end - cycle_start) <= usize::MAX,
        ensures
            w.wf(),
            w.cycle_start == cycle_start,
            w.cycle_end == cycle_end,
            w.bytes_per_frame == total_width(signals@),
            w.bitranges@.len() == signals@.len(),
            forall|i: int|
                0 <= i < signals@.len() ==> (#[trigger] w.bitranges@[i]).0 == prefix_width(
                    signals@,
                    i,
                ) && w.bitranges@[i].1 == prefix_width(signals@, i + 1),
            w.data@.len() == total_width(signals@) * (cycle_end - cycle_start),
            forall|p: int| 0 <= p < w.data@.len() ==> w.data@[p] == 0,
    {
        let n = signals.len();
        let mut ptr: usize = 0;
        let mut bitranges: Vec<(usize, usize)> = Vec::new();

        for idx in 0..n
            invariant
                n == signals@.len(),
                bitranges@.len() == idx,
                ptr == prefix_width(signals@, idx as int),
                total_width(signals@) <= usize::MAX,
                forall|i: int|
                    0 <= i < idx ==> (#[trigger] bitranges@[i]).0 == prefix_width(signals@, i)
                        && bitranges@[i].1 == prefix_width(signals@, i + 1),
        {
            let width = signals[idx].width();
            proof {
                lemma_prefix_width_monotonic(signals@, idx as int + 1, n as int);
            }
            let next_ptr = ptr + width;
            bitranges.push((ptr, next_ptr));
            ptr = next_ptr;
        }

        let bytes_per_frame = ptr;
        let num_cycles = (cycle_end - cycle_start) as usize;
        let total = bytes_per_frame * num_cycles;
        let mut data: Vec<u8> = Vec::new();
        while data.len() < total
            invariant
                data@.len() <= total,
                forall|p: int| 0 <= p < data@.len() ==> data@[p] == 0,
            decreases total - data@.len(),
        {
            data.push(0);
        }

        let w = WaveData { cycle_start, cycle_end, bitranges, bytes_per_frame, data };
        proof {
            assert forall|i: int| 0 <= i < w.bitranges@.len() implies (
            #[trigger] w.bitranges@[i]).1 <= w.bytes_per_frame by {
                lemma_prefix_width_monotonic(signals@, i + 1, n as int);
            }
        }
        w
    }

    /// Builds the frame store after checking that it fits the machine:
    /// `None` exactly when the cycle count, one frame, or the whole buffer
    /// would overflow `usize`.
    pub fn try_new(signals: &Vec<SignalType>, cycle_start: u64, cycle_end: u64) -> (r: Option<
        WaveData,
    >)
        requires
            cycle_start <= cycle_end,
        ensures
            match r {
                Some(w) => {
                    &&& cycle_end - cycle_start <= usize::MAX
                    &&& total_width(signals@) <= usize::MAX
                    &&& total_width(signals@) * (cycle_end - cycle_start) <= usize::MAX
                    &&& w.wf()
                    &&& w.cycle_start == cycle_start
                    &&& w.cycle_end == cycle_end
                    &&& w.bytes_per_frame == total_width(signals@)
                    &&& w.bitranges@.len() == signals@.len()
                    &&& forall|i: int|
                        0 <= i < signals@.len() ==> (#[trigger] w.bitranges@[i]).0 == prefix_width(
                            signals@,
                            i,
                        ) && w.bitranges@[i].1 == prefix_width(signals@, i + 1)
                    &&& w.data@.len() == total_width(signals@) * (cycle_end - cycle_start)
                    &&& forall|p: int| 0 <= p < w.data@.len() ==> w.data@[p] == 0
                },
                None => !(cycle_end - cycle_start <= usize::MAX && total_width(signals@)
                    <= usize::MAX && total_width(signals@) * (cycle_end - cycle_start)
                    <= usize::MAX),
            },
    {
        if cycle_end - cycle_start > usize::MAX as u64 {
            return None;
        }
        let n = signals.len();
        let mut total: usize = 0;
        for idx in 0..n
            invariant
                n == signals@.len(),
                total == prefix_width(signals@, idx as int),
        {
            let width = signals[idx].width();
            if total > usize::MAX - width {
                proof {
                    lemma_prefix_width_monotonic(signals@, idx as int + 1, n as int);
                }
                return None;
            }
            total = total + width;
        }
        let num_cycles = (cycle_end - cycle_start) as usize;
        proof {
            assert((total as u128) * (num_cycles as u128) < u128::MAX) by (nonlinear_arith)
                requires
                    total <= u64::MAX,
                    num_cycles <= u64::MAX,
            ;
        }
        let storage = (total as u128) * (num_cycles as u128);
        if storage > usize::MAX as u128 {
            return None;
        }
        Some(WaveData::new(signals, cycle_start, cycle_end))
    }

    /// Reads signal `signal` at `cycle` as one boolean per storage unit,
    /// in storage order.
    #[verifier::loop_isolation(false)]
    #[verifier::rlimit(50)]
    pub fn get(&self, signal: u64, cycle: u64) -> (bits: Vec<bool>)
        requires
            self.wf(),
            signal < self.bitranges@.len(),
            self.cycle_start <= cycle < self.cycle_end,
        ensures
            bits@ == self.read_bits(signal as int, cycle as int),
            bits@.len() == self.signal_width(signal as int),
    {
        let blen = self.bitranges.len();
        proof {
            assert(signal < blen);
        }
        let (start, end) = self.bitranges[signal as usize];
        let num_bits = end - start;
        proof {
            self.lemma_bit_index_in_bounds(signal as int, cycle as int, self.signal_width(
                signal as int,
            ));
        }
        let delta = cycle - self.cycle_start;
        let dlen = self.data.len();
        proof {
            assert(delta <= usize::MAX);
            assert(delta * self.bytes_per_frame == self.frame_offset(cycle as int));
            assert(self.frame_offset(cycle as int) + self.bytes_per_frame <= dlen);
        }
        let offset = (delta as usize) * self.bytes_per_frame;
        let mut bits: Vec<bool> = Vec::new();

        for k in 0..num_bits
            invariant
                bits@.len() == k,
                forall|j: int|
                    0 <= j < k ==> bits@[j] == (self.data@[self.bit_index(
                        signal as int,
                        cycle as int,
                        j,
                    )] != 0),
        {
            let unit = self.data[offset + start + k];
            bits.push(unit != 0);
        }

        proof {
            assert(bits@ =~= self.read_bits(signal as int, cycle as int));
        }
        bits
    }

    /// Writes one storage unit per bit of `value` over signal `signal` at
    /// `cycle`; every other storage position keeps its value, and the shape
    /// of the store does not change.
    #[verifier::loop_isolation(false)]
    #[verifier::rlimit(50)]
    pub fn set(&mut self, signal: u64, cycle: u64, value: &[bool])
        requires
            old(self).wf(),
            signal < old(self).bitranges@.len(),
            old(self).cycle_start <= cycle < old(self).cycle_end,
            value@.len() == old(self).signal_width(signal as int),
        ensures
            final(self).wf(),
            final(self).cycle_start == old(self).cycle_start,
            final(self).cycle_end == old(self).cycle_end,
            final(self).bitranges@ == old(self).bitranges@,
            final(self).bytes_per_frame == old(self).bytes_per_frame,
            final(self).data@ == old(self).written(signal as int, cycle as int, value@),
            final(self).read_bits(signal as int, cycle as int) == value@,
    {
        let blen = self.bitranges.len();
        proof {
            assert(signal < blen);
        }
        let (start, end) = self.bitranges[signal as usize];
        let num_bits = end - start;
        proof {
            old(self).lemma_bit_index_in_bounds(signal as int, cycle as int, old(
                self,
            ).signal_width(signal as int));
        }
        let delta = cycle - self.cycle_start;
        let dlen = self.data.len();
        proof {
            assert(delta <= usize::MAX);
            assert(delta * self.bytes_per_frame == self.frame_offset(cycle as int));
            assert(self.frame_offset(cycle as int) + self.bytes_per_frame <= dlen);
        }
        let offset = (delta as usize) * self.bytes_per_frame;
        let ghost first = old(self).bit_index(signal as int, cycle as int, 0);

        for k in 0..num_bits
            invariant
                self.cycle_start == old(self).cycle_start,
                self.cycle_end == old(self).cycle_end,
                self.bitranges@ == old(self).bitranges@,
                self.bytes_per_frame == old(self).bytes_per_frame,
                self.data@.len() == old(self).data@.len(),
                forall|p: int|
                    0 <= p < self.data@.len() && !(first <= p < first + k) ==> self.data@[p]
                        == old(self).data@[p],
                forall|j: int|
                    0 <= j < k ==> self.data@[first + j] == (if value@[j] {
                        1u8
                    } else {
                        0u8
                    }),
        {
            let unit: u8 = if value[k] {
                1
            } else {
                0
            };
            self.data[offset + start + k] = unit;
        }

        proof {
            assert(self.data@ =~= old(self).written(signal as int, cycle as int, value@));
            lemma_set_then_get(*old(self), *self, signal as int, cycle as int, value@);
        }
    }
}

/// Layout invariant, spelled out: bitranges start at 0, each begins where
/// the one before it ends, and `bytes_per_frame` is where the last one ends
/// — the sum of all signal widths.
pub proof fn lemma_layout_invariant(w: WaveData)
    requires
        w.wf(),
    ensures
        w.bitranges@.len() > 0 ==> w.bitranges@[0].0 == 0,
        forall|k: int|
            0 < k < w.bitranges@.len() ==> (#[trigger] w.bitranges@[k]).0 == w.bitranges@[k
                - 1].1,
        w.bitranges@.len() > 0 ==> w.bitranges@[w.bitranges@.len() - 1].1 == w.bytes_per_frame,
{
    assert forall|k: int| 0 < k < w.bitranges@.len() implies (#[trigger] w.bitranges@[k]).0
        == w.bitranges@[k - 1].1 by {
        assert(contiguous_at(w.bitranges@, k));
    }
}

/// Bitranges at earlier indices end no later than later ones begin.
pub proof fn lemma_bitranges_ordered(w: WaveData, i: int, j: int)
    requires
        w.wf(),
        0 <= i < j < w.bitranges@.len(),
    ensures
        w.bitranges@[i].1 <= w.bitranges@[j].0,
    decreases j - i,
{
    assert(contiguous_at(w.bitranges@, j));
    if i + 1 < j {
        lemma_bitranges_ordered(w, i, j - 1);
    }
}

/// No two signals' bitranges overlap: within a frame, distinct signals own
/// distinct storage positions.
pub proof fn lemma_bitranges_disjoint(w: WaveData)
    requires
        w.wf(),
    ensures
        forall|i: int, j: int|
            0 <= i < j < w.bitranges@.len() ==> (#[trigger] w.bitranges@[i]).1 <= (
            #[trigger] w.bitranges@[j]).0,
{
    assert forall|i: int, j: int| 0 <= i < j < w.bitranges@.len() implies (
    #[trigger] w.bitranges@[i]).1 <= (#[trigger] w.bitranges@[j]).0 by {
        lemma_bitranges_ordered(w, i, j);
    }
}

proof fn lemma_bit_position_owner_rec(w: WaveData, p: int, n: int) -> (i: int)
    requires
        w.wf(),
        0 < n <= w.bitranges@.len(),
        0 <= p < w.bitranges@[n - 1].1,
    ensures
        0 <= i < n,
        w.bitranges@[i].0 <= p < w.bitranges@[i].1,
    decreases n,
{
    if w.bitranges@[n - 1].0 <= p {
        n - 1
    } else {
        assert(n >= 2);
        assert(contiguous_at(w.bitranges@, n - 1));
        lemma_bit_position_owner_rec(w, p, n - 1)
    }
}

/// Every bit position in `[0, bytes_per_frame)` belongs to exactly one
/// signal's bitrange.
pub proof fn lemma_bit_position_owner(w: WaveData, p: int) -> (i: int)
    requires
        w.wf(),
        0 <= p < w.bytes_per_frame,
    ensures
        0 <= i < w.bitranges@.len(),
        w.bitranges@[i].0 <= p < w.bitranges@[i].1,
        forall|j: int|
            0 <= j < w.bitranges@.len() && (#[trigger] w.bitranges@[j]).0 <= p
                < w.bitranges@[j].1 ==> j == i,
{
    let n = w.bitranges@.len() as int;
    let i = lemma_bit_position_owner_rec(w, p, n);
    assert forall|j: int|
        0 <= j < n && (#[trigger] w.bitranges@[j]).0 <= p < w.bitranges@[j].1 implies j == i by {
        if j < i {
            lemma_bitranges_ordered(w, j, i);
        } else if j > i {
            lemma_bitranges_ordered(w, i, j);
        }
    }
    i
}

proof fn lemma_frames_ordered(cs: int, c2: int, c: int, bpf: int)
    requires
        cs <= c2 < c,
        bpf >= 0,
    ensures
        (c2 - cs) * bpf + bpf <= (c - cs) * bpf,
{
    assert((c2 - cs) * bpf + bpf <= (c - cs) * bpf) by (nonlinear_arith)
        requires
            cs <= c2 < c,
            bpf >= 0,
    ;
}

/// Round trip: a store whose buffer is `pre.written(i, cycle, v)` reads
/// back exactly `v` for signal `i` at `cycle` — length and bit values
/// preserved, for every bit vector of the signal's width.
pub proof fn lemma_set_then_get(pre: WaveData, post: WaveData, i: int, cycle: int, v: Seq<bool>)
    requires
        pre.wf(),
        0 <= i < pre.bitranges@.len(),
        pre.cycle_start <= cycle < pre.cycle_end,
        v.len() == pre.signal_width(i),
        post.cycle_start == pre.cycle_start,
        post.cycle_end == pre.cycle_end,
        post.bitranges@ == pre.bitranges@,
        post.bytes_per_frame == pre.bytes_per_frame,
        post.data@ == pre.written(i, cycle, v),
    ensures
        post.read_bits(i, cycle) == v,
{
    assert(post.read_bits(i, cycle) =~= v) by {
        assert forall|k: int| 0 <= k < v.len() implies post.read_bits(i, cycle)[k] == v[k] by {
            pre.lemma_bit_index_in_bounds(i, cycle, k);
            assert(post.data@[pre.bit_index(i, cycle, k)] == if v[k] {
                1u8
            } else {
                0u8
            });
        }
    }
}

/// Writing one signal at one cycle leaves every other signal, and every
/// other cycle, reading exactly as before.
pub proof fn lemma_set_preserves_rest(
    pre: WaveData,
    post: WaveData,
    i: int,
    cycle: int,
    v: Seq<bool>,
    j: int,
    cycle2: int,
)
    requires
        pre.wf(),
        0 <= i < pre.bitranges@.len(),
        pre.cycle_start <= cycle < pre.cycle_end,
        v.len() == pre.signal_width(i),
        post.cycle_start == pre.cycle_start,
        post.cycle_end == pre.cycle_end,
        post.bitranges@ == pre.bitranges@,
        post.bytes_per_frame == pre.bytes_per_frame,
        post.data@ == pre.written(i, cycle, v),
        0 <= j < pre.bitranges@.len(),
        pre.cycle_start <= cycle2 < pre.cycle_end,
        j != i || cycle2 != cycle,
    ensures
        post.read_bits(j, cycle2) == pre.read_bits(j, cycle2),
{
    let cs = pre.cycle_start as int;
    let bpf = pre.bytes_per_frame as int;
    assert(post.read_bits(j, cycle2) =~= pre.read_bits(j, cycle2)) by {
        assert forall|k: int| 0 <= k < pre.signal_width(j) implies post.read_bits(j, cycle2)[k]
            == pre.read_bits(j, cycle2)[k] by {
            pre.lemma_bit_index_in_bounds(j, cycle2, k);
            pre.lemma_bit_index_in_bounds(i, cycle, 0);
            let idx = pre.bit_index(j, cycle2, k);
            if cycle2 < cycle {
                lemma_frames_ordered(cs, cycle2, cycle, bpf);
            } else if cycle2 > cycle {
                lemma_frames_ordered(cs, cycle, cycle2, bpf);
            } else if j < i {
                lemma_bitranges_ordered(pre, j, i);
            } else {
                lemma_bitranges_ordered(pre, i, j);
            }
            assert(!(pre.bit_index(i, cycle, 0) <= idx < pre.bit_index(
                i,
                cycle,
                pre.signal_width(i),
            )));
            assert(post.data@[idx] == pre.data@[idx]);
        }
    }
}

} // verus!
