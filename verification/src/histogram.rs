//! Histograms over the 16 canonical bit slots.
//!
//! Bit index `i` of a sample maps to canonical slot `15 - i`: every
//! sample's least-significant bit lands in slot 15, so an 8-bit sample
//! populates slots 8..=15 and a 16-bit sample populates slots 0..=15.
//! A histogram holds, per slot, how many zero bits and how many one bits
//! were observed there.

use vstd::prelude::*;

use crate::sample::{BitEnumerator, Sample};

verus! {

/// One file's decoded sample stream, tagged with its uniform element width.
#[derive(Clone, Debug)]
pub enum SampleBuffer {
    U8(Vec<u8>),
    U16(Vec<u16>),
}

impl SampleBuffer {
    /// The buffer's contents as a sequence of tagged samples.
    pub open spec fn samples(self) -> Seq<Sample> {
        match self {
            SampleBuffer::U8(v) => v@.map_values(|x: u8| Sample::U8(x)),
            SampleBuffer::U16(v) => v@.map_values(|x: u16| Sample::U16(x)),
        }
    }
}

/// What one sample adds to the counter at `(slot, b)`: 1 if the sample has
/// a bit in that slot with value `b`, else 0.
pub open spec fn tally(s: Sample, slot: int, b: bool) -> nat {
    if 16 - s.spec_width() <= slot < 16 && s.bit((15 - slot) as nat) == b {
        1
    } else {
        0
    }
}

/// What the first `nbits` bit observations of one sample add to the counter
/// at `(slot, b)`.
spec fn partial_tally(s: Sample, nbits: nat, slot: int, b: bool) -> nat {
    if 0 <= slot < 16 && 15 - slot < nbits && s.bit((15 - slot) as nat) == b {
        1
    } else {
        0
    }
}

/// What a whole sequence of samples adds to the counter at `(slot, b)`.
pub open spec fn slot_count(samples: Seq<Sample>, slot: int, b: bool) -> nat
    decreases samples.len(),
{
    if samples.len() == 0 {
        0
    } else {
        slot_count(samples.drop_last(), slot, b) + tally(samples.last(), slot, b)
    }
}

/// Extending a prefix of samples by one adds exactly that sample's
/// contribution.
proof fn lemma_slot_count_take_step(samples: Seq<Sample>, k: int, slot: int, b: bool)
    requires
        0 <= k < samples.len(),
    ensures
        slot_count(samples.take(k + 1), slot, b) == slot_count(samples.take(k), slot, b) + tally(
            samples[k],
            slot,
            b,
        ),
{
    assert(samples.take(k + 1).drop_last() =~= samples.take(k));
    assert(samples.take(k + 1).last() == samples[k]);
}

/// A sequence's counters never shrink as the sequence grows.
proof fn lemma_slot_count_take_le(samples: Seq<Sample>, k: int, slot: int, b: bool)
    requires
        0 <= k <= samples.len(),
    ensures
        slot_count(samples.take(k), slot, b) <= slot_count(samples, slot, b),
    decreases samples.len() - k,
{
    if k == samples.len() {
        assert(samples.take(k) =~= samples);
    } else {
        lemma_slot_count_take_step(samples, k, slot, b);
        lemma_slot_count_take_le(samples, k + 1, slot, b);
    }
}

/// No counter of a sequence exceeds the sequence's length.
pub proof fn lemma_slot_count_le_len(samples: Seq<Sample>, slot: int, b: bool)
    ensures
        slot_count(samples, slot, b) <= samples.len(),
    decreases samples.len(),
{
    if samples.len() > 0 {
        lemma_slot_count_le_len(samples.drop_last(), slot, b);
    }
}

/// Counters of concatenated sequences add up.
pub proof fn lemma_slot_count_concat(a: Seq<Sample>, c: Seq<Sample>, slot: int, b: bool)
    ensures
        slot_count(a + c, slot, b) == slot_count(a, slot, b) + slot_count(c, slot, b),
    decreases c.len(),
{
    if c.len() == 0 {
        assert(a + c =~= a);
    } else {
        assert((a + c).drop_last() =~= a + c.drop_last());
        assert((a + c).last() == c.last());
        lemma_slot_count_concat(a, c.drop_last(), slot, b);
    }
}

/// A histogram of 16 canonical slots, each holding a zero-count and a
/// one-count.
#[derive(Clone, Debug)]
pub struct Histogram {
    /// Per slot, how many bits with value 0 were observed.
    pub zeros: Vec<u64>,
    /// Per slot, how many bits with value 1 were observed.
    pub ones: Vec<u64>,
}

impl View for Histogram {
    type V = (Seq<u64>, Seq<u64>);

    open spec fn view(&self) -> (Seq<u64>, Seq<u64>) {
        (self.zeros@, self.ones@)
    }
}

impl Histogram {
    /// Both count columns cover exactly the 16 canonical slots.
    pub open spec fn wf(self) -> bool {
        self.zeros@.len() == 16 && self.ones@.len() == 16
    }

    /// The counter at slot `slot` for bit value `b`.
    pub open spec fn count(self, slot: int, b: bool) -> u64 {
        if b {
            self.ones@[slot]
        } else {
            self.zeros@[slot]
        }
    }

    /// A histogram with every counter zero.
    pub fn new() -> (h: Histogram)
        ensures
            h.wf(),
            forall|slot: int, b: bool| 0 <= slot < 16 ==> h.count(slot, b) == 0,
    {
        let zeros: Vec<u64> = vec![0u64; 16];
        let ones: Vec<u64> = vec![0u64; 16];
        Histogram { zeros, ones }
    }

    /// The two reported sequences: zero-counts and one-counts, in ascending
    /// slot order.
    pub fn into_report(self) -> (r: (Vec<u64>, Vec<u64>))
        ensures
            r.0@ == self.zeros@,
            r.1@ == self.ones@,
    {
        (self.zeros, self.ones)
    }
}

/// Record every bit observation of one sample: for each of its bits,
/// increment the counter at slot `15 - bit_index` for the bit's value.
pub fn accumulate_sample(counts: &mut Histogram, s: Sample)
    requires
        old(counts).wf(),
        forall|slot: int, b: bool|
            0 <= slot < 16 ==> #[trigger] old(counts).count(slot, b) + tally(s, slot, b)
                <= u64::MAX,
    ensures
        final(counts).wf(),
        forall|slot: int, b: bool|
            0 <= slot < 16 ==> #[trigger] final(counts).count(slot, b) == old(counts).count(
                slot,
                b,
            ) + tally(s, slot, b),
{
    let mut e: BitEnumerator = s.enumerate_bits();
    let w: u32 = s.width();
    let mut i: u32 = 0;
    while i < w
        invariant
            e.wf(),
            e.sample() == s,
            i == e.curr,
            w == s.spec_width(),
            counts.wf(),
            forall|slot: int, b: bool|
                0 <= slot < 16 ==> #[trigger] old(counts).count(slot, b) + tally(s, slot, b)
                    <= u64::MAX,
            forall|slot: int, b: bool|
                0 <= slot < 16 ==> #[trigger] counts.count(slot, b) == old(counts).count(slot, b)
                    + partial_tally(s, i as nat, slot, b),
        decreases w - i,
    {
        match e.next() {
            Some(obs) => {
                let idx: usize = 15 - obs.0 as usize;
                let ghost prev = *counts;
                proof {
                    let slot = idx as int;
                    let bv = obs.1;
                    assert(obs.0 == i && bv == s.bit(i as nat));
                    assert(tally(s, slot, bv) == 1);
                    assert(partial_tally(s, i as nat, slot, bv) == 0);
                    assert(counts.count(slot, bv) == old(counts).count(slot, bv));
                    assert(counts.count(slot, bv) + 1 <= u64::MAX);
                }
                if obs.1 {
                    let c: u64 = counts.ones[idx];
                    counts.ones[idx] = c + 1;
                } else {
                    let c: u64 = counts.zeros[idx];
                    counts.zeros[idx] = c + 1;
                }
                proof {
                    assert forall|slot: int, b: bool| 0 <= slot < 16 implies #[trigger] counts
                        .count(slot, b) == old(counts).count(slot, b) + partial_tally(
                        s,
                        (i + 1) as nat,
                        slot,
                        b,
                    ) by {
                        assert(prev.count(slot, b) == old(counts).count(slot, b) + partial_tally(
                            s,
                            i as nat,
                            slot,
                            b,
                        ));
                        if slot == idx as int && b == obs.1 {
                            assert(counts.count(slot, b) == prev.count(slot, b) + 1);
                            assert(partial_tally(s, i as nat, slot, b) == 0);
                            assert(partial_tally(s, (i + 1) as nat, slot, b) == 1);
                        } else {
                            assert(counts.count(slot, b) == prev.count(slot, b));
                            assert(partial_tally(s, (i + 1) as nat, slot, b) == partial_tally(
                                s,
                                i as nat,
                                slot,
                                b,
                            ));
                        }
                    }
                }
            },
            None => {},
        }
        i = i + 1;
    }
    assert(forall|slot: int, b: bool|
        0 <= slot < 16 ==> partial_tally(s, s.spec_width(), slot, b) == tally(s, slot, b));
}

/// Slot-wise, bit-wise addition of `local` into `global`: after a
/// successful merge every counter of `global` is the sum of its old value
/// and `local`'s. Returns `true` and merges exactly when no counter would
/// exceed 64 bits; otherwise `global` is left unchanged.
pub fn merge(global: &mut Histogram, local: &Histogram) -> (ok: bool)
    requires
        old(global).wf(),
        local.wf(),
    ensures
        ok <==> (forall|slot: int, b: bool|
            0 <= slot < 16 ==> #[trigger] old(global).count(slot, b) + local.count(slot, b)
                <= u64::MAX),
        ok ==> final(global).wf(),
        ok ==> (forall|slot: int, b: bool|
            0 <= slot < 16 ==> #[trigger] final(global).count(slot, b) == old(global).count(
                slot,
                b,
            ) + local.count(slot, b)),
        !ok ==> *final(global) == *old(global),
{
    let mut i: usize = 0;
    while i < 16
        invariant
            global.wf(),
            local.wf(),
            *global == *old(global),
            i <= 16,
            forall|slot: int, b: bool|
                0 <= slot < i ==> #[trigger] global.count(slot, b) + local.count(slot, b)
                    <= u64::MAX,
        decreases 16 - i,
    {
        if global.zeros[i] > u64::MAX - local.zeros[i] {
            proof {
                assert(global.count(i as int, false) + local.count(i as int, false) > u64::MAX);
            }
            return false;
        }
        if global.ones[i] > u64::MAX - local.ones[i] {
            proof {
                assert(global.count(i as int, true) + local.count(i as int, true) > u64::MAX);
            }
            return false;
        }
        proof {
            assert(global.count(i as int, false) + local.count(i as int, false) <= u64::MAX);
            assert(global.count(i as int, true) + local.count(i as int, true) <= u64::MAX);
        }
        i = i + 1;
    }
    let mut i: usize = 0;
    while i < 16
        invariant
            global.wf(),
            local.wf(),
            i <= 16,
            forall|slot: int, b: bool|
                0 <= slot < 16 ==> #[trigger] old(global).count(slot, b) + local.count(slot, b)
                    <= u64::MAX,
            forall|slot: int, b: bool|
                0 <= slot < i ==> #[trigger] global.count(slot, b) == old(global).count(slot, b)
                    + local.count(slot, b),
            forall|slot: int, b: bool|
                i <= slot < 16 ==> #[trigger] global.count(slot, b) == old(global).count(slot, b),
        decreases 16 - i,
    {
        let ghost prev = *global;
        proof {
            assert(prev.count(i as int, false) == old(global).count(i as int, false));
            assert(prev.count(i as int, true) == old(global).count(i as int, true));
        }
        let gz: u64 = global.zeros[i];
        let lz: u64 = local.zeros[i];
        global.zeros[i] = gz + lz;
        let go: u64 = global.ones[i];
        let lo: u64 = local.ones[i];
        global.ones[i] = go + lo;
        proof {
            assert forall|slot: int, b: bool| 0 <= slot < i + 1 implies #[trigger] global.count(
                slot,
                b,
            ) == old(global).count(slot, b) + local.count(slot, b) by {
                assert(prev.count(slot, b) == if slot < i {
                    old(global).count(slot, b) + local.count(slot, b)
                } else {
                    old(global).count(slot, b) as int
                });
            }
            assert forall|slot: int, b: bool| i + 1 <= slot < 16 implies #[trigger] global.count(
                slot,
                b,
            ) == old(global).count(slot, b) by {
                assert(prev.count(slot, b) == old(global).count(slot, b));
            }
        }
        i = i + 1;
    }
    true
}

/// The counter at `(slot, b)` of one histogram view: the zero-counts
/// column for `b == false`, the one-counts column for `b == true`.
pub open spec fn view_count(v: (Seq<u64>, Seq<u64>), slot: int, b: bool) -> u64 {
    if b {
        v.1[slot]
    } else {
        v.0[slot]
    }
}

/// The counter at `(slot, b)` of the merge of a sequence of histogram
/// views: the slot-wise, bit-wise sum over all of them.
pub open spec fn merged_count(hs: Seq<(Seq<u64>, Seq<u64>)>, slot: int, b: bool) -> int
    decreases hs.len(),
{
    if hs.len() == 0 {
        0
    } else {
        merged_count(hs.drop_last(), slot, b) + view_count(hs.last(), slot, b)
    }
}

/// The views of a sequence of histograms.
pub open spec fn histogram_views(hs: Seq<Histogram>) -> Seq<(Seq<u64>, Seq<u64>)> {
    hs.map_values(|h: Histogram| (h.zeros@, h.ones@))
}

/// Merging one more view adds exactly its counters.
proof fn lemma_merged_count_take_step(
    hs: Seq<(Seq<u64>, Seq<u64>)>,
    k: int,
    slot: int,
    b: bool,
)
    requires
        0 <= k < hs.len(),
    ensures
        merged_count(hs.take(k + 1), slot, b) == merged_count(hs.take(k), slot, b) + view_count(
            hs[k],
            slot,
            b,
        ),
{
    assert(hs.take(k + 1).drop_last() =~= hs.take(k));
    assert(hs.take(k + 1).last() == hs[k]);
}

/// A merged counter never shrinks as more views join the merge.
proof fn lemma_merged_count_take_le(hs: Seq<(Seq<u64>, Seq<u64>)>, k: int, slot: int, b: bool)
    requires
        0 <= k <= hs.len(),
    ensures
        merged_count(hs.take(k), slot, b) <= merged_count(hs, slot, b),
    decreases hs.len() - k,
{
    if k == hs.len() {
        assert(hs.take(k) =~= hs);
    } else {
        lemma_merged_count_take_step(hs, k, slot, b);
        lemma_merged_count_take_le(hs, k + 1, slot, b);
    }
}

/// Combine all local histograms into one global histogram by slot-wise,
/// bit-wise addition, as one reduction pass after all per-file work is
/// done. Returns `None` exactly when some combined counter would not fit
/// in 64 bits.
pub fn merge_all(locals: &Vec<Histogram>) -> (r: Option<Histogram>)
    requires
        forall|k: int| 0 <= k < locals@.len() ==> (#[trigger] locals@[k]).wf(),
    ensures
        r is Some <==> (forall|slot: int, b: bool|
            0 <= slot < 16 ==> #[trigger] merged_count(histogram_views(locals@), slot, b)
                <= u64::MAX),
        r matches Some(h) ==> h.wf() && (forall|slot: int, b: bool|
            0 <= slot < 16 ==> #[trigger] h.count(slot, b) == merged_count(
                histogram_views(locals@),
                slot,
                b,
            )),
{
    let ghost vs = histogram_views(locals@);
    let mut h = Histogram::new();
    let n = locals.len();
    let mut k: usize = 0;
    while k < n
        invariant
            n == locals@.len(),
            k <= n,
            vs == histogram_views(locals@),
            forall|j: int| 0 <= j < locals@.len() ==> (#[trigger] locals@[j]).wf(),
            h.wf(),
            forall|slot: int, b: bool|
                0 <= slot < 16 ==> #[trigger] h.count(slot, b) == merged_count(
                    vs.take(k as int),
                    slot,
                    b,
                ),
        decreases n - k,
    {
        let ghost before = h;
        let ok = merge(&mut h, &locals[k]);
        if !ok {
            proof {
                let (slot, b) = choose|slot: int, b: bool|
                    0 <= slot < 16 && before.count(slot, b) + locals@[k as int].count(slot, b)
                        > u64::MAX;
                lemma_merged_count_take_step(vs, k as int, slot, b);
                lemma_merged_count_take_le(vs, k + 1, slot, b);
                assert(view_count(vs[k as int], slot, b) == locals@[k as int].count(slot, b));
                assert(merged_count(vs, slot, b) > u64::MAX);
            }
            return None;
        }
        proof {
            assert forall|slot: int, b: bool| 0 <= slot < 16 implies #[trigger] h.count(slot, b)
                == merged_count(vs.take(k + 1), slot, b) by {
                lemma_merged_count_take_step(vs, k as int, slot, b);
                assert(view_count(vs[k as int], slot, b) == locals@[k as int].count(slot, b));
                assert(before.count(slot, b) == merged_count(vs.take(k as int), slot, b));
            }
        }
        k = k + 1;
    }
    proof {
        assert(vs.take(n as int) =~= vs);
        assert forall|slot: int, b: bool| 0 <= slot < 16 implies #[trigger] merged_count(
            histogram_views(locals@),
            slot,
            b,
        ) <= u64::MAX by {
            assert(h.count(slot, b) == merged_count(vs.take(n as int), slot, b));
        }
    }
    Some(h)
}

/// Drain one file's sample stream into a histogram: every sample of the
/// buffer contributes exactly one observation per bit, none skipped and
/// none double-counted.
pub fn count_bin_histogram(buf: &SampleBuffer, counts: &mut Histogram)
    requires
        old(counts).wf(),
        forall|slot: int, b: bool|
            0 <= slot < 16 ==> #[trigger] old(counts).count(slot, b) + slot_count(
                buf.samples(),
                slot,
                b,
            ) <= u64::MAX,
    ensures
        final(counts).wf(),
        forall|slot: int, b: bool|
            0 <= slot < 16 ==> #[trigger] final(counts).count(slot, b) == old(counts).count(
                slot,
                b,
            ) + slot_count(buf.samples(), slot, b),
{
    match buf {
        SampleBuffer::U8(v) => {
            let n = v.len();
            let mut j: usize = 0;
            while j < n
                invariant
                    n == v@.len(),
                    j <= n,
                    buf == SampleBuffer::U8(*v),
                    counts.wf(),
                    forall|slot: int, b: bool|
                        0 <= slot < 16 ==> #[trigger] old(counts).count(slot, b) + slot_count(
                            buf.samples(),
                            slot,
                            b,
                        ) <= u64::MAX,
                    forall|slot: int, b: bool|
                        0 <= slot < 16 ==> #[trigger] counts.count(slot, b) == old(counts).count(
                            slot,
                            b,
                        ) + slot_count(buf.samples().take(j as int), slot, b),
                decreases n - j,
            {
                let s = Sample::U8(v[j]);
                proof {
                    assert(buf.samples()[j as int] == s);
                    assert forall|slot: int, b: bool| 0 <= slot < 16 implies #[trigger] counts
                        .count(slot, b) + tally(s, slot, b) <= u64::MAX by {
                        lemma_slot_count_take_step(buf.samples(), j as int, slot, b);
                        lemma_slot_count_take_le(buf.samples(), j + 1, slot, b);
                    }
                }
                accumulate_sample(counts, s);
                proof {
                    assert forall|slot: int, b: bool| 0 <= slot < 16 implies #[trigger] counts
                        .count(slot, b) == old(counts).count(slot, b) + slot_count(
                        buf.samples().take(j + 1),
                        slot,
                        b,
                    ) by {
                        lemma_slot_count_take_step(buf.samples(), j as int, slot, b);
                    }
                }
                j = j + 1;
            }
            proof {
                assert(buf.samples().take(n as int) =~= buf.samples());
            }
        },
        SampleBuffer::U16(v) => {
            let n = v.len();
            let mut j: usize = 0;
            while j < n
                invariant
                    n == v@.len(),
                    j <= n,
                    buf == SampleBuffer::U16(*v),
                    counts.wf(),
                    forall|slot: int, b: bool|
                        0 <= slot < 16 ==> #[trigger] old(counts).count(slot, b) + slot_count(
                            buf.samples(),
                            slot,
                            b,
                        ) <= u64::MAX,
                    forall|slot: int, b: bool|
                        0 <= slot < 16 ==> #[trigger] counts.count(slot, b) == old(counts).count(
                            slot,
                            b,
                        ) + slot_count(buf.samples().take(j as int), slot, b),
                decreases n - j,
            {
                let s = Sample::U16(v[j]);
                proof {
                    assert(buf.samples()[j as int] == s);
                    assert forall|slot: int, b: bool| 0 <= slot < 16 implies #[trigger] counts
                        .count(slot, b) + tally(s, slot, b) <= u64::MAX by {
                        lemma_slot_count_take_step(buf.samples(), j as int, slot, b);
                        lemma_slot_count_take_le(buf.samples(), j + 1, slot, b);
                    }
                }
                accumulate_sample(counts, s);
                proof {
                    assert forall|slot: int, b: bool| 0 <= slot < 16 implies #[trigger] counts
                        .count(slot, b) == old(counts).count(slot, b) + slot_count(
                        buf.samples().take(j + 1),
                        slot,
                        b,
                    ) by {
                        lemma_slot_count_take_step(buf.samples(), j as int, slot, b);
                    }
                }
                j = j + 1;
            }
            proof {
                assert(buf.samples().take(n as int) =~= buf.samples());
            }
        },
    }
}

} // verus!
