//! Global properties of the histogram model, stated and proved once.
//!
//! The accumulation and merge functions promise their counters equal
//! `slot_count` and `merged_count` of their inputs; the lemmas here say
//! what those model functions themselves guarantee across a whole run:
//! no observation is lost or duplicated, the result does not depend on
//! any ordering, and the enumerated bits determine the sample exactly.

use vstd::arithmetic::power2::pow2;
use vstd::bits::{lemma_u32_pow2_no_overflow, lemma_u32_shl_is_mul};
use vstd::prelude::*;
use vstd::seq_lib::{commutative_foldr, lemma_fold_right_permutation};

use crate::histogram::{
    lemma_slot_count_concat, merged_count, slot_count, tally, view_count, Histogram, SampleBuffer,
};
use crate::pipeline::{all_samples, result_samples, PipelineError};
use crate::sample::Sample;

verus! {

/// Σ of the counters over slots `0..k`, both bit values.
pub open spec fn hist_total_upto(samples: Seq<Sample>, k: nat) -> nat
    decreases k,
{
    if k == 0 {
        0
    } else {
        hist_total_upto(samples, (k - 1) as nat) + slot_count(samples, k - 1, false) + slot_count(
            samples,
            k - 1,
            true,
        )
    }
}

/// The total number of bit observations a run of samples produces: the sum
/// over all 16 slots and both bit values.
pub open spec fn total_observations(samples: Seq<Sample>) -> nat {
    hist_total_upto(samples, 16)
}

/// The sum of the bit widths of a run of samples.
pub open spec fn total_width(samples: Seq<Sample>) -> nat
    decreases samples.len(),
{
    if samples.len() == 0 {
        0
    } else {
        total_width(samples.drop_last()) + samples.last().spec_width()
    }
}

/// Σ of one sample's tallies over slots `0..k`, both bit values.
spec fn sample_slots_upto(s: Sample, k: nat) -> nat
    decreases k,
{
    if k == 0 {
        0
    } else {
        sample_slots_upto(s, (k - 1) as nat) + tally(s, k - 1, false) + tally(s, k - 1, true)
    }
}

proof fn lemma_hist_total_upto_empty(samples: Seq<Sample>, k: nat)
    requires
        samples.len() == 0,
    ensures
        hist_total_upto(samples, k) == 0,
    decreases k,
{
    if k > 0 {
        lemma_hist_total_upto_empty(samples, (k - 1) as nat);
    }
}

proof fn lemma_hist_total_upto_step(samples: Seq<Sample>, k: nat)
    requires
        samples.len() > 0,
    ensures
        hist_total_upto(samples, k) == hist_total_upto(samples.drop_last(), k) + sample_slots_upto(
            samples.last(),
            k,
        ),
    decreases k,
{
    if k > 0 {
        lemma_hist_total_upto_step(samples, (k - 1) as nat);
    }
}

proof fn lemma_sample_slots_upto_value(s: Sample, k: nat)
    requires
        k <= 16,
    ensures
        sample_slots_upto(s, k) == if k + s.spec_width() <= 16 {
            0nat
        } else {
            (k + s.spec_width() - 16) as nat
        },
    decreases k,
{
    if k > 0 {
        lemma_sample_slots_upto_value(s, (k - 1) as nat);
    }
}

/// No observation is lost or duplicated: over any finite run of samples of
/// mixed widths, the sum of the histogram's counters over all 16 slots and
/// both bit values equals the sum of the samples' bit widths.
pub proof fn lemma_no_observation_lost(samples: Seq<Sample>)
    ensures
        total_observations(samples) == total_width(samples),
    decreases samples.len(),
{
    if samples.len() == 0 {
        lemma_hist_total_upto_empty(samples, 16);
    } else {
        lemma_no_observation_lost(samples.drop_last());
        lemma_hist_total_upto_step(samples, 16);
        lemma_sample_slots_upto_value(samples.last(), 16);
    }
}

/// Σ of a histogram's counters over slots `0..k`, both bit values.
pub open spec fn counter_total_upto(h: Histogram, k: nat) -> int
    decreases k,
{
    if k == 0 {
        0
    } else {
        counter_total_upto(h, (k - 1) as nat) + h.count(k - 1, false) + h.count(k - 1, true)
    }
}

/// Σ of a histogram's counters over all 16 slots and both bit values.
pub open spec fn counter_total(h: Histogram) -> int {
    counter_total_upto(h, 16)
}

proof fn lemma_counter_total_upto_matches(h: Histogram, samples: Seq<Sample>, k: nat)
    requires
        forall|slot: int, b: bool|
            0 <= slot < 16 ==> #[trigger] h.count(slot, b) == slot_count(samples, slot, b),
        k <= 16,
    ensures
        counter_total_upto(h, k) == hist_total_upto(samples, k),
    decreases k,
{
    if k > 0 {
        lemma_counter_total_upto_matches(h, samples, (k - 1) as nat);
    }
}

/// No observation is lost or duplicated, said of the histogram itself: a
/// histogram whose counters are those of a run of samples — as the
/// accumulation and aggregation functions promise of theirs — has counters
/// summing to the run's total bit width.
pub proof fn lemma_histogram_totals(h: Histogram, samples: Seq<Sample>)
    requires
        forall|slot: int, b: bool|
            0 <= slot < 16 ==> #[trigger] h.count(slot, b) == slot_count(samples, slot, b),
    ensures
        counter_total(h) == total_width(samples),
{
    lemma_counter_total_upto_matches(h, samples, 16);
    lemma_no_observation_lost(samples);
}

/// One accumulation step at `(slot, b)`, as a fold operator.
spec fn tally_step(slot: int, b: bool) -> spec_fn(Sample, int) -> int {
    |x: Sample, acc: int| acc + tally(x, slot, b)
}

proof fn lemma_slot_count_fold(samples: Seq<Sample>, v: int, slot: int, b: bool)
    ensures
        samples.fold_right(tally_step(slot, b), v) == v + slot_count(samples, slot, b),
    decreases samples.len(),
{
    if samples.len() > 0 {
        lemma_slot_count_fold(
            samples.drop_last(),
            tally_step(slot, b)(samples.last(), v),
            slot,
            b,
        );
    }
}

/// The histogram of a run is order-independent: two runs whose samples are
/// the same multiset — the same files listed in another order, or the same
/// bits accumulated in another order — have equal counters everywhere.
pub proof fn lemma_histogram_order_independent(s1: Seq<Sample>, s2: Seq<Sample>)
    requires
        s1.to_multiset() == s2.to_multiset(),
    ensures
        forall|slot: int, b: bool|
            #[trigger] slot_count(s1, slot, b) == slot_count(s2, slot, b),
{
    assert forall|slot: int, b: bool| #[trigger] slot_count(s1, slot, b) == slot_count(
        s2,
        slot,
        b,
    ) by {
        let f = tally_step(slot, b);
        assert(commutative_foldr(f));
        lemma_fold_right_permutation(s1, s2, f, 0);
        lemma_slot_count_fold(s1, 0, slot, b);
        lemma_slot_count_fold(s2, 0, slot, b);
    }
}

/// One whole-file accumulation step at `(slot, b)`, as a fold operator.
spec fn result_count_step(slot: int, b: bool) -> spec_fn(
    Result<SampleBuffer, PipelineError>,
    int,
) -> int {
    |r: Result<SampleBuffer, PipelineError>, acc: int| acc + slot_count(result_samples(r), slot, b)
}

proof fn lemma_all_samples_fold(
    rs: Seq<Result<SampleBuffer, PipelineError>>,
    v: int,
    slot: int,
    b: bool,
)
    ensures
        rs.fold_right(result_count_step(slot, b), v) == v + slot_count(all_samples(rs), slot, b),
    decreases rs.len(),
{
    if rs.len() > 0 {
        lemma_all_samples_fold(
            rs.drop_last(),
            result_count_step(slot, b)(rs.last(), v),
            slot,
            b,
        );
        lemma_slot_count_concat(all_samples(rs.drop_last()), result_samples(rs.last()), slot, b);
    }
}

/// A run is order-independent in its file list: two runs whose per-file
/// results are the same multiset — the same files listed in another order —
/// produce equal counters everywhere.
pub proof fn lemma_run_order_independent(
    rs1: Seq<Result<SampleBuffer, PipelineError>>,
    rs2: Seq<Result<SampleBuffer, PipelineError>>,
)
    requires
        rs1.to_multiset() == rs2.to_multiset(),
    ensures
        forall|slot: int, b: bool|
            #[trigger] slot_count(all_samples(rs1), slot, b) == slot_count(
                all_samples(rs2),
                slot,
                b,
            ),
{
    assert forall|slot: int, b: bool| #[trigger] slot_count(all_samples(rs1), slot, b)
        == slot_count(all_samples(rs2), slot, b) by {
        let f = result_count_step(slot, b);
        assert(commutative_foldr(f));
        lemma_fold_right_permutation(rs1, rs2, f, 0);
        lemma_all_samples_fold(rs1, 0, slot, b);
        lemma_all_samples_fold(rs2, 0, slot, b);
    }
}

/// One merge step at `(slot, b)`, as a fold operator.
spec fn view_count_step(slot: int, b: bool) -> spec_fn((Seq<u64>, Seq<u64>), int) -> int {
    |x: (Seq<u64>, Seq<u64>), acc: int| acc + view_count(x, slot, b)
}

proof fn lemma_merged_count_fold(hs: Seq<(Seq<u64>, Seq<u64>)>, v: int, slot: int, b: bool)
    ensures
        hs.fold_right(view_count_step(slot, b), v) == v + merged_count(hs, slot, b),
    decreases hs.len(),
{
    if hs.len() > 0 {
        lemma_merged_count_fold(hs.drop_last(), view_count_step(slot, b)(hs.last(), v), slot, b);
    }
}

/// The merge of local histograms is order-independent: two collections of
/// local histogram views that are the same multiset — tasks joined in any
/// completion order, merged incrementally or in one final pass — merge to
/// equal counters everywhere.
pub proof fn lemma_merge_order_independent(
    hs1: Seq<(Seq<u64>, Seq<u64>)>,
    hs2: Seq<(Seq<u64>, Seq<u64>)>,
)
    requires
        hs1.to_multiset() == hs2.to_multiset(),
    ensures
        forall|slot: int, b: bool|
            #[trigger] merged_count(hs1, slot, b) == merged_count(hs2, slot, b),
{
    assert forall|slot: int, b: bool| #[trigger] merged_count(hs1, slot, b) == merged_count(
        hs2,
        slot,
        b,
    ) by {
        let f = view_count_step(slot, b);
        assert(commutative_foldr(f));
        lemma_fold_right_permutation(hs1, hs2, f, 0);
        lemma_merged_count_fold(hs1, 0, slot, b);
        lemma_merged_count_fold(hs2, 0, slot, b);
    }
}

/// The value rebuilt from the first `n` bit observations of a sample:
/// Σ of `bit_value · 2^bit_index` over them.
pub open spec fn reconstructed(s: Sample, n: nat) -> nat
    decreases n,
{
    if n == 0 {
        0
    } else {
        reconstructed(s, (n - 1) as nat) + if s.bit((n - 1) as nat) {
            pow2((n - 1) as nat)
        } else {
            0
        }
    }
}

proof fn lemma_reconstructed_low_bits(s: Sample, n: nat)
    requires
        n <= 16,
    ensures
        reconstructed(s, n) == (s.spec_val() as u32) & (((1u32 << (n as u32)) - 1) as u32),
    decreases n,
{
    let v: u16 = s.spec_val();
    if n == 0 {
        assert((v as u32) & (((1u32 << 0u32) - 1) as u32) == 0) by (bit_vector);
    } else {
        lemma_reconstructed_low_bits(s, (n - 1) as nat);
        let c: u16 = (n - 1) as u16;
        let c32: u32 = (n - 1) as u32;
        assert((v as u32) & (((1u32 << (c32 + 1)) - 1) as u32) == ((v as u32) & (((1u32 << c32) - 1)
            as u32)) + ((((v as u32) >> c32) & 1u32) << c32)) by (bit_vector)
            requires
                c32 < 16,
        ;
        assert(((v as u32) >> (c as u32)) & 1u32 == ((v >> c) & 1u16) as u32) by (bit_vector)
            requires
                c < 16,
        ;
        assert(c as u32 == c32);
        lemma_u32_pow2_no_overflow(c32 as nat);
        if s.bit((n - 1) as nat) {
            assert((v >> c) & 1u16 == 1u16);
            assert(((v as u32) >> c32) & 1u32 == 1u32);
            lemma_u32_shl_is_mul(1u32, c32);
            assert((1u32 << c32) == pow2(c32 as nat));
        } else {
            assert((v >> c) & 1u16 == 0u16) by (bit_vector)
                requires
                    (v >> c) & 1u16 != 1u16,
            ;
            assert(((v as u32) >> c32) & 1u32 == 0u32);
            assert((0u32 << c32) == 0u32) by (bit_vector)
                requires
                    c32 < 32,
            ;
        }
        assert(c32 as nat == (n - 1) as nat);
    }
}

/// Bit-enumerator round trip: for every representable 8-bit and 16-bit
/// sample, Σ of `bit_value · 2^bit_index` over its enumerated observations
/// reproduces the sample's value exactly.
pub proof fn lemma_bits_round_trip(s: Sample)
    ensures
        reconstructed(s, s.spec_width()) == s.spec_val(),
{
    let v: u16 = s.spec_val();
    match s {
        Sample::U8(_) => {
            lemma_reconstructed_low_bits(s, 8);
            assert((v as u32) & (((1u32 << 8u32) - 1) as u32) == v as u32) by (bit_vector)
                requires
                    v < 0x100,
            ;
        },
        Sample::U16(_) => {
            lemma_reconstructed_low_bits(s, 16);
            assert((v as u32) & (((1u32 << 16u32) - 1) as u32) == v as u32) by (bit_vector);
        },
    }
}

} // verus!
