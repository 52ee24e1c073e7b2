//! The whole-run pipeline over already-decoded per-file results.
//!
//! Each input file yields either a decoded sample buffer or a failure.
//! A single failing file makes the whole run fail: a histogram built while
//! silently omitting a declared input would be meaningless, so partial
//! results are never surfaced.

use vstd::prelude::*;

use crate::histogram::{
    count_bin_histogram, lemma_slot_count_concat, lemma_slot_count_le_len, slot_count, Histogram,
    SampleBuffer,
};
use crate::sample::Sample;

verus! {

/// Why a file task failed: the path could not be opened or read, the
/// container was malformed, or the decoded sample width was neither 8 nor
/// 16 bits.
#[derive(Clone, Copy, PartialEq, Eq, Structural, Debug)]
pub enum PipelineError {
    FileOpen,
    Decode,
    UnsupportedWidth,
}

/// The samples a per-file result hands to the accumulator: the buffer's
/// contents for a success, nothing for a failure.
pub open spec fn result_samples(r: Result<SampleBuffer, PipelineError>) -> Seq<Sample> {
    match r {
        Ok(buf) => buf.samples(),
        Err(_) => Seq::empty(),
    }
}

/// All samples of a run, in file order.
pub open spec fn all_samples(rs: Seq<Result<SampleBuffer, PipelineError>>) -> Seq<Sample>
    decreases rs.len(),
{
    if rs.len() == 0 {
        Seq::empty()
    } else {
        all_samples(rs.drop_last()) + result_samples(rs.last())
    }
}

/// One more file's samples append to the run's stream.
proof fn lemma_all_samples_take_step(rs: Seq<Result<SampleBuffer, PipelineError>>, k: int)
    requires
        0 <= k < rs.len(),
    ensures
        all_samples(rs.take(k + 1)) == all_samples(rs.take(k)) + result_samples(rs[k]),
{
    assert(rs.take(k + 1).drop_last() =~= rs.take(k));
    assert(rs.take(k + 1).last() == rs[k]);
}

/// A prefix of the run never holds more samples than the whole run.
proof fn lemma_all_samples_take_len_le(rs: Seq<Result<SampleBuffer, PipelineError>>, k: int)
    requires
        0 <= k <= rs.len(),
    ensures
        all_samples(rs.take(k)).len() <= all_samples(rs).len(),
    decreases rs.len() - k,
{
    if k == rs.len() {
        assert(rs.take(k) =~= rs);
    } else {
        lemma_all_samples_take_step(rs, k);
        lemma_all_samples_take_len_le(rs, k + 1);
    }
}

/// Build one file's local histogram from its decoded sample buffer. The
/// local histogram is private to the file's task until it is merged.
pub fn file_histogram(buf: &SampleBuffer) -> (h: Histogram)
    ensures
        h.wf(),
        forall|slot: int, b: bool|
            0 <= slot < 16 ==> #[trigger] h.count(slot, b) == slot_count(buf.samples(), slot, b),
{
    let mut h = Histogram::new();
    let n: usize = match buf {
        SampleBuffer::U8(v) => v.len(),
        SampleBuffer::U16(v) => v.len(),
    };
    proof {
        assert(buf.samples().len() == n);
        assert forall|slot: int, b: bool| 0 <= slot < 16 implies #[trigger] h.count(slot, b)
            + slot_count(buf.samples(), slot, b) <= u64::MAX by {
            lemma_slot_count_le_len(buf.samples(), slot, b);
        }
    }
    count_bin_histogram(buf, &mut h);
    h
}

/// Run the whole aggregation over every file's outcome, in file order.
///
/// If any file failed, the run fails with one of the reported failures and
/// no histogram is surfaced, no matter how many other files succeeded.
/// Otherwise the returned histogram counts, at each canonical slot and bit
/// value, every bit observation of every sample of every file.
pub fn aggregate(results: &Vec<Result<SampleBuffer, PipelineError>>) -> (r: Result<
    Histogram,
    PipelineError,
>)
    requires
        (forall|j: int| 0 <= j < results@.len() ==> (#[trigger] results@[j]) is Ok)
            ==> all_samples(results@).len() <= u64::MAX,
    ensures
        r is Err <==> (exists|j: int| 0 <= j < results@.len() && (#[trigger] results@[j]) is Err),
        r matches Err(e) ==> (exists|j: int|
            0 <= j < results@.len() && ((#[trigger] results@[j]) matches Err(e2) && e2 == e)),
        r matches Ok(h) ==> h.wf() && (forall|slot: int, b: bool|
            0 <= slot < 16 ==> #[trigger] h.count(slot, b) == slot_count(
                all_samples(results@),
                slot,
                b,
            )),
{
    let n = results.len();
    let mut i: usize = 0;
    while i < n
        invariant
            n == results@.len(),
            i <= n,
            forall|j: int| 0 <= j < i ==> (#[trigger] results@[j]) is Ok,
        decreases n - i,
    {
        match &results[i] {
            Err(e) => {
                return Err(*e);
            },
            Ok(_) => {},
        }
        i = i + 1;
    }
    let mut h = Histogram::new();
    let mut i: usize = 0;
    while i < n
        invariant
            n == results@.len(),
            i <= n,
            forall|j: int| 0 <= j < n ==> (#[trigger] results@[j]) is Ok,
            all_samples(results@).len() <= u64::MAX,
            h.wf(),
            forall|slot: int, b: bool|
                0 <= slot < 16 ==> #[trigger] h.count(slot, b) == slot_count(
                    all_samples(results@.take(i as int)),
                    slot,
                    b,
                ),
        decreases n - i,
    {
        match &results[i] {
            Ok(buf) => {
                proof {
                    assert forall|slot: int, b: bool| 0 <= slot < 16 implies #[trigger] h.count(
                        slot,
                        b,
                    ) + slot_count(buf.samples(), slot, b) <= u64::MAX by {
                        lemma_all_samples_take_step(results@, i as int);
                        lemma_all_samples_take_len_le(results@, i + 1);
                        lemma_slot_count_concat(
                            all_samples(results@.take(i as int)),
                            buf.samples(),
                            slot,
                            b,
                        );
                        lemma_slot_count_le_len(all_samples(results@.take(i + 1)), slot, b);
                    }
                }
                count_bin_histogram(buf, &mut h);
                proof {
                    assert forall|slot: int, b: bool| 0 <= slot < 16 implies #[trigger] h.count(
                        slot,
                        b,
                    ) == slot_count(all_samples(results@.take(i + 1)), slot, b) by {
                        lemma_all_samples_take_step(results@, i as int);
                        lemma_slot_count_concat(
                            all_samples(results@.take(i as int)),
                            buf.samples(),
                            slot,
                            b,
                        );
                    }
                }
            },
            Err(_) => {
                proof {
                    assert(false);
                }
            },
        }
        i = i + 1;
    }
    proof {
        assert(results@.take(n as int) =~= results@);
    }
    Ok(h)
}

} // verus!
