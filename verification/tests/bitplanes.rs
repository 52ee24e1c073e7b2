use bitplanes::histogram::{merge, merge_all, Histogram, SampleBuffer};
use bitplanes::pipeline::{aggregate, file_histogram, PipelineError};
use bitplanes::sample::Sample;

#[test]
fn test_enumerate_bits() {
    let mut counts: [u64; 16] = [0; 16];
    let v1 = Sample::U8(0b0110_1010);

    let mut e = v1.enumerate_bits();
    while let Some((i, b)) = e.next() {
        counts[15 - (i as usize * 2 + b as usize)] += 1;
    }

    assert_eq!(counts, [0, 1, 1, 0, 1, 0, 0, 1, 1, 0, 0, 1, 1, 0, 0, 1]);
}

#[test]
fn enumerator_yields_ascending_observations() {
    let mut e = Sample::U8(0b0110_1010).enumerate_bits();
    let mut got: Vec<(u32, bool)> = Vec::new();
    while let Some(obs) = e.next() {
        got.push(obs);
    }
    let expected = vec![
        (0, false),
        (1, true),
        (2, false),
        (3, true),
        (4, false),
        (5, true),
        (6, true),
        (7, false),
    ];
    assert_eq!(got, expected);
    // the walk is not restartable: once drained it stays drained
    assert_eq!(e.next(), None);
    assert_eq!(e.next(), None);
}

#[test]
fn eight_bit_sample_touches_slots_eight_to_fifteen() {
    // the 8-bit sample 0b0110_1010 lands four one-bits and four zero-bits
    // in slots 8..=15 and leaves slots 0..=7 untouched
    let h = file_histogram(&SampleBuffer::U8(vec![0b0110_1010]));
    assert_eq!(h.zeros, vec![0, 0, 0, 0, 0, 0, 0, 0, 1, 0, 0, 1, 0, 1, 0, 1]);
    assert_eq!(h.ones, vec![0, 0, 0, 0, 0, 0, 0, 0, 0, 1, 1, 0, 1, 0, 1, 0]);
    let total: u64 = h.zeros.iter().sum::<u64>() + h.ones.iter().sum::<u64>();
    assert_eq!(total, 8);
}

#[test]
fn sixteen_bit_sample_touches_all_slots() {
    // the single 16-bit sample 0x0001 puts one one-bit in slot 15 and one
    // zero-bit in every slot 0..=14
    let h = file_histogram(&SampleBuffer::U16(vec![0x0001]));
    assert_eq!(h.ones, vec![0, 0, 0, 0, 0, 0, 0, 0, 0, 0, 0, 0, 0, 0, 0, 1]);
    assert_eq!(h.zeros, vec![1, 1, 1, 1, 1, 1, 1, 1, 1, 1, 1, 1, 1, 1, 1, 0]);
}

#[test]
fn total_observations_equal_total_width() {
    // three 8-bit samples and two 16-bit samples: 3*8 + 2*16 observations
    let results = vec![
        Ok(SampleBuffer::U8(vec![0, 106, 255])),
        Ok(SampleBuffer::U16(vec![0xffff, 0x1234])),
    ];
    let h = aggregate(&results).unwrap();
    let total: u64 = h.zeros.iter().sum::<u64>() + h.ones.iter().sum::<u64>();
    assert_eq!(total, 3 * 8 + 2 * 16);
}

#[test]
fn aggregate_is_order_independent() {
    let a = SampleBuffer::U8(vec![1, 2, 3, 250]);
    let b = SampleBuffer::U16(vec![0, 0xabcd, 77]);
    let c = SampleBuffer::U8(vec![]);
    let first = aggregate(&vec![Ok(a.clone()), Ok(b.clone()), Ok(c.clone())]).unwrap();
    let second = aggregate(&vec![Ok(c), Ok(b), Ok(a)]).unwrap();
    assert_eq!(first.zeros, second.zeros);
    assert_eq!(first.ones, second.ones);
}

#[test]
fn bits_round_trip_all_values() {
    for v in 0u16..=255 {
        let mut e = Sample::U8(v as u8).enumerate_bits();
        let mut rebuilt: u32 = 0;
        while let Some((i, b)) = e.next() {
            rebuilt += (b as u32) << i;
        }
        assert_eq!(rebuilt, v as u32);
    }
    for v in 0u32..=0xffff {
        let mut e = Sample::U16(v as u16).enumerate_bits();
        let mut rebuilt: u32 = 0;
        while let Some((i, b)) = e.next() {
            rebuilt += (b as u32) << i;
        }
        assert_eq!(rebuilt, v);
    }
}

#[test]
fn empty_input_gives_all_zero_histogram() {
    let results: Vec<Result<SampleBuffer, PipelineError>> = vec![];
    let h = aggregate(&results).unwrap();
    assert_eq!(h.zeros, vec![0; 16]);
    assert_eq!(h.ones, vec![0; 16]);
}

#[test]
fn one_failing_file_fails_the_whole_run() {
    let results = vec![
        Ok(SampleBuffer::U8(vec![1, 2, 3])),
        Err(PipelineError::Decode),
        Ok(SampleBuffer::U16(vec![9, 9])),
    ];
    assert_eq!(aggregate(&results).unwrap_err(), PipelineError::Decode);
}

#[test]
fn each_failure_kind_propagates() {
    let open_failure: Vec<Result<SampleBuffer, PipelineError>> =
        vec![Err(PipelineError::FileOpen)];
    assert_eq!(aggregate(&open_failure).unwrap_err(), PipelineError::FileOpen);
    let decode_failure: Vec<Result<SampleBuffer, PipelineError>> =
        vec![Err(PipelineError::Decode)];
    assert_eq!(aggregate(&decode_failure).unwrap_err(), PipelineError::Decode);
    let width_failure: Vec<Result<SampleBuffer, PipelineError>> =
        vec![Ok(SampleBuffer::U8(vec![5])), Err(PipelineError::UnsupportedWidth)];
    assert_eq!(aggregate(&width_failure).unwrap_err(), PipelineError::UnsupportedWidth);
}

#[test]
fn merge_adds_slot_wise() {
    let mut global = file_histogram(&SampleBuffer::U8(vec![0xff]));
    let local = file_histogram(&SampleBuffer::U16(vec![0x0001]));
    assert!(merge(&mut global, &local));
    // 0xff: one-bits in slots 8..=15; 0x0001: one-bit in slot 15, zero-bits
    // in slots 0..=14
    assert_eq!(global.ones, vec![0, 0, 0, 0, 0, 0, 0, 0, 1, 1, 1, 1, 1, 1, 1, 2]);
    assert_eq!(global.zeros, vec![1, 1, 1, 1, 1, 1, 1, 1, 1, 1, 1, 1, 1, 1, 1, 0]);
}

#[test]
fn merge_refuses_overflow_and_leaves_global_unchanged() {
    let mut global = Histogram::new();
    global.ones[15] = u64::MAX;
    let local = file_histogram(&SampleBuffer::U16(vec![0x0001]));
    assert!(!merge(&mut global, &local));
    assert_eq!(global.ones[15], u64::MAX);
    assert_eq!(global.zeros, vec![0; 16]);
}

#[test]
fn merge_all_reduces_every_local_histogram() {
    let locals = vec![
        file_histogram(&SampleBuffer::U8(vec![0b0110_1010])),
        file_histogram(&SampleBuffer::U16(vec![0x0001])),
        Histogram::new(),
    ];
    let h = merge_all(&locals).unwrap();
    let direct = aggregate(&vec![
        Ok::<SampleBuffer, PipelineError>(SampleBuffer::U8(vec![0b0110_1010])),
        Ok(SampleBuffer::U16(vec![0x0001])),
    ])
    .unwrap();
    assert_eq!(h.zeros, direct.zeros);
    assert_eq!(h.ones, direct.ones);
}

#[test]
fn merge_all_reports_overflow_as_none() {
    let mut big = Histogram::new();
    big.zeros[3] = u64::MAX;
    let locals = vec![big, file_histogram(&SampleBuffer::U16(vec![0]))];
    assert!(merge_all(&locals).is_none());
}

#[test]
fn report_returns_both_columns_in_slot_order() {
    let h = file_histogram(&SampleBuffer::U16(vec![0x0001]));
    let (zeros, ones) = h.into_report();
    assert_eq!(zeros, vec![1, 1, 1, 1, 1, 1, 1, 1, 1, 1, 1, 1, 1, 1, 1, 0]);
    assert_eq!(ones, vec![0, 0, 0, 0, 0, 0, 0, 0, 0, 0, 0, 0, 0, 0, 0, 1]);
}

#[test]
fn sample_widths() {
    assert_eq!(Sample::U8(0).width(), 8);
    assert_eq!(Sample::U16(0).width(), 16);
}
