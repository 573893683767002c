use debuzzy::filter::{Differentiator, Filter, Integrator, MovingAverage};
use debuzzy::ratio::Ratio;
use debuzzy::record::{block_plan, transform_blocks, BlockPlan, RenderError};
use debuzzy::sampler::{Const, Line, Record, Signal, Sine};

fn ratio(num: i64, den: i64) -> Ratio {
    Ratio::new(num, den).unwrap()
}

fn whole(n: i32) -> Ratio {
    Ratio::whole(n)
}

fn buffer(values: &[i32]) -> Record {
    Record { sample_rate: whole(1), samples: values.iter().map(|v| whole(*v)).collect() }
}

#[test]
fn a_rendered_constant_is_the_constant_in_every_sample() {
    let record = Record::record(Const::new(ratio(1, 2)), whole(100), whole(1)).unwrap();
    assert_eq!(record.samples.len(), 100);
    assert_eq!(record.sample_rate, whole(100));
    for sample in record.samples.iter() {
        assert_eq!(*sample, ratio(1, 2));
    }
}

#[test]
fn a_buffer_is_silent_outside_its_time() {
    let record = Record::record(Const::new(ratio(1, 2)), whole(100), whole(1)).unwrap();
    assert_eq!(record.sample(&whole(0)), Some(ratio(1, 2)));
    assert_eq!(record.sample(&ratio(99, 100)), Some(ratio(1, 2)));
    assert_eq!(record.sample(&ratio(999, 1000)), Some(ratio(1, 2)));
    assert_eq!(record.sample(&whole(1)), Some(whole(0)));
    assert_eq!(record.sample(&whole(2)), Some(whole(0)));
    assert_eq!(record.sample(&ratio(-1, 1000)), Some(whole(0)));
    assert_eq!(record.sample(&whole(-5)), Some(whole(0)));
    let signal = Signal::Record(record);
    assert_eq!(signal.sample(&ratio(1, 2)), Some(ratio(1, 2)));
    assert_eq!(signal.sample(&ratio(3, 2)), Some(whole(0)));
    assert_eq!(signal.sample(&ratio(-1, 2)), Some(whole(0)));
}

#[test]
fn the_sample_at_an_index_is_the_value_at_its_time() {
    let record = Record::record(Line::new(whole(0), whole(1)), whole(4), whole(1)).unwrap();
    assert_eq!(record.samples, vec![whole(0), ratio(1, 4), ratio(1, 2), ratio(3, 4)]);
    assert_eq!(record.sample(&ratio(3, 8)), Some(ratio(1, 4)));
    assert_eq!(record.sample(&ratio(1, 2)), Some(ratio(1, 2)));
}

#[test]
fn the_number_of_samples_is_rounded_down() {
    let record = Record::record(Const::new(whole(1)), whole(3), ratio(1, 2)).unwrap();
    assert_eq!(record.samples.len(), 1);
    let record = Record::record(Const::new(whole(1)), ratio(1, 2), whole(5)).unwrap();
    assert_eq!(record.samples.len(), 2);
    let record = Record::record(Const::new(whole(1)), whole(10), whole(-1)).unwrap();
    assert_eq!(record.samples.len(), 0);
    let record = Record::record(Const::new(whole(1)), whole(10), whole(0)).unwrap();
    assert_eq!(record.samples.len(), 0);
    let record = Record::record(Const::new(whole(1)), whole(-10), whole(1)).unwrap();
    assert_eq!(record.samples.len(), 0);
}

#[test]
fn rendering_at_rate_zero_is_refused() {
    assert_eq!(
        Record::record(Const::new(whole(1)), whole(0), whole(1)),
        Err(RenderError::ZeroRate)
    );
}

#[test]
fn rendering_what_has_no_exact_value_is_refused() {
    assert_eq!(
        Record::record(Sine::sin(whole(440)), whole(10), whole(1)),
        Err(RenderError::Inexact { index: 0 })
    );
    let late = debuzzy::sampler::Limit::new(Sine::sin(whole(1)), ratio(1, 2), whole(1)).unwrap();
    assert_eq!(
        Record::record(late, whole(4), whole(1)),
        Err(RenderError::Inexact { index: 2 })
    );
}

#[test]
fn rendering_beyond_the_limit_is_refused() {
    let big = ratio(debuzzy::ratio::LIMIT, 1);
    assert_eq!(Record::record(Const::new(whole(1)), big, whole(2)), Err(RenderError::OutOfRange));
}

#[test]
fn an_integrator_sums_up() {
    let mut record = buffer(&[1, 2, 3]);
    assert_eq!(record.apply_filter(Integrator::new()), Ok(()));
    assert_eq!(record.samples, vec![whole(1), whole(3), whole(6)]);
    assert_eq!(record.sample_rate, whole(1));
}

#[test]
fn a_differentiator_takes_differences() {
    let mut record = buffer(&[1, 3, 6]);
    assert_eq!(record.apply_filter(Differentiator::new()), Ok(()));
    assert_eq!(record.samples, vec![whole(1), whole(2), whole(3)]);
}

#[test]
fn a_moving_average_gives_up_one_sample_for_each_new_one() {
    let mut record = buffer(&[2, 4, 6, 8]);
    assert_eq!(record.apply_filter(MovingAverage::new(2)), Ok(()));
    assert_eq!(record.samples, vec![whole(2), whole(3), whole(5), whole(6)]);
    let mut filter = MovingAverage::new(3);
    assert_eq!(filter.apply(whole(1)), Some(whole(1)));
    assert_eq!(filter.apply(whole(2)), Some(ratio(3, 2)));
    assert_eq!(filter.apply(whole(3)), Some(whole(2)));
    assert_eq!(filter.apply(whole(4)), Some(whole(3)));
}

#[test]
fn a_filter_that_fails_leaves_the_buffer() {
    let big = ratio(debuzzy::ratio::LIMIT, 1);
    let mut record = Record { sample_rate: whole(1), samples: vec![whole(1), big, whole(3)] };
    assert_eq!(record.apply_filter(Integrator::new()), Err(RenderError::Inexact { index: 1 }));
    assert_eq!(record.samples, vec![whole(1), big, whole(3)]);
    let mut filter = Integrator::new();
    assert_eq!(filter.apply(big), Some(big));
    assert_eq!(filter.apply(whole(1)), None);
    assert_eq!(filter.apply(whole(-1)), big.sub(&whole(1)));
}

#[test]
fn blocks_are_twice_the_spectrum_less_two() {
    assert_eq!(block_plan(10, 3), Ok(BlockPlan { block: 4, blocks: 3, padded: 12 }));
    assert_eq!(block_plan(8, 3), Ok(BlockPlan { block: 4, blocks: 2, padded: 8 }));
    assert_eq!(block_plan(0, 3), Ok(BlockPlan { block: 4, blocks: 0, padded: 0 }));
    assert_eq!(block_plan(1, 2), Ok(BlockPlan { block: 2, blocks: 1, padded: 2 }));
    assert_eq!(block_plan(5, 513), Ok(BlockPlan { block: 1024, blocks: 1, padded: 1024 }));
}

#[test]
fn a_spectrum_of_fewer_than_two_bins_is_refused() {
    assert_eq!(block_plan(10, 1), Err(RenderError::KernelTooShort));
    assert_eq!(block_plan(10, 0), Err(RenderError::KernelTooShort));
    assert_eq!(
        transform_blocks(&vec![1, 2, 3], 0, 1, |block: Vec<i32>| block),
        Err(RenderError::KernelTooShort)
    );
}

#[test]
fn blocks_beyond_the_limit_are_refused() {
    assert_eq!(block_plan(10, usize::MAX), Err(RenderError::OutOfRange));
    assert_eq!(block_plan(usize::MAX, 3), Err(RenderError::OutOfRange));
    assert_eq!(
        block_plan(usize::MAX - 3, 3),
        Ok(BlockPlan { block: 4, blocks: (usize::MAX - 3) / 4, padded: usize::MAX - 3 })
    );
}

#[test]
fn the_identity_gives_back_the_padded_buffer() {
    let out = transform_blocks(&vec![1, 2, 3, 4, 5], 0, 2, |block: Vec<i32>| block);
    assert_eq!(out, Ok(vec![1, 2, 3, 4, 5, 0]));
    let out = transform_blocks(&vec![1, 2, 3, 4], 0, 2, |block: Vec<i32>| block);
    assert_eq!(out, Ok(vec![1, 2, 3, 4]));
    let out = transform_blocks(&Vec::<i32>::new(), 0, 2, |block: Vec<i32>| block);
    assert_eq!(out, Ok(vec![]));
}

#[test]
fn every_block_is_transformed_by_itself() {
    let reverse = |mut block: Vec<i32>| {
        block.reverse();
        block
    };
    let out = transform_blocks(&vec![1, 2, 3, 4, 5], 9, 3, reverse);
    assert_eq!(out, Ok(vec![4, 3, 2, 1, 9, 9, 9, 5]));
}

#[test]
fn a_transform_of_another_length_is_refused() {
    let shorten = |mut block: Vec<i32>| {
        if block[0] == 3 {
            block.pop();
        }
        block
    };
    let out = transform_blocks(&vec![1, 2, 3, 4, 5], 0, 2, shorten);
    assert_eq!(out, Err(RenderError::SizeMismatch { block: 1 }));
}

#[test]
fn convolving_a_buffer_with_the_identity_reproduces_it() {
    let mut record =
        Record::record(Line::new(whole(1), ratio(1, 3)), whole(5), whole(1)).unwrap();
    let before = record.samples.clone();
    assert_eq!(record.convolve(2, |block: Vec<Ratio>| block), Ok(()));
    assert_eq!(record.samples.len(), 6);
    assert_eq!(&record.samples[..5], &before[..]);
    assert_eq!(record.samples[5], whole(0));
    assert_eq!(record.sample_rate, whole(5));
}

#[test]
fn convolving_with_a_failing_transform_leaves_the_buffer() {
    let mut record = buffer(&[1, 2, 3]);
    assert_eq!(
        record.convolve(2, |_block: Vec<Ratio>| Vec::new()),
        Err(RenderError::SizeMismatch { block: 0 })
    );
    assert_eq!(record.samples, vec![whole(1), whole(2), whole(3)]);
    assert_eq!(record.convolve(1, |block: Vec<Ratio>| block), Err(RenderError::KernelTooShort));
}

#[test]
fn an_impulse_response_is_read_low_byte_first() {
    let bytes = [0xff, 0x7f, 0x01, 0x80, 0x00, 0x00, 0x01, 0x00, 0xff, 0xff, 0x00, 0x80];
    let response = debuzzy::kernel::impulse_response(&bytes).unwrap();
    assert_eq!(
        response,
        vec![
            whole(1),
            whole(-1),
            whole(0),
            ratio(1, 32767),
            ratio(-1, 32767),
            ratio(-32768, 32767),
        ]
    );
    assert_eq!(debuzzy::kernel::impulse_response(&[]), Ok(vec![]));
}

#[test]
fn an_impulse_response_that_ends_within_a_sample_is_refused() {
    assert_eq!(
        debuzzy::kernel::impulse_response(&[1, 2, 3]),
        Err(debuzzy::kernel::ResourceError::Truncated { length: 3 })
    );
    assert_eq!(
        debuzzy::kernel::impulse_response(&[1]),
        Err(debuzzy::kernel::ResourceError::Truncated { length: 1 })
    );
}
