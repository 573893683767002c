//! The renderer: samples a signal into a buffer at a fixed rate, and applies
//! a transform to a buffer block by block.

use crate::filter::Filter;
use crate::node::{held, Node};
use crate::ratio::{lemma_in_range_representable, quotient, Ratio};
use crate::sampler::{values_of, Record, Signal};
use vstd::prelude::*;

verus! {

/// Why a buffer could not be rendered or transformed.
#[derive(Clone, Copy, Debug, PartialEq, Eq, Structural)]
pub enum RenderError {
    /// A sample rate of zero.
    ZeroRate,
    /// A step, or a number of samples, that is beyond the limits.
    OutOfRange,
    /// The sample at `index` has no exact value within the limits.
    Inexact { index: usize },
    /// A kernel spectrum of fewer than two bins.
    KernelTooShort,
    /// The transform of the block `block` has another length than the block.
    SizeMismatch { block: usize },
}

/// The number of samples in `duration` seconds at `rate` samples a second.
pub open spec fn sample_count(rate: real, duration: real) -> int {
    if (duration * rate).floor() < 0 {
        0
    } else {
        (duration * rate).floor()
    }
}

/// The sample `i` of the signal `node` where `step` seconds lie between samples.
pub open spec fn sample_value(node: Node, step: real, i: int) -> Option<real> {
    match held((i as real) * step) {
        Some(t) => node.exact_at(t),
        None => None,
    }
}

/// The first `n` samples of `node`, or the first of them that has no exact value.
pub open spec fn samples_taken(node: Node, step: real, n: int) -> Result<Seq<real>, RenderError>
    decreases n,
{
    if n <= 0 {
        Ok(Seq::empty())
    } else {
        match samples_taken(node, step, n - 1) {
            Err(e) => Err(e),
            Ok(samples) => match sample_value(node, step, n - 1) {
                Some(v) => Ok(samples.push(v)),
                None => Err(RenderError::Inexact { index: (n - 1) as usize }),
            },
        }
    }
}

/// The samples of `node` over `duration` seconds from time zero, `rate` a
/// second: the sample `i` is the value at the time `i / rate`.
pub open spec fn rendered(node: Node, rate: real, duration: real) -> Result<Seq<real>, RenderError> {
    if rate == 0real {
        Err(RenderError::ZeroRate)
    } else {
        match (held(1real / rate), held(duration * rate)) {
            (Some(step), Some(_)) => if sample_count(rate, duration) > usize::MAX {
                Err(RenderError::OutOfRange)
            } else {
                samples_taken(node, step, sample_count(rate, duration))
            },
            _ => Err(RenderError::OutOfRange),
        }
    }
}

/// `r` is the outcome `expected`, sample for sample, at the rate `rate`.
pub open spec fn record_is(
    r: Result<Record, RenderError>,
    rate: Ratio,
    expected: Result<Seq<real>, RenderError>,
) -> bool {
    match r {
        Ok(record) => record.sample_rate == rate && expected == Ok::<Seq<real>, RenderError>(
            values_of(record.samples@),
        ),
        Err(e) => expected == Err::<Seq<real>, RenderError>(e),
    }
}

/// The samples that were taken are as many as were asked for, each the exact value at its time.
pub proof fn lemma_samples_taken(node: Node, step: real, n: int)
    requires
        0 <= n,
    ensures
        samples_taken(node, step, n) matches Ok(samples) ==> samples.len() == n && forall|i: int|
            0 <= i < n ==> sample_value(node, step, i) == Some(#[trigger] samples[i]),
    decreases n,
{
    if n > 0 {
        lemma_samples_taken(node, step, n - 1);
    }
}

impl Record {
    /// Samples `sampler` over `duration` seconds from time zero, `sample_rate`
    /// times a second. A negative duration gives an empty buffer.
    pub fn record(sampler: Signal, sample_rate: Ratio, duration: Ratio) -> (r: Result<
        Record,
        RenderError,
    >)
        ensures
            record_is(r, sample_rate, rendered(sampler@, sample_rate@, duration@)),
    {
        if sample_rate.is_zero() {
            return Err(RenderError::ZeroRate);
        }
        let (step, product) = match (Ratio::whole(1).div(&sample_rate), duration.mul(&sample_rate)) {
            (Some(step), Some(product)) => (step, product),
            _ => {
                return Err(RenderError::OutOfRange);
            },
        };
        let whole = product.floor();
        let count: u64 = if whole < 0 {
            0
        } else {
            whole as u64
        };
        if count > usize::MAX as u64 {
            return Err(RenderError::OutOfRange);
        }
        let count: usize = count as usize;
        let mut samples: Vec<Ratio> = Vec::new();
        let mut i: usize = 0;
        assert(values_of(samples@) =~= Seq::<real>::empty());
        while i < count
            invariant
                i <= count,
                count == sample_count(sample_rate@, duration@),
                count <= 0x7fff_ffff_ffff_ffff,
                rendered(sampler@, sample_rate@, duration@) == samples_taken(
                    sampler@,
                    step@,
                    count as int,
                ),
                samples_taken(sampler@, step@, i as int) == Ok::<Seq<real>, RenderError>(
                    values_of(samples@),
                ),
            decreases count - i,
        {
            proof {
                lemma_in_range_representable(i as int, 1);
                assert(quotient(i as int, 1) == i as real) by (nonlinear_arith)
                    requires
                        quotient(i as int, 1) == (i as real) / (1int as real),
                ;
            }
            let index = Ratio::new(i as i64, 1).unwrap();
            let value = match index.mul(&step) {
                Some(t) => sampler.sample(&t),
                None => None,
            };
            match value {
                Some(v) => {
                    let ghost before = values_of(samples@);
                    samples.push(v);
                    assert(values_of(samples@) =~= before.push(v@));
                },
                None => {
                    proof {
                        lemma_taken_fails(sampler@, step@, i + 1, count as int);
                    }
                    return Err(RenderError::Inexact { index: i });
                },
            }
            i = i + 1;
        }
        Ok(Record { sample_rate, samples })
    }
}

/// Where a sample has no exact value, rendering more samples fails at the same sample.
pub proof fn lemma_taken_fails(node: Node, step: real, k: int, n: int)
    requires
        0 < k <= n,
        samples_taken(node, step, k) is Err,
    ensures
        samples_taken(node, step, n) == samples_taken(node, step, k),
    decreases n - k,
{
    if k < n {
        lemma_taken_fails(node, step, k, n - 1);
    }
}

/// How a buffer is cut into blocks.
#[derive(Clone, Copy, Debug, PartialEq, Eq, Structural)]
pub struct BlockPlan {
    /// The length of a block.
    pub block: usize,
    /// The number of blocks.
    pub blocks: usize,
    /// The length of the buffer with its padding.
    pub padded: usize,
}

/// The length of the blocks that go with a kernel spectrum of `spectrum` bins.
pub open spec fn block_length(spectrum: int) -> int {
    2 * (spectrum - 1)
}

/// `plan` cuts a buffer of `samples` samples into blocks for a kernel
/// spectrum of `spectrum` bins: the padded length is the least multiple of
/// the block length that holds the buffer.
pub open spec fn plans(plan: BlockPlan, samples: int, spectrum: int) -> bool {
    &&& plan.block == block_length(spectrum)
    &&& plan.block > 0
    &&& plan.padded == plan.blocks * plan.block
    &&& samples <= plan.padded < samples + plan.block
}

/// Plans the blocks of a buffer of `samples` samples for a kernel spectrum of `spectrum` bins.
pub fn block_plan(samples: usize, spectrum: usize) -> (r: Result<BlockPlan, RenderError>)
    ensures
        match r {
            Ok(plan) => plans(plan, samples as int, spectrum as int),
            Err(RenderError::KernelTooShort) => spectrum < 2,
            Err(RenderError::OutOfRange) => spectrum >= 2 && forall|plan: BlockPlan|
                !plans(plan, samples as int, spectrum as int),
            Err(_) => false,
        },
        spectrum < 2 ==> r is Err,
{
    if spectrum < 2 {
        return Err(RenderError::KernelTooShort);
    }
    let half: usize = spectrum - 1;
    if half > usize::MAX / 2 {
        return Err(RenderError::OutOfRange);
    }
    let block: usize = half * 2;
    let whole: usize = samples / block;
    let rest: usize = samples % block;
    proof {
        vstd::arithmetic::div_mod::lemma_fundamental_div_mod(samples as int, block as int);
    }
    if rest == 0 {
        assert(whole * block == samples) by (nonlinear_arith)
            requires
                samples == block * whole + rest,
                rest == 0,
        ;
        Ok(BlockPlan { block, blocks: whole, padded: samples })
    } else if samples - rest > usize::MAX - block {
        proof {
            assert forall|plan: BlockPlan| !plans(plan, samples as int, spectrum as int) by {
                if plans(plan, samples as int, spectrum as int) {
                    lemma_block_count(
                        plan.blocks as int,
                        whole as int,
                        block as int,
                        rest as int,
                        samples as int,
                    );
                    assert(plan.padded == samples - rest + block) by (nonlinear_arith)
                        requires
                            plan.padded == plan.blocks * block,
                            plan.blocks == whole + 1,
                            samples == block * whole + rest,
                    ;
                }
            }
        }
        Err(RenderError::OutOfRange)
    } else {
        assert((whole + 1) * block == samples - rest + block) by (nonlinear_arith)
            requires
                samples == block * whole + rest,
        ;
        Ok(BlockPlan { block, blocks: whole + 1, padded: samples - rest + block })
    }
}

/// The number of blocks that hold a buffer which the blocks do not divide.
pub proof fn lemma_block_count(blocks: int, whole: int, block: int, rest: int, samples: int)
    requires
        block > 0,
        0 < rest < block,
        samples == block * whole + rest,
        samples <= blocks * block < samples + block,
    ensures
        blocks == whole + 1,
{
    assert(blocks > whole) by (nonlinear_arith)
        requires
            block > 0,
            0 < rest,
            samples == block * whole + rest,
            samples <= blocks * block,
    ;
    assert(blocks < whole + 2) by (nonlinear_arith)
        requires
            block > 0,
            rest < block,
            samples == block * whole + rest,
            blocks * block < samples + block,
    ;
}

/// The buffer `samples` padded with `silence` to the length `n`.
pub open spec fn padded<T>(samples: Seq<T>, silence: T, n: int) -> Seq<T> {
    Seq::new(
        n as nat,
        |i: int|
            if i < samples.len() {
                samples[i]
            } else {
                silence
            },
    )
}

/// The block `k` of the buffer `s` cut into blocks of the length `block`.
pub open spec fn block_of<T>(s: Seq<T>, k: int, block: int) -> Seq<T> {
    s.subrange(k * block, (k + 1) * block)
}

/// The block `k` of `output` is what `transform` made of the block `k` of `input`.
pub open spec fn block_transformed<T, F: Fn(Vec<T>) -> Vec<T>>(
    transform: F,
    input: Seq<T>,
    output: Seq<T>,
    k: int,
    block: int,
) -> bool {
    exists|x: Vec<T>, y: Vec<T>|
        x@ == block_of(input, k, block) && y@ == block_of(output, k, block) && call_ensures(
            transform,
            (x,),
            y,
        )
}

/// `transform` gave the block `k` of `input` another length.
pub open spec fn block_refused<T, F: Fn(Vec<T>) -> Vec<T>>(
    transform: F,
    input: Seq<T>,
    k: int,
    block: int,
) -> bool {
    exists|x: Vec<T>, y: Vec<T>|
        x@ == block_of(input, k, block) && y@.len() != block && call_ensures(transform, (x,), y)
}

/// `r` is an outcome of transforming the buffer `samples` block by block:
/// the padded buffer with every block replaced by what `transform` made of
/// it; or the error that says why there is none.
pub open spec fn blocks_outcome<T, F: Fn(Vec<T>) -> Vec<T>>(
    r: Result<Seq<T>, RenderError>,
    samples: Seq<T>,
    silence: T,
    spectrum: usize,
    transform: F,
) -> bool {
    match r {
        Ok(out) => exists|plan: BlockPlan|
            plans(plan, samples.len() as int, spectrum as int) && out.len() == plan.padded
                && forall|k: int|
                0 <= k < plan.blocks ==> block_transformed(
                    transform,
                    padded(samples, silence, plan.padded as int),
                    out,
                    k,
                    plan.block as int,
                ),
        Err(RenderError::KernelTooShort) => spectrum < 2,
        Err(RenderError::OutOfRange) => spectrum >= 2 && forall|plan: BlockPlan|
            !plans(plan, samples.len() as int, spectrum as int),
        Err(RenderError::SizeMismatch { block }) => exists|plan: BlockPlan|
            plans(plan, samples.len() as int, spectrum as int) && block < plan.blocks
                && block_refused(
                transform,
                padded(samples, silence, plan.padded as int),
                block as int,
                plan.block as int,
            ),
        Err(_) => false,
    }
}

/// Pads the buffer with `silence` to whole blocks and puts in the place of
/// every block what `transform` makes of it; nothing passes from one block to
/// the next. A transform of another length than its block is refused.
pub fn transform_blocks<T: Copy, F: Fn(Vec<T>) -> Vec<T>>(
    samples: &Vec<T>,
    silence: T,
    spectrum: usize,
    transform: F,
) -> (r: Result<Vec<T>, RenderError>)
    requires
        forall|x: Vec<T>| x@.len() == block_length(spectrum as int) ==> call_requires(transform, (x,)),
    ensures
        blocks_outcome(
            match r {
                Ok(out) => Ok(out@),
                Err(e) => Err(e),
            },
            samples@,
            silence,
            spectrum,
            transform,
        ),
{
    let plan = match block_plan(samples.len(), spectrum) {
        Ok(plan) => plan,
        Err(e) => {
            return Err(e);
        },
    };
    let ghost input = padded(samples@, silence, plan.padded as int);
    let mut out: Vec<T> = Vec::new();
    let mut k: usize = 0;
    while k < plan.blocks
        invariant
            k <= plan.blocks,
            plans(plan, samples@.len() as int, spectrum as int),
            input == padded(samples@, silence, plan.padded as int),
            out@.len() == k * plan.block,
            forall|x: Vec<T>|
                x@.len() == block_length(spectrum as int) ==> call_requires(transform, (x,)),
            forall|i: int|
                0 <= i < k ==> block_transformed(transform, input, out@, i, plan.block as int),
        decreases plan.blocks - k,
    {
        proof {
            lemma_block_bounds(k as int, plan.blocks as int, plan.block as int);
        }
        let start: usize = k * plan.block;
        let mut block: Vec<T> = Vec::new();
        let mut j: usize = 0;
        while j < plan.block
            invariant
                j <= plan.block,
                start == k * plan.block,
                start + plan.block <= plan.padded,
                input == padded(samples@, silence, plan.padded as int),
                block@ == input.subrange(start as int, start + j),
            decreases plan.block - j,
        {
            let at: usize = start + j;
            let value = if at < samples.len() {
                samples[at]
            } else {
                silence
            };
            block.push(value);
            assert(block@ =~= input.subrange(start as int, start + j + 1));
            j = j + 1;
        }
        let ghost given = block;
        assert(given@ == block_of(input, k as int, plan.block as int)) by {
            assert((k + 1) * plan.block == start + plan.block) by (nonlinear_arith)
                requires
                    start == k * plan.block,
            ;
        }
        let made = transform(block);
        if made.len() != plan.block {
            assert(block_refused(transform, input, k as int, plan.block as int));
            return Err(RenderError::SizeMismatch { block: k });
        }
        let ghost before = out@;
        let mut j: usize = 0;
        while j < plan.block
            invariant
                j <= plan.block,
                made@.len() == plan.block,
                out@ == before + made@.subrange(0, j as int),
            decreases plan.block - j,
        {
            out.push(made[j]);
            assert(out@ =~= before + made@.subrange(0, j + 1));
            j = j + 1;
        }
        proof {
            assert(made@.subrange(0, plan.block as int) =~= made@);
            assert((k + 1) * plan.block == start + plan.block) by (nonlinear_arith)
                requires
                    start == k * plan.block,
            ;
            assert(block_of(out@, k as int, plan.block as int) =~= made@);
            assert forall|i: int| 0 <= i < k + 1 implies block_transformed(
                transform,
                input,
                out@,
                i,
                plan.block as int,
            ) by {
                if i < k {
                    lemma_block_bounds(i, k as int, plan.block as int);
                    assert(block_transformed(transform, input, before, i, plan.block as int));
                    let (x, y) = choose|x: Vec<T>, y: Vec<T>|
                        x@ == block_of(input, i, plan.block as int) && y@ == block_of(
                            before,
                            i,
                            plan.block as int,
                        ) && call_ensures(transform, (x,), y);
                    assert(block_of(out@, i, plan.block as int) =~= block_of(
                        before,
                        i,
                        plan.block as int,
                    ));
                    assert(x@ == block_of(input, i, plan.block as int) && y@ == block_of(
                        out@,
                        i,
                        plan.block as int,
                    ) && call_ensures(transform, (x,), y));
                } else {
                    assert(given@ == block_of(input, i, plan.block as int) && made@ == block_of(
                        out@,
                        i,
                        plan.block as int,
                    ) && call_ensures(transform, (given,), made));
                }
            }
        }
        k = k + 1;
    }
    assert(plans(plan, samples@.len() as int, spectrum as int) && out@.len() == plan.padded);
    Ok(out)
}

/// The block `k` of `n` blocks lies within them.
pub proof fn lemma_block_bounds(k: int, n: int, block: int)
    requires
        0 <= k < n,
        block > 0,
    ensures
        0 <= k * block,
        (k + 1) * block <= n * block,
        (k + 1) * block == k * block + block,
{
    assert(0 <= k * block && (k + 1) * block <= n * block && (k + 1) * block == k * block + block)
        by (nonlinear_arith)
        requires
            0 <= k < n,
            block > 0,
    ;
}

/// The first `n` samples as a filter that starts in the state `state` gives
/// them, and its state afterwards; or the first sample for which it gives none.
pub open spec fn filtered<F: Filter>(state: F::State, samples: Seq<real>, n: int) -> Result<
    (Seq<real>, F::State),
    RenderError,
>
    decreases n,
{
    if n <= 0 {
        Ok((Seq::empty(), state))
    } else {
        match filtered::<F>(state, samples, n - 1) {
            Err(e) => Err(e),
            Ok((done, before)) => match F::step(before, samples[n - 1]) {
                Some((v, after)) => Ok((done.push(v), after)),
                None => Err(RenderError::Inexact { index: (n - 1) as usize }),
            },
        }
    }
}

/// Where the filter gives no value for a sample, filtering more samples fails at the same sample.
pub proof fn lemma_filtered_fails<F: Filter>(state: F::State, samples: Seq<real>, k: int, n: int)
    requires
        0 < k <= n,
        filtered::<F>(state, samples, k) is Err,
    ensures
        filtered::<F>(state, samples, n) == filtered::<F>(state, samples, k),
    decreases n - k,
{
    if k < n {
        lemma_filtered_fails::<F>(state, samples, k, n - 1);
    }
}

impl Record {
    /// Puts in the place of every sample what `filter` gives for it, in
    /// order. Where the filter gives no value for a sample, the buffer stays
    /// as it is.
    pub fn apply_filter<F: Filter>(&mut self, filter: F) -> (r: Result<(), RenderError>)
        ensures
            final(self).sample_rate == old(self).sample_rate,
            match r {
                Ok(()) => filtered::<F>(
                    filter.state(),
                    values_of(old(self).samples@),
                    old(self).samples@.len() as int,
                ) matches Ok(pair) && pair.0 == values_of(final(self).samples@),
                Err(e) => filtered::<F>(
                    filter.state(),
                    values_of(old(self).samples@),
                    old(self).samples@.len() as int,
                ) == Err::<(Seq<real>, F::State), RenderError>(e) && final(self).samples@ == old(
                    self,
                ).samples@,
            },
    {
        let ghost start = filter.state();
        let ghost given = values_of(self.samples@);
        let mut running = filter;
        let mut output: Vec<Ratio> = Vec::new();
        let mut i: usize = 0;
        assert(values_of(output@) =~= Seq::<real>::empty());
        while i < self.samples.len()
            invariant
                i <= self.samples.len(),
                given == values_of(self.samples@),
                self.samples@ == old(self).samples@,
                self.sample_rate == old(self).sample_rate,
                filtered::<F>(start, given, i as int) == Ok::<(Seq<real>, F::State), RenderError>(
                    (values_of(output@), running.state()),
                ),
                start == filter.state(),
            decreases self.samples.len() - i,
        {
            let sample = self.samples[i];
            assert(given[i as int] == sample@);
            match running.apply(sample) {
                Some(v) => {
                    let ghost before = values_of(output@);
                    output.push(v);
                    assert(values_of(output@) =~= before.push(v@));
                },
                None => {
                    proof {
                        assert(filtered::<F>(start, given, i + 1) == Err::<
                            (Seq<real>, F::State),
                            RenderError,
                        >(RenderError::Inexact { index: i }));
                        lemma_filtered_fails::<F>(start, given, i + 1, self.samples@.len() as int);
                    }
                    return Err(RenderError::Inexact { index: i });
                },
            }
            i = i + 1;
        }
        self.samples = output;
        Ok(())
    }

    /// Transforms the buffer block by block, with blocks of the length that
    /// goes with a kernel spectrum of `spectrum` bins: the buffer is padded
    /// with zeros to whole blocks, and every block replaced by what
    /// `transform` makes of it. On an error the buffer stays as it is.
    pub fn convolve<F: Fn(Vec<Ratio>) -> Vec<Ratio>>(&mut self, spectrum: usize, transform: F) -> (r:
        Result<(), RenderError>)
        requires
            forall|x: Vec<Ratio>|
                x@.len() == block_length(spectrum as int) ==> call_requires(transform, (x,)),
        ensures
            final(self).sample_rate == old(self).sample_rate,
            r is Err ==> final(self).samples@ == old(self).samples@,
            blocks_outcome(
                match r {
                    Ok(()) => Ok(final(self).samples@),
                    Err(e) => Err(e),
                },
                old(self).samples@,
                Ratio::nought(),
                spectrum,
                transform,
            ),
    {
        let silence = Ratio::zero();
        match transform_blocks(&self.samples, silence, spectrum, transform) {
            Ok(out) => {
                assert(blocks_outcome(
                    Ok::<Seq<Ratio>, RenderError>(out@),
                    self.samples@,
                    silence,
                    spectrum,
                    transform,
                ));
                self.samples = out;
                Ok(())
            },
            Err(e) => {
                assert(blocks_outcome(
                    Err::<Seq<Ratio>, RenderError>(e),
                    self.samples@,
                    silence,
                    spectrum,
                    transform,
                ));
                Err(e)
            },
        }
    }
}

} // verus!
