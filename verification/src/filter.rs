//! Filters that take a buffer sample by sample: each holds a state, and
//! gives for every sample a value and the state for the next.

use crate::node::held;
use crate::ratio::Ratio;
use vstd::prelude::*;

verus! {

/// A filter with a state.
pub trait Filter {
    /// What the filter remembers, as values.
    type State;

    /// What the filter remembers.
    spec fn state(&self) -> Self::State;

    /// The value that a filter in the state `state` gives for `sample`, and
    /// its state afterwards; none where exact arithmetic within the limits
    /// does not find them.
    spec fn step(state: Self::State, sample: real) -> Option<(real, Self::State)>;

    /// Takes one sample. Where there is no value for it, the filter stays as it is.
    fn apply(&mut self, sample: Ratio) -> (r: Option<Ratio>)
        ensures
            match r {
                Some(v) => Self::step(old(self).state(), sample@) == Some(
                    (v@, final(self).state()),
                ),
                None => Self::step(old(self).state(), sample@) is None && final(self).state()
                    == old(self).state(),
            },
    ;
}

/// The running sum of the samples.
pub struct Integrator {
    value: Ratio,
}

impl Integrator {
    /// An integrator that has summed nothing.
    pub fn new() -> (r: Self)
        ensures
            r.state() == 0real,
    {
        Self { value: Ratio::whole(0) }
    }
}

impl Filter for Integrator {
    type State = real;

    closed spec fn state(&self) -> real {
        self.value@
    }

    open spec fn step(state: real, sample: real) -> Option<(real, real)> {
        match held(state + sample) {
            Some(sum) => Some((sum, sum)),
            None => None,
        }
    }

    fn apply(&mut self, sample: Ratio) -> (r: Option<Ratio>) {
        match self.value.add(&sample) {
            Some(sum) => {
                self.value = sum;
                Some(sum)
            },
            None => None,
        }
    }
}

/// The difference of each sample from the one before it.
pub struct Differentiator {
    value: Ratio,
}

impl Differentiator {
    /// A differentiator whose last sample is zero.
    pub fn new() -> (r: Self)
        ensures
            r.state() == 0real,
    {
        Self { value: Ratio::whole(0) }
    }
}

impl Filter for Differentiator {
    type State = real;

    closed spec fn state(&self) -> real {
        self.value@
    }

    open spec fn step(state: real, sample: real) -> Option<(real, real)> {
        match held(sample - state) {
            Some(difference) => Some((difference, sample)),
            None => None,
        }
    }

    fn apply(&mut self, sample: Ratio) -> (r: Option<Ratio>) {
        match sample.sub(&self.value) {
            Some(difference) => {
                self.value = sample;
                Some(difference)
            },
            None => None,
        }
    }
}

/// What a [`MovingAverage`] remembers.
pub struct Averaging {
    /// The sum that the average is taken of.
    pub sum: real,
    /// The sample that leaves the sum next.
    pub first: real,
    /// The number of samples that the sum is divided by.
    pub count: nat,
    /// The number of samples at which the sum stops growing.
    pub limit: nat,
}

/// An average over the samples taken, which from `max_count` samples on
/// gives up one earlier sample for every new one.
pub struct MovingAverage {
    sum: Ratio,
    first_val: Ratio,
    count: usize,
    max_count: usize,
}

impl MovingAverage {
    /// A moving average over `count` samples that has taken none.
    pub fn new(count: usize) -> (r: Self)
        ensures
            r.state() == (Averaging { sum: 0real, first: 0real, count: 0, limit: count as nat }),
    {
        Self { sum: Ratio::whole(0), first_val: Ratio::whole(0), count: 0, max_count: count }
    }
}

impl Filter for MovingAverage {
    type State = Averaging;

    closed spec fn state(&self) -> Averaging {
        Averaging {
            sum: self.sum@,
            first: self.first_val@,
            count: self.count as nat,
            limit: self.max_count as nat,
        }
    }

    open spec fn step(state: Averaging, sample: real) -> Option<(real, Averaging)> {
        match held(state.sum + sample) {
            None => None,
            Some(grown) => {
                let next = if state.count == 0 {
                    Some(Averaging { sum: grown, first: sample, count: 1, limit: state.limit })
                } else if state.count < state.limit {
                    Some(
                        Averaging {
                            sum: grown,
                            first: state.first,
                            count: state.count + 1,
                            limit: state.limit,
                        },
                    )
                } else {
                    match held(grown - state.first) {
                        Some(kept) => Some(
                            Averaging {
                                sum: kept,
                                first: sample,
                                count: state.count,
                                limit: state.limit,
                            },
                        ),
                        None => None,
                    }
                };
                match next {
                    None => None,
                    Some(after) => match held(after.sum / (after.count as real)) {
                        Some(average) => Some((average, after)),
                        None => None,
                    },
                }
            },
        }
    }

    fn apply(&mut self, sample: Ratio) -> (r: Option<Ratio>) {
        let grown = match self.sum.add(&sample) {
            Some(s) => s,
            None => {
                return None;
            },
        };
        let (sum, first, count) = if self.count == 0 {
            (grown, sample, 1usize)
        } else if self.count < self.max_count {
            (grown, self.first_val, self.count + 1)
        } else {
            match grown.sub(&self.first_val) {
                Some(kept) => (kept, sample, self.count),
                None => {
                    return None;
                },
            }
        };
        match sum.div_count(count) {
            Some(average) => {
                self.sum = sum;
                self.first_val = first;
                self.count = count;
                Some(average)
            },
            None => None,
        }
    }
}

} // verus!
