//! The antiderivatives of the signals that have one.

use crate::node::Node;
use crate::ratio::Ratio;
use crate::sampler::{
    lemma_parts_agree,
    lemma_parts_of,
    parts_of,
    signal_is,
    Compound,
    Const,
    FrequencyModulator,
    Limit,
    Line,
    Quadratic,
    Signal,
    Sine,
    SineIntegral,
    Window,
};
use vstd::prelude::*;

verus! {

impl Const {
    /// The line through zero whose slope is the constant.
    pub fn integral(&self) -> (r: Option<Signal>)
        ensures
            signal_is(r, Signal::Const(*self)@.antiderivative()),
    {
        Some(Line::new(Ratio::whole(0), self.val))
    }
}

impl Line {
    /// The parabola through zero whose slope is the line.
    pub fn integral(&self) -> (r: Option<Signal>)
        ensures
            signal_is(r, Signal::Line(*self)@.antiderivative()),
    {
        match self.a1.div(&Ratio::whole(2)) {
            Some(h) => Some(Quadratic::new(Ratio::whole(0), self.a0, h)),
            None => None,
        }
    }
}

impl Sine {
    /// The antiderivative that is zero at time zero; of a wave of frequency
    /// zero, the zero signal.
    pub fn integral(&self) -> (r: Option<Signal>)
        ensures
            signal_is(r, Signal::Sine(*self)@.antiderivative()),
    {
        if self.freq.is_zero() {
            Some(Const::new(Ratio::whole(0)))
        } else {
            Some(Signal::SineIntegral(SineIntegral { freq: self.freq, phase: self.phase }))
        }
    }
}

impl Compound {
    /// The sum of the antiderivatives of the parts, each with the gain of its part.
    pub fn integral(&self) -> (r: Option<Signal>)
        ensures
            signal_is(r, Signal::Compound(*self)@.antiderivative()),
        decreases self,
    {
        let ghost parts = parts_of(self.samplers@, self.samplers@.len() as int);
        let mut out: Vec<(Ratio, Signal)> = Vec::new();
        let mut i: usize = 0;
        proof {
            lemma_parts_of(self.samplers@, self.samplers@.len() as int);
        }
        while i < self.samplers.len()
            invariant
                i <= self.samplers.len(),
                out.len() == i,
                parts == parts_of(self.samplers@, self.samplers@.len() as int),
                parts.len() == self.samplers@.len(),
                forall|k: int|
                    0 <= k < parts.len() ==> #[trigger] parts[k] == (
                        self.samplers@[k].0@,
                        self.samplers@[k].1.model(),
                    ),
                Node::antiderivatives(parts, i as int) == Some(parts_of(out@, i as int)),
            decreases self.samplers.len() - i,
        {
            proof {
                assert(decreases_to!(*self => self.samplers));
                assert(decreases_to!(self.samplers => self.samplers[i as int]));
                assert(decreases_to!(self.samplers[i as int] => self.samplers[i as int].1));
                assert(parts[i as int] == (
                    self.samplers@[i as int].0@,
                    self.samplers@[i as int].1.model(),
                ));
            }
            match self.samplers[i].1.integral() {
                Some(inner) => {
                    let ghost before = out@;
                    out.push((self.samplers[i].0, inner));
                    proof {
                        lemma_parts_agree(before, out@, i as int);
                    }
                },
                None => {
                    proof {
                        assert(Node::antiderivatives(parts, i + 1) is None);
                        Node::lemma_antiderivatives_fail(parts, i + 1, parts.len() as int);
                    }
                    return None;
                },
            }
            i = i + 1;
        }
        Some(Compound::new(out))
    }
}

impl Limit {
    /// The antiderivative of the gated signal, gated as the signal is, and
    /// zero at the start of its interval.
    pub fn integral(&self) -> (r: Option<Signal>)
        ensures
            signal_is(r, Signal::Limit(*self)@.antiderivative()),
        decreases self,
    {
        match self.sampler.integral() {
            None => None,
            Some(inner) => match inner.sample(&self.start) {
                None => None,
                Some(origin) => {
                    let ghost inner_node = inner@;
                    let mut parts: Vec<(Ratio, Signal)> = Vec::new();
                    parts.push((Ratio::whole(1), inner));
                    parts.push((Ratio::whole(-1), Const::new(origin)));
                    proof {
                        lemma_parts_of(parts@, 2);
                        assert(parts_of(parts@, 2) =~= seq![
                            (1real, inner_node),
                            (-1real, Node::Const { val: origin@ }),
                        ]);
                    }
                    let sum = Compound::new(parts);
                    let out = Signal::Limit(
                        Limit { sampler: Box::new(sum), start: self.start, end: self.end },
                    );
                    proof {
                        assert(out@ == Node::Limit {
                            sampler: Box::new(sum@),
                            start: self.start@,
                            end: self.end@,
                        });
                    }
                    Some(out)
                },
            },
        }
    }
}

impl Window {
    /// The antiderivative: that of the signal scaled by half the width of the
    /// band, and a line whose slope is the middle of the band.
    pub fn integral(&self) -> (r: Option<Signal>)
        ensures
            signal_is(r, Signal::Window(*self)@.antiderivative()),
        decreases self,
    {
        match (
            self.sampler.integral(),
            self.high.mean(&self.low.neg()),
            self.high.mean(&self.low),
        ) {
            (Some(inner), Some(scale), Some(slope)) => {
                let ghost inner_node = inner@;
                let mut parts: Vec<(Ratio, Signal)> = Vec::new();
                parts.push((scale, inner));
                parts.push((Ratio::whole(1), Line::new(Ratio::whole(0), slope)));
                proof {
                    lemma_parts_of(parts@, 2);
                    assert(parts_of(parts@, 2) =~= seq![
                        (scale@, inner_node),
                        (1real, Node::Line { a0: 0real, a1: slope@ }),
                    ]);
                }
                Some(Compound::new(parts))
            },
            _ => None,
        }
    }
}

impl FrequencyModulator {
    /// `sampler` read at the time that the antiderivative of `frequency`
    /// gives, so that `frequency` is the speed at which `sampler` is read;
    /// none where `frequency` has no antiderivative.
    pub fn of_frequency(sampler: Signal, frequency: &Signal) -> (r: Option<Signal>)
        ensures
            signal_is(
                r,
                match frequency@.antiderivative() {
                    Some(phase) => Some(
                        Node::FrequencyModulator {
                            sampler: Box::new(sampler@),
                            frequency_integral: Box::new(phase),
                        },
                    ),
                    None => None,
                },
            ),
    {
        match frequency.integral() {
            Some(phase) => Some(FrequencyModulator::new(sampler, phase)),
            None => None,
        }
    }
}

impl Signal {
    /// The antiderivative of the signal, where it has one that the tree can
    /// hold within the limits: constants, lines, sine waves, and sums, gates
    /// and windows of what has one.
    pub fn integral(&self) -> (r: Option<Signal>)
        ensures
            signal_is(r, self@.antiderivative()),
        decreases self,
    {
        match self {
            Signal::Const(c) => c.integral(),
            Signal::Line(c) => c.integral(),
            Signal::Sine(c) => c.integral(),
            Signal::Compound(c) => c.integral(),
            Signal::Limit(c) => c.integral(),
            Signal::Window(c) => c.integral(),
            _ => None,
        }
    }
}

} // verus!
