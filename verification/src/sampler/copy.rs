//! Copies of signals: every signal owns its parts, so what is used twice is copied.

use crate::ratio::Ratio;
use crate::sampler::{
    lemma_parts_agree,
    AmplitudeModulator,
    Compound,
    Const,
    Delay,
    FrequencyModulator,
    Gain,
    Impulse,
    InputGainModulator,
    InputShiftModulator,
    Limit,
    Line,
    Quadratic,
    Record,
    Response,
    Sawtooth,
    Shift,
    Signal,
    Sine,
    SineIntegral,
    Square,
    Triangle,
    Window,
};
use vstd::prelude::*;

verus! {

impl Compound {
    /// A copy of the sum.
    pub fn duplicate(&self) -> (r: Signal)
        ensures
            r@ == Signal::Compound(*self)@,
        decreases self,
    {
        let mut out: Vec<(Ratio, Signal)> = Vec::new();
        let mut i: usize = 0;
        while i < self.samplers.len()
            invariant
                i <= self.samplers.len(),
                out.len() == i,
                forall|k: int|
                    0 <= k < i ==> self.samplers@[k].0@ == out@[k].0@ && (
                    #[trigger] self.samplers@[k]).1@ == out@[k].1@,
            decreases self.samplers.len() - i,
        {
            proof {
                assert(decreases_to!(*self => self.samplers));
                assert(decreases_to!(self.samplers => self.samplers[i as int]));
                assert(decreases_to!(self.samplers[i as int] => self.samplers[i as int].1));
            }
            let copy = self.samplers[i].1.duplicate();
            out.push((self.samplers[i].0, copy));
            i = i + 1;
        }
        proof {
            lemma_parts_agree(self.samplers@, out@, i as int);
        }
        Compound::new(out)
    }
}

impl Gain {
    /// A copy of the signal.
    pub fn duplicate(&self) -> (r: Signal)
        ensures
            r@ == Signal::Gain(*self)@,
        decreases self,
    {
        Gain::new(self.sampler.duplicate(), self.gain)
    }
}

impl Shift {
    /// A copy of the signal.
    pub fn duplicate(&self) -> (r: Signal)
        ensures
            r@ == Signal::Shift(*self)@,
        decreases self,
    {
        Shift::new(self.sampler.duplicate(), self.shift)
    }
}

impl Delay {
    /// A copy of the signal.
    pub fn duplicate(&self) -> (r: Signal)
        ensures
            r@ == Signal::Delay(*self)@,
        decreases self,
    {
        Delay::new(self.sampler.duplicate(), self.delay)
    }
}

impl Limit {
    /// A copy of the signal.
    pub fn duplicate(&self) -> (r: Signal)
        ensures
            r@ == Signal::Limit(*self)@,
        decreases self,
    {
        Signal::Limit(
            Limit { sampler: Box::new(self.sampler.duplicate()), start: self.start, end: self.end },
        )
    }
}

impl Window {
    /// A copy of the signal.
    pub fn duplicate(&self) -> (r: Signal)
        ensures
            r@ == Signal::Window(*self)@,
        decreases self,
    {
        Window::new(self.sampler.duplicate(), self.low, self.high)
    }
}

impl AmplitudeModulator {
    /// A copy of the signal.
    pub fn duplicate(&self) -> (r: Signal)
        ensures
            r@ == Signal::AmplitudeModulator(*self)@,
        decreases self,
    {
        AmplitudeModulator::new(self.sampler.duplicate(), self.amplitude.duplicate())
    }
}

impl FrequencyModulator {
    /// A copy of the signal.
    pub fn duplicate(&self) -> (r: Signal)
        ensures
            r@ == Signal::FrequencyModulator(*self)@,
        decreases self,
    {
        FrequencyModulator::new(self.sampler.duplicate(), self.frequency_integral.duplicate())
    }
}

impl InputShiftModulator {
    /// A copy of the signal.
    pub fn duplicate(&self) -> (r: Signal)
        ensures
            r@ == Signal::InputShiftModulator(*self)@,
        decreases self,
    {
        InputShiftModulator::new(self.sampler.duplicate(), self.modulator.duplicate())
    }
}

impl InputGainModulator {
    /// A copy of the signal.
    pub fn duplicate(&self) -> (r: Signal)
        ensures
            r@ == Signal::InputGainModulator(*self)@,
        decreases self,
    {
        InputGainModulator::new(self.sampler.duplicate(), self.modulator.duplicate())
    }
}

impl Response {
    /// A copy of the signal.
    pub fn duplicate(&self) -> (r: Signal)
        ensures
            r@ == Signal::Response(*self)@,
        decreases self,
    {
        Response::new(self.input.duplicate(), self.system.duplicate())
    }
}

impl Record {
    /// A copy of the buffer.
    pub fn duplicate(&self) -> (r: Record)
        ensures
            r.sample_rate == self.sample_rate,
            r.samples@ == self.samples@,
    {
        let mut samples: Vec<Ratio> = Vec::new();
        let mut i: usize = 0;
        while i < self.samples.len()
            invariant
                i <= self.samples.len(),
                samples@ == self.samples@.subrange(0, i as int),
            decreases self.samples.len() - i,
        {
            samples.push(self.samples[i]);
            assert(samples@ =~= self.samples@.subrange(0, i + 1));
            i = i + 1;
        }
        assert(samples@ =~= self.samples@);
        Record { sample_rate: self.sample_rate, samples }
    }
}

impl Signal {
    /// A copy of the signal: a tree of its own with the same values.
    pub fn duplicate(&self) -> (r: Signal)
        ensures
            r@ == self@,
        decreases self,
    {
        match self {
            Signal::Const(c) => Const::new(c.val),
            Signal::Line(c) => Line::new(c.a0, c.a1),
            Signal::Quadratic(c) => Quadratic::new(c.a0, c.a1, c.a2),
            Signal::Sine(c) => Sine::new(c.freq, c.phase),
            Signal::SineIntegral(c) => Signal::SineIntegral(
                SineIntegral { freq: c.freq, phase: c.phase },
            ),
            Signal::Sawtooth(c) => Sawtooth::new(c.freq),
            Signal::Square(c) => Square::new(c.freq),
            Signal::Triangle(c) => Triangle::new(c.freq),
            Signal::Impulse(c) => Signal::Impulse(
                Impulse { half_width: c.half_width, height: c.height },
            ),
            Signal::Compound(c) => c.duplicate(),
            Signal::Gain(c) => c.duplicate(),
            Signal::Shift(c) => c.duplicate(),
            Signal::Delay(c) => c.duplicate(),
            Signal::Limit(c) => c.duplicate(),
            Signal::Window(c) => c.duplicate(),
            Signal::AmplitudeModulator(c) => c.duplicate(),
            Signal::FrequencyModulator(c) => c.duplicate(),
            Signal::InputShiftModulator(c) => c.duplicate(),
            Signal::InputGainModulator(c) => c.duplicate(),
            Signal::Response(c) => c.duplicate(),
            Signal::Record(c) => Signal::Record(c.duplicate()),
        }
    }
}

} // verus!
