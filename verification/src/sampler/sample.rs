//! The value of every kind of signal at a time, in exact arithmetic.

use crate::node::{held, Node};
use crate::ratio::Ratio;
use crate::sampler::{
    lemma_parts_of,
    parts_of,
    value_is,
    AmplitudeModulator,
    Compound,
    Const,
    Delay,
    FrequencyModulator,
    Gain,
    Impulse,
    InputGainModulator,
    InputShiftModulator,
    Limit,
    Line,
    Quadratic,
    Record,
    Response,
    Sawtooth,
    Shift,
    Signal,
    Sine,
    SineIntegral,
    Square,
    Triangle,
    Window,
};
use vstd::prelude::*;

verus! {

impl Record {
    /// The sample that is played at the time `t`: the one at the index
    /// `floor(t * sample_rate)`, and zero where the buffer has no such index.
    pub fn sample(&self, t: &Ratio) -> (r: Option<Ratio>)
        ensures
            value_is(r, Signal::Record(*self)@.exact_at(t@)),
    {
        match t.mul(&self.sample_rate) {
            None => None,
            Some(x) => {
                let index = x.floor();
                if index >= 0 && (index as u64) < (self.samples.len() as u64) {
                    Some(self.samples[index as usize])
                } else {
                    Some(Ratio::whole(0))
                }
            },
        }
    }
}

impl Const {
    /// The constant.
    pub fn sample(&self, t: &Ratio) -> (r: Option<Ratio>)
        ensures
            value_is(r, Signal::Const(*self)@.exact_at(t@)),
    {
        Some(self.val)
    }
}

impl Line {
    /// `a0 + t * a1`.
    pub fn sample(&self, t: &Ratio) -> (r: Option<Ratio>)
        ensures
            value_is(r, Signal::Line(*self)@.exact_at(t@)),
    {
        match t.mul(&self.a1) {
            Some(m) => self.a0.add(&m),
            None => None,
        }
    }
}

impl Quadratic {
    /// `t * t * a2 + t * a1 + a0`.
    pub fn sample(&self, t: &Ratio) -> (r: Option<Ratio>)
        ensures
            value_is(r, Signal::Quadratic(*self)@.exact_at(t@)),
    {
        match (t.mul(t), t.mul(&self.a1)) {
            (Some(tt), Some(l)) => match tt.mul(&self.a2) {
                Some(q) => match q.add(&l) {
                    Some(s) => s.add(&self.a0),
                    None => None,
                },
                None => None,
            },
            _ => None,
        }
    }
}

impl Sine {
    /// None: the sine wave has no value in exact arithmetic.
    pub fn sample(&self, t: &Ratio) -> (r: Option<Ratio>)
        ensures
            value_is(r, Signal::Sine(*self)@.exact_at(t@)),
    {
        None
    }
}

impl SineIntegral {
    /// None: the antiderivative of the sine wave has no value in exact arithmetic.
    pub fn sample(&self, t: &Ratio) -> (r: Option<Ratio>)
        ensures
            value_is(r, Signal::SineIntegral(*self)@.exact_at(t@)),
    {
        None
    }
}

impl Sawtooth {
    /// Twice the fraction of `t * freq`, less one.
    pub fn sample(&self, t: &Ratio) -> (r: Option<Ratio>)
        ensures
            value_is(r, Signal::Sawtooth(*self)@.exact_at(t@)),
    {
        match t.mul(&self.freq) {
            Some(x) => match x.fract().mul(&Ratio::whole(2)) {
                Some(d) => d.sub(&Ratio::whole(1)),
                None => None,
            },
            None => None,
        }
    }
}

impl Square {
    /// One where the whole part of `t * freq` is even, minus one where it is odd.
    pub fn sample(&self, t: &Ratio) -> (r: Option<Ratio>)
        ensures
            value_is(r, Signal::Square(*self)@.exact_at(t@)),
    {
        match t.mul(&self.freq) {
            Some(x) => if x.floor() % 2 == 0 {
                Some(Ratio::whole(1))
            } else {
                Some(Ratio::whole(-1))
            },
            None => None,
        }
    }
}

impl Triangle {
    /// `2 * |2 * (x - floor(x + 1/2))| - 1` for `x = t * freq`.
    pub fn sample(&self, t: &Ratio) -> (r: Option<Ratio>)
        ensures
            value_is(r, Signal::Triangle(*self)@.exact_at(t@)),
    {
        match t.mul(&self.freq) {
            Some(x) => match x.add(&Ratio::half()) {
                Some(y) => match x.sub(&y.floor_whole()) {
                    Some(z) => match Ratio::whole(2).mul(&z) {
                        Some(w) => match Ratio::whole(2).mul(&w.abs()) {
                            Some(v) => v.sub(&Ratio::whole(1)),
                            None => None,
                        },
                        None => None,
                    },
                    None => None,
                },
                None => None,
            },
            None => None,
        }
    }
}

impl Impulse {
    /// The height within the half width of time zero, and zero elsewhere.
    pub fn sample(&self, t: &Ratio) -> (r: Option<Ratio>)
        ensures
            value_is(r, Signal::Impulse(*self)@.exact_at(t@)),
    {
        if self.half_width.neg().lt(t) && t.lt(&self.half_width) {
            Some(self.height)
        } else {
            Some(Ratio::whole(0))
        }
    }
}

impl Window {
    /// `(x + 1) / 2 * (high - low) + low`.
    pub fn remap(&self, x: &Ratio) -> (r: Option<Ratio>)
        ensures
            value_is(
                r,
                match held(self.high@ - self.low@) {
                    Some(c) => match held(x@ + 1real) {
                        Some(a) => match held(a / 2real) {
                            Some(b) => match held(b * c) {
                                Some(d) => held(d + self.low@),
                                None => None,
                            },
                            None => None,
                        },
                        None => None,
                    },
                    None => None,
                },
            ),
    {
        match self.high.sub(&self.low) {
            Some(d) => match x.add(&Ratio::whole(1)) {
                Some(a) => match a.div(&Ratio::whole(2)) {
                    Some(b) => match b.mul(&d) {
                        Some(e) => e.add(&self.low),
                        None => None,
                    },
                    None => None,
                },
                None => None,
            },
            None => None,
        }
    }

    /// The value of the signal, moved to lie between `low` and `high`.
    pub fn sample(&self, t: &Ratio) -> (r: Option<Ratio>)
        ensures
            value_is(r, Signal::Window(*self)@.exact_at(t@)),
        decreases self,
    {
        match self.sampler.sample(t) {
            Some(x) => self.remap(&x),
            None => None,
        }
    }
}

impl Compound {
    /// The sum of the parts at the time `t`, each scaled by its gain.
    pub fn sample(&self, t: &Ratio) -> (r: Option<Ratio>)
        ensures
            value_is(r, Signal::Compound(*self)@.exact_at(t@)),
        decreases self,
    {
        let ghost parts = parts_of(self.samplers@, self.samplers@.len() as int);
        let mut sum = Ratio::whole(0);
        let mut i: usize = 0;
        proof {
            lemma_parts_of(self.samplers@, self.samplers@.len() as int);
        }
        while i < self.samplers.len()
            invariant
                i <= self.samplers.len(),
                parts == parts_of(self.samplers@, self.samplers@.len() as int),
                parts.len() == self.samplers@.len(),
                forall|k: int|
                    0 <= k < parts.len() ==> #[trigger] parts[k] == (
                        self.samplers@[k].0@,
                        self.samplers@[k].1.model(),
                    ),
                Node::mix_exact(parts, t@, i as int) == Some(sum@),
            decreases self.samplers.len() - i,
        {
            proof {
                assert(decreases_to!(*self => self.samplers));
                assert(decreases_to!(self.samplers => self.samplers[i as int]));
                assert(decreases_to!(self.samplers[i as int] => self.samplers[i as int].1));
                assert(parts[i as int] == (
                    self.samplers@[i as int].0@,
                    self.samplers@[i as int].1.model(),
                ));
            }
            let next = match self.samplers[i].1.sample(t) {
                Some(x) => match x.mul(&self.samplers[i].0) {
                    Some(p) => sum.add(&p),
                    None => None,
                },
                None => None,
            };
            match next {
                Some(s) => {
                    sum = s;
                },
                None => {
                    proof {
                        assert(Node::mix_exact(parts, t@, i + 1) is None);
                        Node::lemma_mix_exact_fails(parts, t@, i + 1, parts.len() as int);
                    }
                    return None;
                },
            }
            i = i + 1;
        }
        Some(sum)
    }
}

impl Gain {
    /// The value of the signal, scaled.
    pub fn sample(&self, t: &Ratio) -> (r: Option<Ratio>)
        ensures
            value_is(r, Signal::Gain(*self)@.exact_at(t@)),
        decreases self,
    {
        match self.sampler.sample(t) {
            Some(x) => x.mul(&self.gain),
            None => None,
        }
    }
}

impl Shift {
    /// The value of the signal at `t + shift`.
    pub fn sample(&self, t: &Ratio) -> (r: Option<Ratio>)
        ensures
            value_is(r, Signal::Shift(*self)@.exact_at(t@)),
        decreases self,
    {
        match t.add(&self.shift) {
            Some(u) => self.sampler.sample(&u),
            None => None,
        }
    }
}

impl Delay {
    /// The value of the signal at `t - delay`.
    pub fn sample(&self, t: &Ratio) -> (r: Option<Ratio>)
        ensures
            value_is(r, Signal::Delay(*self)@.exact_at(t@)),
        decreases self,
    {
        match t.sub(&self.delay) {
            Some(u) => self.sampler.sample(&u),
            None => None,
        }
    }
}

impl Limit {
    /// The value of the signal from `start` up to `end`, and zero elsewhere.
    pub fn sample(&self, t: &Ratio) -> (r: Option<Ratio>)
        ensures
            value_is(r, Signal::Limit(*self)@.exact_at(t@)),
        decreases self,
    {
        if self.start.le(t) && t.lt(&self.end) {
            self.sampler.sample(t)
        } else {
            Some(Ratio::whole(0))
        }
    }
}

impl AmplitudeModulator {
    /// The product of the carrier and the amplitude.
    pub fn sample(&self, t: &Ratio) -> (r: Option<Ratio>)
        ensures
            value_is(r, Signal::AmplitudeModulator(*self)@.exact_at(t@)),
        decreases self,
    {
        match (self.sampler.sample(t), self.amplitude.sample(t)) {
            (Some(x), Some(a)) => x.mul(&a),
            _ => None,
        }
    }
}

impl FrequencyModulator {
    /// The value of the carrier at the time that the integral of the frequency gives.
    pub fn sample(&self, t: &Ratio) -> (r: Option<Ratio>)
        ensures
            value_is(r, Signal::FrequencyModulator(*self)@.exact_at(t@)),
        decreases self,
    {
        match self.frequency_integral.sample(t) {
            Some(u) => self.sampler.sample(&u),
            None => None,
        }
    }
}

impl InputShiftModulator {
    /// The value of the carrier at `t` plus what the modulator gives.
    pub fn sample(&self, t: &Ratio) -> (r: Option<Ratio>)
        ensures
            value_is(r, Signal::InputShiftModulator(*self)@.exact_at(t@)),
        decreases self,
    {
        match self.modulator.sample(t) {
            Some(m) => match t.add(&m) {
                Some(u) => self.sampler.sample(&u),
                None => None,
            },
            None => None,
        }
    }
}

impl InputGainModulator {
    /// The value of the carrier at `t` times what the modulator gives.
    pub fn sample(&self, t: &Ratio) -> (r: Option<Ratio>)
        ensures
            value_is(r, Signal::InputGainModulator(*self)@.exact_at(t@)),
        decreases self,
    {
        match self.modulator.sample(t) {
            Some(m) => match t.mul(&m) {
                Some(u) => self.sampler.sample(&u),
                None => None,
            },
            None => None,
        }
    }
}

impl Response {
    /// The value of the system at the time that the input gives.
    pub fn sample(&self, t: &Ratio) -> (r: Option<Ratio>)
        ensures
            value_is(r, Signal::Response(*self)@.exact_at(t@)),
        decreases self,
    {
        match self.input.sample(t) {
            Some(u) => self.system.sample(&u),
            None => None,
        }
    }
}

impl Signal {
    /// The value of the signal at the time `t`, where exact arithmetic within the limits finds it.
    pub fn sample(&self, t: &Ratio) -> (r: Option<Ratio>)
        ensures
            value_is(r, self@.exact_at(t@)),
        decreases self,
    {
        match self {
            Signal::Const(c) => c.sample(t),
            Signal::Line(c) => c.sample(t),
            Signal::Quadratic(c) => c.sample(t),
            Signal::Sine(c) => c.sample(t),
            Signal::SineIntegral(c) => c.sample(t),
            Signal::Sawtooth(c) => c.sample(t),
            Signal::Square(c) => c.sample(t),
            Signal::Triangle(c) => c.sample(t),
            Signal::Impulse(c) => c.sample(t),
            Signal::Compound(c) => c.sample(t),
            Signal::Gain(c) => c.sample(t),
            Signal::Shift(c) => c.sample(t),
            Signal::Delay(c) => c.sample(t),
            Signal::Limit(c) => c.sample(t),
            Signal::Window(c) => c.sample(t),
            Signal::AmplitudeModulator(c) => c.sample(t),
            Signal::FrequencyModulator(c) => c.sample(t),
            Signal::InputShiftModulator(c) => c.sample(t),
            Signal::InputGainModulator(c) => c.sample(t),
            Signal::Response(c) => c.sample(t),
            Signal::Record(c) => c.sample(t),
        }
    }
}

} // verus!
