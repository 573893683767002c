//! Signals as values: the generators and combinators, each with its
//! constructor, and the tree that holds them.

use crate::node::Node;
use crate::ratio::Ratio;
use vstd::prelude::*;

mod constructors;
mod copy;
mod integral;
mod sample;

verus! {

/// Why a signal could not be built.
#[derive(Clone, Copy, Debug, PartialEq, Eq, Structural)]
pub enum ConfigurationError {
    /// A part of an envelope has a negative length.
    NegativeDuration,
    /// A unison of an even number of voices.
    EvenVoiceCount,
    /// A gate that ends before it starts.
    InvalidGate,
    /// A sample rate of zero.
    ZeroRate,
    /// A parameter that no fraction within the limits equals.
    OutOfRange,
}

/// A constant.
#[derive(Clone, Copy, Debug, PartialEq, Eq)]
pub struct Const {
    pub val: Ratio,
}

/// A line through `a0` at time zero with the slope `a1`.
#[derive(Clone, Copy, Debug, PartialEq, Eq)]
pub struct Line {
    pub a0: Ratio,
    pub a1: Ratio,
}

/// A parabola.
#[derive(Clone, Copy, Debug, PartialEq, Eq)]
pub struct Quadratic {
    pub a0: Ratio,
    pub a1: Ratio,
    pub a2: Ratio,
}

/// A sine wave of `freq` cycles a second, `phase` cycles ahead.
#[derive(Clone, Copy, Debug, PartialEq, Eq)]
pub struct Sine {
    pub freq: Ratio,
    pub phase: Ratio,
}

/// The antiderivative of a sine wave that is zero at time zero.
#[derive(Clone, Copy, Debug, PartialEq, Eq)]
pub struct SineIntegral {
    pub freq: Ratio,
    pub phase: Ratio,
}

/// A sawtooth wave.
#[derive(Clone, Copy, Debug, PartialEq, Eq)]
pub struct Sawtooth {
    pub freq: Ratio,
}

/// A square wave.
#[derive(Clone, Copy, Debug, PartialEq, Eq)]
pub struct Square {
    pub freq: Ratio,
}

/// A triangle wave.
#[derive(Clone, Copy, Debug, PartialEq, Eq)]
pub struct Triangle {
    pub freq: Ratio,
}

/// A pulse of area one around time zero.
#[derive(Clone, Copy, Debug, PartialEq, Eq)]
pub struct Impulse {
    pub half_width: Ratio,
    pub height: Ratio,
}

/// A weighted sum.
#[derive(Debug, PartialEq, Eq)]
pub struct Compound {
    pub samplers: Vec<(Ratio, Signal)>,
}

/// A signal scaled by a constant.
#[derive(Debug, PartialEq, Eq)]
pub struct Gain {
    pub gain: Ratio,
    pub sampler: Box<Signal>,
}

/// A signal moved earlier in time.
#[derive(Debug, PartialEq, Eq)]
pub struct Shift {
    pub shift: Ratio,
    pub sampler: Box<Signal>,
}

/// A signal moved later in time.
#[derive(Debug, PartialEq, Eq)]
pub struct Delay {
    pub delay: Ratio,
    pub sampler: Box<Signal>,
}

/// A signal gated to the times from `start` up to `end`.
#[derive(Debug, PartialEq, Eq)]
pub struct Limit {
    pub sampler: Box<Signal>,
    pub start: Ratio,
    pub end: Ratio,
}

/// A signal between -1 and 1 moved to lie between `low` and `high`.
#[derive(Debug, PartialEq, Eq)]
pub struct Window {
    pub sampler: Box<Signal>,
    pub low: Ratio,
    pub high: Ratio,
}

/// Another name under which a [`Window`] is built.
#[derive(Clone, Copy, Debug, PartialEq, Eq)]
pub struct Move;

/// The product of a carrier and an amplitude.
#[derive(Debug, PartialEq, Eq)]
pub struct AmplitudeModulator {
    pub amplitude: Box<Signal>,
    pub sampler: Box<Signal>,
}

/// A carrier read at the time that the integral of a frequency gives.
#[derive(Debug, PartialEq, Eq)]
pub struct FrequencyModulator {
    pub frequency_integral: Box<Signal>,
    pub sampler: Box<Signal>,
}

/// A carrier read at the time moved by a modulator.
#[derive(Debug, PartialEq, Eq)]
pub struct InputShiftModulator {
    pub modulator: Box<Signal>,
    pub sampler: Box<Signal>,
}

/// A carrier read at the time scaled by a modulator.
#[derive(Debug, PartialEq, Eq)]
pub struct InputGainModulator {
    pub modulator: Box<Signal>,
    pub sampler: Box<Signal>,
}

/// A system read at the time that an input gives.
#[derive(Debug, PartialEq, Eq)]
pub struct Response {
    pub input: Box<Signal>,
    pub system: Box<Signal>,
}

/// A rendered signal: samples taken `sample_rate` times a second from time zero.
#[derive(Debug, PartialEq, Eq)]
pub struct Record {
    pub sample_rate: Ratio,
    pub samples: Vec<Ratio>,
}

/// A signal.
#[derive(Debug, PartialEq, Eq)]
pub enum Signal {
    Const(Const),
    Line(Line),
    Quadratic(Quadratic),
    Sine(Sine),
    SineIntegral(SineIntegral),
    Sawtooth(Sawtooth),
    Square(Square),
    Triangle(Triangle),
    Impulse(Impulse),
    Compound(Compound),
    Gain(Gain),
    Shift(Shift),
    Delay(Delay),
    Limit(Limit),
    Window(Window),
    AmplitudeModulator(AmplitudeModulator),
    FrequencyModulator(FrequencyModulator),
    InputShiftModulator(InputShiftModulator),
    InputGainModulator(InputGainModulator),
    Response(Response),
    Record(Record),
}

/// A signal of any kind.
pub type DynSampler = Signal;

/// The values of the fractions `v`.
pub open spec fn values_of(v: Seq<Ratio>) -> Seq<real> {
    Seq::new(v.len(), |i: int| v[i]@)
}

/// The first `n` weighted parts of `v`, as values.
pub open spec fn parts_of(v: Seq<(Ratio, Signal)>, n: int) -> Seq<(real, Node)>
    decreases v, n,
{
    if n <= 0 || n > v.len() {
        Seq::empty()
    } else {
        parts_of(v, n - 1).push((v[n - 1].0@, v[n - 1].1.model()))
    }
}

impl Signal {
    /// The signal with its parameters as real numbers.
    pub open spec fn model(&self) -> Node
        decreases self,
    {
        match self {
            Signal::Const(c) => Node::Const { val: c.val@ },
            Signal::Line(c) => Node::Line { a0: c.a0@, a1: c.a1@ },
            Signal::Quadratic(c) => Node::Quadratic { a0: c.a0@, a1: c.a1@, a2: c.a2@ },
            Signal::Sine(c) => Node::Sine { freq: c.freq@, phase: c.phase@ },
            Signal::SineIntegral(c) => Node::SineIntegral { freq: c.freq@, phase: c.phase@ },
            Signal::Sawtooth(c) => Node::Sawtooth { freq: c.freq@ },
            Signal::Square(c) => Node::Square { freq: c.freq@ },
            Signal::Triangle(c) => Node::Triangle { freq: c.freq@ },
            Signal::Impulse(c) => Node::Impulse { half_width: c.half_width@, height: c.height@ },
            Signal::Compound(c) => Node::Compound {
                parts: parts_of(c.samplers@, c.samplers@.len() as int),
            },
            Signal::Gain(c) => Node::Gain { sampler: Box::new(c.sampler.model()), gain: c.gain@ },
            Signal::Shift(c) => Node::Shift { sampler: Box::new(c.sampler.model()), shift: c.shift@ },
            Signal::Delay(c) => Node::Delay { sampler: Box::new(c.sampler.model()), delay: c.delay@ },
            Signal::Limit(c) => Node::Limit {
                sampler: Box::new(c.sampler.model()),
                start: c.start@,
                end: c.end@,
            },
            Signal::Window(c) => Node::Window {
                sampler: Box::new(c.sampler.model()),
                low: c.low@,
                high: c.high@,
            },
            Signal::AmplitudeModulator(c) => Node::AmplitudeModulator {
                sampler: Box::new(c.sampler.model()),
                amplitude: Box::new(c.amplitude.model()),
            },
            Signal::FrequencyModulator(c) => Node::FrequencyModulator {
                sampler: Box::new(c.sampler.model()),
                frequency_integral: Box::new(c.frequency_integral.model()),
            },
            Signal::InputShiftModulator(c) => Node::InputShiftModulator {
                sampler: Box::new(c.sampler.model()),
                modulator: Box::new(c.modulator.model()),
            },
            Signal::InputGainModulator(c) => Node::InputGainModulator {
                sampler: Box::new(c.sampler.model()),
                modulator: Box::new(c.modulator.model()),
            },
            Signal::Response(c) => Node::Response {
                input: Box::new(c.input.model()),
                system: Box::new(c.system.model()),
            },
            Signal::Record(c) => Node::Record {
                sample_rate: c.sample_rate@,
                samples: values_of(c.samples@),
            },
        }
    }
}

impl View for Signal {
    type V = Node;

    open spec fn view(&self) -> Node {
        self.model()
    }
}

/// The weighted parts of `v`, as values, one for one.
pub proof fn lemma_parts_of(v: Seq<(Ratio, Signal)>, n: int)
    requires
        0 <= n <= v.len(),
    ensures
        parts_of(v, n).len() == n,
        forall|i: int| 0 <= i < n ==> #[trigger] parts_of(v, n)[i] == (v[i].0@, v[i].1@),
    decreases n,
{
    if n > 0 {
        lemma_parts_of(v, n - 1);
    }
}

/// `r` is the value `expected`, or neither is there.
pub open spec fn value_is(r: Option<Ratio>, expected: Option<real>) -> bool {
    match r {
        Some(v) => expected == Some(v@),
        None => expected is None,
    }
}

/// `r` is the signal `expected`, or neither is there.
pub open spec fn signal_is(r: Option<Signal>, expected: Option<Node>) -> bool {
    match r {
        Some(v) => expected == Some(v@),
        None => expected is None,
    }
}

/// The values of weighted parts with one more part are those before, and the values of that part.
pub proof fn lemma_parts_push(v: Seq<(Ratio, Signal)>, x: (Ratio, Signal))
    ensures
        parts_of(v.push(x), v.len() as int + 1) == parts_of(v, v.len() as int).push((x.0@, x.1@)),
{
    let w = v.push(x);
    lemma_parts_of(v, v.len() as int);
    lemma_parts_of(w, w.len() as int);
    assert(parts_of(w, w.len() as int) =~= parts_of(v, v.len() as int).push((x.0@, x.1@))) by {
        assert forall|k: int| 0 <= k < v.len() implies parts_of(w, w.len() as int)[k] == parts_of(
            v,
            v.len() as int,
        )[k] by {
            assert(w[k] == v[k]);
        }
        assert(w[v.len() as int] == x);
    }
}

/// Weighted parts that agree value for value have the same values.
pub proof fn lemma_parts_agree(a: Seq<(Ratio, Signal)>, b: Seq<(Ratio, Signal)>, n: int)
    requires
        0 <= n <= a.len(),
        n <= b.len(),
        forall|k: int| 0 <= k < n ==> a[k].0@ == b[k].0@ && (#[trigger] a[k]).1@ == b[k].1@,
    ensures
        parts_of(a, n) == parts_of(b, n),
{
    lemma_parts_of(a, n);
    lemma_parts_of(b, n);
    assert forall|k: int| 0 <= k < n implies parts_of(a, n)[k] == parts_of(b, n)[k] by {
        assert(a[k].1@ == b[k].1@);
    }
    assert(parts_of(a, n) =~= parts_of(b, n));
}

/// What every signal offers: its value at a time, and its antiderivative.
pub trait Sampler {
    /// The signal with its parameters as real numbers.
    spec fn node(&self) -> Node;

    /// The value of the signal at the time `t`, where exact arithmetic within the limits finds it.
    fn sample(&self, t: &Ratio) -> (r: Option<Ratio>)
        ensures
            value_is(r, self.node().exact_at(t@)),
    ;

    /// The antiderivative of the signal, where it has one that the tree can hold within the limits.
    fn integral(&self) -> (r: Option<Signal>)
        ensures
            signal_is(r, self.node().antiderivative()),
    ;
}

impl Sampler for Signal {
    open spec fn node(&self) -> Node {
        self@
    }

    fn sample(&self, t: &Ratio) -> (r: Option<Ratio>) {
        Signal::sample(self, t)
    }

    fn integral(&self) -> (r: Option<Signal>) {
        Signal::integral(self)
    }
}

} // verus!
