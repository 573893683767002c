//! The constructors of the generators and combinators.

use crate::node::Node;
use crate::ratio::Ratio;
use crate::sampler::{
    parts_of,
    AmplitudeModulator,
    Compound,
    ConfigurationError,
    Const,
    Delay,
    FrequencyModulator,
    Gain,
    InputGainModulator,
    InputShiftModulator,
    Limit,
    Line,
    Move,
    Quadratic,
    Response,
    Sawtooth,
    Shift,
    Signal,
    Sine,
    Square,
    Triangle,
    Window,
};
use vstd::prelude::*;

verus! {

impl Const {
    /// The constant signal `val`.
    pub fn new(val: Ratio) -> (r: Signal)
        ensures
            r == Signal::Const(Const { val }),
            r@ == (Node::Const { val: val@ }),
    {
        Signal::Const(Const { val })
    }
}

impl Line {
    /// The signal `a0 + a1 * t`.
    pub fn new(a0: Ratio, a1: Ratio) -> (r: Signal)
        ensures
            r == Signal::Line(Line { a0, a1 }),
            r@ == (Node::Line { a0: a0@, a1: a1@ }),
    {
        Signal::Line(Line { a0, a1 })
    }
}

impl Quadratic {
    /// The signal `a0 + a1 * t + a2 * t^2`.
    pub fn new(a0: Ratio, a1: Ratio, a2: Ratio) -> (r: Signal)
        ensures
            r == Signal::Quadratic(Quadratic { a0, a1, a2 }),
            r@ == (Node::Quadratic { a0: a0@, a1: a1@, a2: a2@ }),
    {
        Signal::Quadratic(Quadratic { a0, a1, a2 })
    }
}

impl Sine {
    /// The sine wave of `freq` cycles a second that is `phase` cycles ahead.
    pub fn new(freq: Ratio, phase: Ratio) -> (r: Signal)
        ensures
            r == Signal::Sine(Sine { freq, phase }),
            r@ == (Node::Sine { freq: freq@, phase: phase@ }),
    {
        Signal::Sine(Sine { freq, phase })
    }

    /// The sine wave of `freq` cycles a second.
    pub fn sin(freq: Ratio) -> (r: Signal)
        ensures
            r@ == (Node::Sine { freq: freq@, phase: 0real }),
    {
        Self::new(freq, Ratio::whole(0))
    }

    /// The cosine wave of `freq` cycles a second: the sine wave a quarter of a cycle ahead.
    pub fn cos(freq: Ratio) -> (r: Signal)
        ensures
            r@ == (Node::Sine { freq: freq@, phase: 1real / 4real }),
    {
        Self::new(freq, Ratio::hundredths(25))
    }
}

impl Sawtooth {
    /// The sawtooth wave of `freq` cycles a second.
    pub fn new(freq: Ratio) -> (r: Signal)
        ensures
            r == Signal::Sawtooth(Sawtooth { freq }),
            r@ == (Node::Sawtooth { freq: freq@ }),
    {
        Signal::Sawtooth(Sawtooth { freq })
    }
}

impl Square {
    /// The square wave that changes sign `freq` times a second.
    pub fn new(freq: Ratio) -> (r: Signal)
        ensures
            r == Signal::Square(Square { freq }),
            r@ == (Node::Square { freq: freq@ }),
    {
        Signal::Square(Square { freq })
    }
}

impl Triangle {
    /// The triangle wave of `freq` cycles a second.
    pub fn new(freq: Ratio) -> (r: Signal)
        ensures
            r == Signal::Triangle(Triangle { freq }),
            r@ == (Node::Triangle { freq: freq@ }),
    {
        Signal::Triangle(Triangle { freq })
    }
}

impl Gain {
    /// `sampler` scaled by `gain`.
    pub fn new(sampler: Signal, gain: Ratio) -> (r: Signal)
        ensures
            r == Signal::Gain(Gain { gain, sampler: Box::new(sampler) }),
            r@ == (Node::Gain { sampler: Box::new(sampler@), gain: gain@ }),
    {
        Signal::Gain(Gain { gain, sampler: Box::new(sampler) })
    }
}

impl Shift {
    /// `sampler` read `shift` seconds ahead.
    pub fn new(sampler: Signal, shift: Ratio) -> (r: Signal)
        ensures
            r == Signal::Shift(Shift { shift, sampler: Box::new(sampler) }),
            r@ == (Node::Shift { sampler: Box::new(sampler@), shift: shift@ }),
    {
        Signal::Shift(Shift { shift, sampler: Box::new(sampler) })
    }
}

impl Delay {
    /// `sampler` read `delay` seconds back.
    pub fn new(sampler: Signal, delay: Ratio) -> (r: Signal)
        ensures
            r == Signal::Delay(Delay { delay, sampler: Box::new(sampler) }),
            r@ == (Node::Delay { sampler: Box::new(sampler@), delay: delay@ }),
    {
        Signal::Delay(Delay { delay, sampler: Box::new(sampler) })
    }
}

impl Limit {
    /// `sampler` gated to the times from `start` up to `end`; a gate that
    /// ends before it starts is refused.
    pub fn new(sampler: Signal, start: Ratio, end: Ratio) -> (r: Result<
        Signal,
        ConfigurationError,
    >)
        ensures
            end@ < start@ ==> r == Err::<Signal, ConfigurationError>(
                ConfigurationError::InvalidGate,
            ),
            start@ <= end@ ==> r == Ok::<Signal, ConfigurationError>(
                Signal::Limit(Limit { sampler: Box::new(sampler), start, end }),
            ),
            r matches Ok(s) ==> s@ == (Node::Limit {
                sampler: Box::new(sampler@),
                start: start@,
                end: end@,
            }),
    {
        if end.lt(&start) {
            Err(ConfigurationError::InvalidGate)
        } else {
            Ok(Signal::Limit(Limit { sampler: Box::new(sampler), start, end }))
        }
    }
}

impl Window {
    /// `sampler`, taken to lie between -1 and 1, moved to lie between `low` and `high`.
    pub fn new(sampler: Signal, low: Ratio, high: Ratio) -> (r: Signal)
        ensures
            r == Signal::Window(Window { sampler: Box::new(sampler), low, high }),
            r@ == (Node::Window { sampler: Box::new(sampler@), low: low@, high: high@ }),
    {
        Signal::Window(Window { sampler: Box::new(sampler), low, high })
    }
}

impl Move {
    /// The same as [`Window::new`].
    pub fn new(sampler: Signal, low: Ratio, high: Ratio) -> (r: Signal)
        ensures
            r == Signal::Window(Window { sampler: Box::new(sampler), low, high }),
            r@ == (Node::Window { sampler: Box::new(sampler@), low: low@, high: high@ }),
    {
        Window::new(sampler, low, high)
    }
}

impl AmplitudeModulator {
    /// The product of `sampler` and `amplitude`.
    pub fn new(sampler: Signal, amplitude: Signal) -> (r: Signal)
        ensures
            r == Signal::AmplitudeModulator(
                AmplitudeModulator { amplitude: Box::new(amplitude), sampler: Box::new(sampler) },
            ),
            r@ == (Node::AmplitudeModulator {
                sampler: Box::new(sampler@),
                amplitude: Box::new(amplitude@),
            }),
    {
        Signal::AmplitudeModulator(
            AmplitudeModulator { amplitude: Box::new(amplitude), sampler: Box::new(sampler) },
        )
    }
}

impl FrequencyModulator {
    /// `sampler` read at the time that `frequency_integral` gives.
    pub fn new(sampler: Signal, frequency_integral: Signal) -> (r: Signal)
        ensures
            r == Signal::FrequencyModulator(
                FrequencyModulator {
                    frequency_integral: Box::new(frequency_integral),
                    sampler: Box::new(sampler),
                },
            ),
            r@ == (Node::FrequencyModulator {
                sampler: Box::new(sampler@),
                frequency_integral: Box::new(frequency_integral@),
            }),
    {
        Signal::FrequencyModulator(
            FrequencyModulator {
                frequency_integral: Box::new(frequency_integral),
                sampler: Box::new(sampler),
            },
        )
    }
}

impl InputShiftModulator {
    /// `sampler` read at the time moved by what `modulator` gives.
    pub fn new(sampler: Signal, modulator: Signal) -> (r: Signal)
        ensures
            r == Signal::InputShiftModulator(
                InputShiftModulator { modulator: Box::new(modulator), sampler: Box::new(sampler) },
            ),
            r@ == (Node::InputShiftModulator {
                sampler: Box::new(sampler@),
                modulator: Box::new(modulator@),
            }),
    {
        Signal::InputShiftModulator(
            InputShiftModulator { modulator: Box::new(modulator), sampler: Box::new(sampler) },
        )
    }
}

impl InputGainModulator {
    /// `sampler` read at the time scaled by what `modulator` gives.
    pub fn new(sampler: Signal, modulator: Signal) -> (r: Signal)
        ensures
            r == Signal::InputGainModulator(
                InputGainModulator { modulator: Box::new(modulator), sampler: Box::new(sampler) },
            ),
            r@ == (Node::InputGainModulator {
                sampler: Box::new(sampler@),
                modulator: Box::new(modulator@),
            }),
    {
        Signal::InputGainModulator(
            InputGainModulator { modulator: Box::new(modulator), sampler: Box::new(sampler) },
        )
    }
}

impl Response {
    /// `system` read at the time that `input` gives.
    pub fn new(input: Signal, system: Signal) -> (r: Signal)
        ensures
            r == Signal::Response(Response { input: Box::new(input), system: Box::new(system) }),
            r@ == (Node::Response { input: Box::new(input@), system: Box::new(system@) }),
    {
        Signal::Response(Response { input: Box::new(input), system: Box::new(system) })
    }
}

impl Compound {
    /// The sum of the signals of `samplers`, each scaled by its gain.
    pub fn new(samplers: Vec<(Ratio, Signal)>) -> (r: Signal)
        ensures
            r == Signal::Compound(Compound { samplers }),
            r@ == (Node::Compound { parts: parts_of(samplers@, samplers@.len() as int) }),
    {
        Signal::Compound(Compound { samplers })
    }
}

} // verus!
