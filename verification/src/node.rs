//! What a signal is: a tree of generators and combinators over the real
//! numbers, the function of time that it stands for, the value that exact
//! arithmetic within the limits finds for it, and its antiderivative.

use crate::ratio::{absolute, representable};
use vstd::prelude::*;

verus! {

/// A signal with real parameters.
pub enum Node {
    /// The constant `val`.
    Const { val: real },
    /// `a0 + a1 * t`.
    Line { a0: real, a1: real },
    /// `a0 + a1 * t + a2 * t^2`.
    Quadratic { a0: real, a1: real, a2: real },
    /// A sine wave of `freq` cycles a second, `phase` cycles ahead.
    Sine { freq: real, phase: real },
    /// The antiderivative of such a sine wave that is zero at time zero.
    SineIntegral { freq: real, phase: real },
    /// A rising ramp from -1 to 1, `freq` times a second.
    Sawtooth { freq: real },
    /// 1 and -1 in turn, each for `1 / freq` seconds.
    Square { freq: real },
    /// A triangle wave between -1 and 1, `freq` times a second.
    Triangle { freq: real },
    /// `height` within `half_width` of time zero, and zero elsewhere.
    Impulse { half_width: real, height: real },
    /// The sum of the parts, each scaled by its gain.
    Compound { parts: Seq<(real, Node)> },
    /// The signal scaled by `gain`.
    Gain { sampler: Box<Node>, gain: real },
    /// The signal `shift` seconds earlier.
    Shift { sampler: Box<Node>, shift: real },
    /// The signal `delay` seconds later.
    Delay { sampler: Box<Node>, delay: real },
    /// The signal from `start` up to, not including, `end`, and zero elsewhere.
    Limit { sampler: Box<Node>, start: real, end: real },
    /// The signal, taken to lie between -1 and 1, moved to lie between `low` and `high`.
    Window { sampler: Box<Node>, low: real, high: real },
    /// The product of the two signals.
    AmplitudeModulator { sampler: Box<Node>, amplitude: Box<Node> },
    /// The signal at the time that `frequency_integral` gives.
    FrequencyModulator { sampler: Box<Node>, frequency_integral: Box<Node> },
    /// The signal at the time moved by what `modulator` gives.
    InputShiftModulator { sampler: Box<Node>, modulator: Box<Node> },
    /// The signal at the time scaled by what `modulator` gives.
    InputGainModulator { sampler: Box<Node>, modulator: Box<Node> },
    /// `system` at the time that `input` gives.
    Response { input: Box<Node>, system: Box<Node> },
    /// A buffer of samples taken `sample_rate` times a second from time zero.
    Record { sample_rate: real, samples: Seq<real> },
}

/// What stands for the transcendental part of the sine wave: the wave of one
/// cycle a unit, and the length of the circle of radius one.
pub struct Oracle {
    pub sine: spec_fn(real) -> real,
    pub tau: real,
}

/// The part of `x` above the whole number below it.
pub open spec fn fraction(x: real) -> real {
    x - (x.floor() as real)
}

/// The sample of the buffer `samples` that is played at `position`, counted in samples.
pub open spec fn played(samples: Seq<real>, position: real) -> real {
    let index = position.floor();
    if 0 <= index < samples.len() {
        samples[index]
    } else {
        0real
    }
}

/// `x`, where a fraction within the limits equals it.
pub open spec fn held(x: real) -> Option<real> {
    if representable(x) {
        Some(x)
    } else {
        None
    }
}

impl Node {
    /// The value of the signal at the time `t`.
    pub open spec fn value_at(self, t: real, o: Oracle) -> real
        decreases self,
    {
        match self {
            Node::Const { val } => val,
            Node::Line { a0, a1 } => a0 + t * a1,
            Node::Quadratic { a0, a1, a2 } => t * t * a2 + t * a1 + a0,
            Node::Sine { freq, phase } => (o.sine)(t * freq + phase),
            Node::SineIntegral { freq, phase } => ((o.sine)(phase + 1real / 4real) - (o.sine)(
                t * freq + phase + 1real / 4real,
            )) / (o.tau * freq),
            Node::Sawtooth { freq } => fraction(t * freq) * 2real - 1real,
            Node::Square { freq } => if (t * freq).floor() % 2 == 0 {
                1real
            } else {
                -1real
            },
            Node::Triangle { freq } => 2real * absolute(
                2real * (t * freq - ((t * freq + 1real / 2real).floor() as real)),
            ) - 1real,
            Node::Impulse { half_width, height } => if -half_width < t && t < half_width {
                height
            } else {
                0real
            },
            Node::Compound { parts } => Self::mix(parts, t, o, parts.len() as int),
            Node::Gain { sampler, gain } => sampler.value_at(t, o) * gain,
            Node::Shift { sampler, shift } => sampler.value_at(t + shift, o),
            Node::Delay { sampler, delay } => sampler.value_at(t - delay, o),
            Node::Limit { sampler, start, end } => if start <= t && t < end {
                sampler.value_at(t, o)
            } else {
                0real
            },
            Node::Window { sampler, low, high } => (sampler.value_at(t, o) + 1real) / 2real * (high
                - low) + low,
            Node::AmplitudeModulator { sampler, amplitude } => sampler.value_at(t, o)
                * amplitude.value_at(t, o),
            Node::FrequencyModulator { sampler, frequency_integral } => sampler.value_at(
                frequency_integral.value_at(t, o),
                o,
            ),
            Node::InputShiftModulator { sampler, modulator } => sampler.value_at(
                t + modulator.value_at(t, o),
                o,
            ),
            Node::InputGainModulator { sampler, modulator } => sampler.value_at(
                t * modulator.value_at(t, o),
                o,
            ),
            Node::Response { input, system } => system.value_at(input.value_at(t, o), o),
            Node::Record { sample_rate, samples } => played(samples, t * sample_rate),
        }
    }

    /// The sum of the first `n` parts at the time `t`, each scaled by its gain.
    pub open spec fn mix(parts: Seq<(real, Node)>, t: real, o: Oracle, n: int) -> real
        decreases parts, n,
    {
        if n <= 0 || n > parts.len() {
            0real
        } else {
            Self::mix(parts, t, o, n - 1) + parts[n - 1].1.value_at(t, o) * parts[n - 1].0
        }
    }

    /// The value of the signal at the time `t` as exact arithmetic finds it:
    /// none where a sine wave has to be evaluated, or where a step of the
    /// computation gives what no fraction within the limits equals.
    pub open spec fn exact_at(self, t: real) -> Option<real>
        decreases self,
    {
        match self {
            Node::Const { val } => Some(val),
            Node::Line { a0, a1 } => match held(t * a1) {
                Some(m) => held(a0 + m),
                None => None,
            },
            Node::Quadratic { a0, a1, a2 } => match (held(t * t), held(t * a1)) {
                (Some(tt), Some(l)) => match held(tt * a2) {
                    Some(q) => match held(q + l) {
                        Some(s) => held(s + a0),
                        None => None,
                    },
                    None => None,
                },
                _ => None,
            },
            Node::Sine { freq, phase } => None,
            Node::SineIntegral { freq, phase } => None,
            Node::Sawtooth { freq } => match held(t * freq) {
                Some(x) => match held(fraction(x) * 2real) {
                    Some(d) => held(d - 1real),
                    None => None,
                },
                None => None,
            },
            Node::Square { freq } => match held(t * freq) {
                Some(x) => Some(
                    if x.floor() % 2 == 0 {
                        1real
                    } else {
                        -1real
                    },
                ),
                None => None,
            },
            Node::Triangle { freq } => match held(t * freq) {
                Some(x) => match held(x + 1real / 2real) {
                    Some(y) => match held(x - (y.floor() as real)) {
                        Some(z) => match held(2real * z) {
                            Some(w) => match held(2real * absolute(w)) {
                                Some(v) => held(v - 1real),
                                None => None,
                            },
                            None => None,
                        },
                        None => None,
                    },
                    None => None,
                },
                None => None,
            },
            Node::Impulse { half_width, height } => Some(
                if -half_width < t && t < half_width {
                    height
                } else {
                    0real
                },
            ),
            Node::Compound { parts } => Self::mix_exact(parts, t, parts.len() as int),
            Node::Gain { sampler, gain } => match sampler.exact_at(t) {
                Some(x) => held(x * gain),
                None => None,
            },
            Node::Shift { sampler, shift } => match held(t + shift) {
                Some(u) => sampler.exact_at(u),
                None => None,
            },
            Node::Delay { sampler, delay } => match held(t - delay) {
                Some(u) => sampler.exact_at(u),
                None => None,
            },
            Node::Limit { sampler, start, end } => if start <= t && t < end {
                sampler.exact_at(t)
            } else {
                Some(0real)
            },
            Node::Window { sampler, low, high } => match (sampler.exact_at(t), held(high - low)) {
                (Some(x), Some(c)) => match held(x + 1real) {
                    Some(a) => match held(a / 2real) {
                        Some(b) => match held(b * c) {
                            Some(d) => held(d + low),
                            None => None,
                        },
                        None => None,
                    },
                    None => None,
                },
                _ => None,
            },
            Node::AmplitudeModulator { sampler, amplitude } => match (
                sampler.exact_at(t),
                amplitude.exact_at(t),
            ) {
                (Some(x), Some(a)) => held(x * a),
                _ => None,
            },
            Node::FrequencyModulator { sampler, frequency_integral } => match frequency_integral.exact_at(
                t,
            ) {
                Some(u) => sampler.exact_at(u),
                None => None,
            },
            Node::InputShiftModulator { sampler, modulator } => match modulator.exact_at(t) {
                Some(m) => match held(t + m) {
                    Some(u) => sampler.exact_at(u),
                    None => None,
                },
                None => None,
            },
            Node::InputGainModulator { sampler, modulator } => match modulator.exact_at(t) {
                Some(m) => match held(t * m) {
                    Some(u) => sampler.exact_at(u),
                    None => None,
                },
                None => None,
            },
            Node::Response { input, system } => match input.exact_at(t) {
                Some(u) => system.exact_at(u),
                None => None,
            },
            Node::Record { sample_rate, samples } => match held(t * sample_rate) {
                Some(x) => Some(played(samples, x)),
                None => None,
            },
        }
    }

    /// The sum of the first `n` parts at the time `t` as exact arithmetic finds it.
    pub open spec fn mix_exact(parts: Seq<(real, Node)>, t: real, n: int) -> Option<real>
        decreases parts, n,
    {
        if n <= 0 || n > parts.len() {
            Some(0real)
        } else {
            match (Self::mix_exact(parts, t, n - 1), parts[n - 1].1.exact_at(t)) {
                (Some(sum), Some(x)) => match held(x * parts[n - 1].0) {
                    Some(p) => held(sum + p),
                    None => None,
                },
                _ => None,
            }
        }
    }

    /// The antiderivative of the signal, where it has one that the tree can
    /// hold within the limits. That of a gated signal is gated too, and zero
    /// at the start of its interval.
    pub open spec fn antiderivative(self) -> Option<Node>
        decreases self,
    {
        match self {
            Node::Const { val } => Some(Node::Line { a0: 0real, a1: val }),
            Node::Line { a0, a1 } => match held(a1 / 2real) {
                Some(h) => Some(Node::Quadratic { a0: 0real, a1: a0, a2: h }),
                None => None,
            },
            Node::Sine { freq, phase } => Some(
                if freq == 0real {
                    Node::Const { val: 0real }
                } else {
                    Node::SineIntegral { freq, phase }
                },
            ),
            Node::Compound { parts } => match Self::antiderivatives(parts, parts.len() as int) {
                Some(inner) => Some(Node::Compound { parts: inner }),
                None => None,
            },
            Node::Limit { sampler, start, end } => match sampler.antiderivative() {
                Some(inner) => match inner.exact_at(start) {
                    Some(origin) => Some(
                        Node::Limit {
                            sampler: Box::new(
                                Node::Compound {
                                    parts: seq![(1real, inner), (-1real, Node::Const { val: origin })],
                                },
                            ),
                            start,
                            end,
                        },
                    ),
                    None => None,
                },
                None => None,
            },
            Node::Window { sampler, low, high } => match (
                sampler.antiderivative(),
                held((high + -low) / 2real),
                held((high + low) / 2real),
            ) {
                (Some(inner), Some(scale), Some(slope)) => Some(
                    Node::Compound {
                        parts: seq![(scale, inner), (1real, Node::Line { a0: 0real, a1: slope })],
                    },
                ),
                _ => None,
            },
            _ => None,
        }
    }

    /// The first `n` parts with each signal replaced by its antiderivative, where all have one.
    pub open spec fn antiderivatives(parts: Seq<(real, Node)>, n: int) -> Option<Seq<(real, Node)>>
        decreases parts, n,
    {
        if n <= 0 || n > parts.len() {
            Some(Seq::empty())
        } else {
            match (Self::antiderivatives(parts, n - 1), parts[n - 1].1.antiderivative()) {
                (Some(done), Some(inner)) => Some(done.push((parts[n - 1].0, inner))),
                _ => None,
            }
        }
    }

    /// Where some parts lack an antiderivative, more of them do.
    pub proof fn lemma_antiderivatives_fail(parts: Seq<(real, Node)>, k: int, n: int)
        requires
            0 <= k <= n <= parts.len(),
            Self::antiderivatives(parts, k) is None,
        ensures
            Self::antiderivatives(parts, n) is None,
        decreases n - k,
    {
        if k < n {
            Self::lemma_antiderivatives_fail(parts, k, n - 1);
        }
    }

    /// No part of the signal is gated.
    pub open spec fn ungated(self) -> bool
        decreases self,
    {
        match self {
            Node::Limit { sampler, start, end } => false,
            Node::Compound { parts } => Self::all_ungated(parts, parts.len() as int),
            Node::Window { sampler, low, high } => sampler.ungated(),
            _ => true,
        }
    }

    /// None of the first `n` parts is gated.
    pub open spec fn all_ungated(parts: Seq<(real, Node)>, n: int) -> bool
        decreases parts, n,
    {
        if n <= 0 || n > parts.len() {
            true
        } else {
            Self::all_ungated(parts, n - 1) && parts[n - 1].1.ungated()
        }
    }

    /// What exact arithmetic finds is the value of the signal.
    pub proof fn lemma_exact_is_value(self, t: real, o: Oracle)
        ensures
            self.exact_at(t) matches Some(v) ==> v == self.value_at(t, o),
        decreases self,
    {
        match self {
            Node::Compound { parts } => {
                Self::lemma_mix_exact_is_mix(parts, t, o, parts.len() as int);
            },
            Node::Gain { sampler, gain } => {
                sampler.lemma_exact_is_value(t, o);
            },
            Node::Shift { sampler, shift } => {
                sampler.lemma_exact_is_value(t + shift, o);
            },
            Node::Delay { sampler, delay } => {
                sampler.lemma_exact_is_value(t - delay, o);
            },
            Node::Limit { sampler, start, end } => {
                sampler.lemma_exact_is_value(t, o);
            },
            Node::Window { sampler, low, high } => {
                sampler.lemma_exact_is_value(t, o);
            },
            Node::AmplitudeModulator { sampler, amplitude } => {
                sampler.lemma_exact_is_value(t, o);
                amplitude.lemma_exact_is_value(t, o);
            },
            Node::FrequencyModulator { sampler, frequency_integral } => {
                frequency_integral.lemma_exact_is_value(t, o);
                sampler.lemma_exact_is_value(frequency_integral.value_at(t, o), o);
            },
            Node::InputShiftModulator { sampler, modulator } => {
                modulator.lemma_exact_is_value(t, o);
                sampler.lemma_exact_is_value(t + modulator.value_at(t, o), o);
            },
            Node::InputGainModulator { sampler, modulator } => {
                modulator.lemma_exact_is_value(t, o);
                sampler.lemma_exact_is_value(t * modulator.value_at(t, o), o);
            },
            Node::Response { input, system } => {
                input.lemma_exact_is_value(t, o);
                system.lemma_exact_is_value(input.value_at(t, o), o);
            },
            _ => {},
        }
    }

    /// What exact arithmetic finds for a sum is the sum.
    pub proof fn lemma_mix_exact_is_mix(parts: Seq<(real, Node)>, t: real, o: Oracle, n: int)
        ensures
            Self::mix_exact(parts, t, n) matches Some(v) ==> v == Self::mix(parts, t, o, n),
        decreases parts, n,
    {
        if 0 < n <= parts.len() {
            Self::lemma_mix_exact_is_mix(parts, t, o, n - 1);
            parts[n - 1].1.lemma_exact_is_value(t, o);
        }
    }

    /// Where exact arithmetic fails on some parts, it fails on more of them.
    pub proof fn lemma_mix_exact_fails(parts: Seq<(real, Node)>, t: real, k: int, n: int)
        requires
            0 <= k <= n <= parts.len(),
            Self::mix_exact(parts, t, k) is None,
        ensures
            Self::mix_exact(parts, t, n) is None,
        decreases n - k,
    {
        if k < n {
            Self::lemma_mix_exact_fails(parts, t, k, n - 1);
        }
    }
}

/// The line through the points `(ax, ay)` and `(bx, by)`, where exact
/// arithmetic within the limits finds it. Where the points stand at one time,
/// it is the zero signal.
pub open spec fn interpolated(ax: real, ay: real, bx: real, by: real) -> Option<Node> {
    if ax == bx {
        Some(Node::Line { a0: 0real, a1: 0real })
    } else {
        match (held(by - ay), held(bx - ax)) {
            (Some(rise), Some(run)) => match held(rise / run) {
                Some(a1) => match held(ax * a1) {
                    Some(m) => match held(ay - m) {
                        Some(a0) => Some(Node::Line { a0, a1 }),
                        None => None,
                    },
                    None => None,
                },
                None => None,
            },
            _ => None,
        }
    }
}

/// `sampler` gated to the times from `start` up to `end`.
pub open spec fn gated(sampler: Node, start: real, end: real) -> Node {
    Node::Limit { sampler: Box::new(sampler), start, end }
}

/// The envelope that rises from 0 to 1 in `attack` seconds, falls to `level`
/// in `decay` seconds, stays there for `sustain` seconds and falls to 0 in
/// `release` seconds: four gated segments that follow each other, summed.
/// None where exact arithmetic within the limits does not find a segment.
pub open spec fn envelope(attack: real, decay: real, sustain: real, release: real, level: real) -> Option<
    Node,
> {
    match (held(attack + decay), held(attack + decay + sustain)) {
        (Some(t2), Some(t3)) => match held(t3 + release) {
            Some(t4) => match (
                interpolated(0real, 0real, attack, 1real),
                interpolated(attack, 1real, t2, level),
                interpolated(t3, level, t4, 0real),
            ) {
                (Some(rise), Some(fall), Some(fade)) => Some(
                    Node::Compound {
                        parts: seq![
                            (1real, gated(rise, 0real, attack)),
                            (1real, gated(fall, attack, t2)),
                            (1real, gated(Node::Const { val: level }, t2, t3)),
                            (1real, gated(fade, t3, t4)),
                        ],
                    },
                ),
                _ => None,
            },
            None => None,
        },
        _ => None,
    }
}

/// The signals of `events`, each moved to start at the time that goes with it, with gain one.
pub open spec fn placed(events: Seq<(real, Node)>) -> Seq<(real, Node)> {
    Seq::new(
        events.len(),
        |k: int| (1real, Node::Shift { sampler: Box::new(events[k].1), shift: -events[k].0 }),
    )
}

/// `pitch` lowered by `octaves` octaves, one at a time, where exact
/// arithmetic within the limits finds every step.
pub open spec fn lowered(pitch: real, octaves: nat) -> Option<real>
    decreases octaves,
{
    if octaves == 0 {
        Some(pitch)
    } else {
        match lowered(pitch, (octaves - 1) as nat) {
            Some(x) => held(x / 2real),
            None => None,
        }
    }
}

/// The pitch of the voice `k` of a unison that reaches `octaves` octaves
/// below and above `pitch`: `pitch * 2^(k - octaves)`, found from the lowest
/// voice up, one octave at a time.
pub open spec fn unison_pitch(pitch: real, octaves: nat, k: nat) -> Option<real>
    decreases k,
{
    if k == 0 {
        lowered(pitch, octaves)
    } else {
        match unison_pitch(pitch, octaves, (k - 1) as nat) {
            Some(x) => held(2real * x),
            None => None,
        }
    }
}

/// Where a step down fails, the further steps fail.
pub proof fn lemma_lowered_fails(pitch: real, j: nat, octaves: nat)
    requires
        j <= octaves,
        lowered(pitch, j) is None,
    ensures
        lowered(pitch, octaves) is None,
    decreases octaves - j,
{
    if j < octaves {
        lemma_lowered_fails(pitch, j, (octaves - 1) as nat);
    }
}

/// Where a voice has no pitch, the higher voices have none.
pub proof fn lemma_unison_fails(pitch: real, octaves: nat, k: nat, n: nat)
    requires
        k <= n,
        unison_pitch(pitch, octaves, k) is None,
    ensures
        unison_pitch(pitch, octaves, n) is None,
    decreases n - k,
{
    if k < n {
        lemma_unison_fails(pitch, octaves, k, (n - 1) as nat);
    }
}

} // verus!
