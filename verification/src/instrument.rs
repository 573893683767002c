//! Instruments: what turns a note into a signal.

use crate::compound::{built, envelope_outcome, unison_of, voice_of};
use crate::node::{held, unison_pitch, Node};
use crate::ratio::Ratio;
use crate::sampler::{
    lemma_parts_of,
    parts_of,
    AmplitudeModulator,
    Compound,
    ConfigurationError,
    FrequencyModulator,
    Gain,
    Sawtooth,
    Signal,
    Sine,
    Window,
};
use vstd::prelude::*;

verus! {

/// What makes the signal of a note from its frequency in hertz, its length in
/// seconds and its volume. Nothing is asked of the signal: what the sequencer
/// does with it holds of every instrument.
pub trait Instrument {
    /// Builds the signal of a note, or says why there is none.
    fn play(note: Ratio, length: Ratio, volume: Ratio) -> (r: Result<Signal, ConfigurationError>);
}

/// `carrier` scaled by `amplitude`.
pub open spec fn shaped(carrier: Node, amplitude: Node) -> Node {
    Node::AmplitudeModulator { sampler: Box::new(carrier), amplitude: Box::new(amplitude) }
}

/// `carrier` read at the time that `frequency_integral` gives.
pub open spec fn bent(carrier: Node, frequency_integral: Node) -> Node {
    Node::FrequencyModulator {
        sampler: Box::new(carrier),
        frequency_integral: Box::new(frequency_integral),
    }
}

/// `sampler` scaled by `gain`.
pub open spec fn scaled(sampler: Node, gain: real) -> Node {
    Node::Gain { sampler: Box::new(sampler), gain }
}

/// The sine wave of `freq` cycles a second, moved to lie between `low` and `high`.
pub open spec fn wobble(freq: real, low: real, high: real) -> Node {
    Node::Window { sampler: Box::new(Node::Sine { freq, phase: 0real }), low, high }
}

/// A short percussive sound, five octaves below the note.
pub struct Drum;

/// The sound of the [`Drum`]: a sawtooth five octaves below the note, shaped by
/// a short envelope and swept by another.
pub open spec fn drum(note: real, volume: real) -> Result<Node, ConfigurationError> {
    match held(note / 32real) {
        None => Err(ConfigurationError::OutOfRange),
        Some(freq) => match envelope_outcome(
            1real / 10real,
            1real / 10real,
            0real,
            1real / 10real,
            1real / 10real,
        ) {
            Err(e) => Err(e),
            Ok(amplitude) => match envelope_outcome(
                1real / 20real,
                1real,
                1real / 20real,
                1real / 20real,
                1real / 10real,
            ) {
                Err(e) => Err(e),
                Ok(sweep) => match held(1real / 5real * volume) {
                    None => Err(ConfigurationError::OutOfRange),
                    Some(gain) => Ok(
                        scaled(bent(shaped(Node::Sawtooth { freq }, amplitude), sweep), gain),
                    ),
                },
            },
        },
    }
}

impl Instrument for Drum {
    fn play(note: Ratio, _length: Ratio, volume: Ratio) -> (r: Result<Signal, ConfigurationError>)
        ensures
            built(r, drum(note@, volume@)),
    {
        let freq = match note.div(&Ratio::whole(32)) {
            Some(f) => f,
            None => {
                return Err(ConfigurationError::OutOfRange);
            },
        };
        let amplitude = match Compound::adsr(
            Ratio::hundredths(10),
            Ratio::hundredths(10),
            Ratio::whole(0),
            Ratio::hundredths(10),
            Ratio::hundredths(10),
        ) {
            Ok(s) => s,
            Err(e) => {
                return Err(e);
            },
        };
        let sweep = match Compound::adsr(
            Ratio::hundredths(5),
            Ratio::whole(1),
            Ratio::hundredths(5),
            Ratio::hundredths(5),
            Ratio::hundredths(10),
        ) {
            Ok(s) => s,
            Err(e) => {
                return Err(e);
            },
        };
        let gain = match Ratio::hundredths(20).mul(&volume) {
            Some(g) => g,
            None => {
                return Err(ConfigurationError::OutOfRange);
            },
        };
        let sound = AmplitudeModulator::new(Sawtooth::new(freq), amplitude);
        Ok(Gain::new(FrequencyModulator::new(sound, sweep), gain))
    }
}

/// A sawtooth with vibrato.
pub struct DummyInstrument;

/// The sound of the [`DummyInstrument`]: a sawtooth at the note, shaped by an
/// envelope as long as the note, with a vibrato of five cycles a second.
pub open spec fn dummy(note: real, length: real, volume: real) -> Result<Node, ConfigurationError> {
    match envelope_outcome(1real / 10real, length, 0real, 1real / 10real, 1real / 10real) {
        Err(e) => Err(e),
        Ok(amplitude) => match held(1real / 10real * volume) {
            None => Err(ConfigurationError::OutOfRange),
            Some(gain) => Ok(
                scaled(
                    bent(
                        shaped(Node::Sawtooth { freq: note }, amplitude),
                        wobble(5real, 105real / 100real, 110real / 100real),
                    ),
                    gain,
                ),
            ),
        },
    }
}

impl Instrument for DummyInstrument {
    fn play(note: Ratio, length: Ratio, volume: Ratio) -> (r: Result<Signal, ConfigurationError>)
        ensures
            built(r, dummy(note@, length@, volume@)),
    {
        let amplitude = match Compound::adsr(
            Ratio::hundredths(10),
            length,
            Ratio::whole(0),
            Ratio::hundredths(10),
            Ratio::hundredths(10),
        ) {
            Ok(s) => s,
            Err(e) => {
                return Err(e);
            },
        };
        let gain = match Ratio::hundredths(10).mul(&volume) {
            Some(g) => g,
            None => {
                return Err(ConfigurationError::OutOfRange);
            },
        };
        let sound = AmplitudeModulator::new(Sawtooth::new(note), amplitude);
        let vibrato = Window::new(
            Sine::sin(Ratio::whole(5)),
            Ratio::hundredths(105),
            Ratio::hundredths(110),
        );
        Ok(Gain::new(FrequencyModulator::new(sound, vibrato), gain))
    }
}

/// The number of voices of the unison of [`LegitInstrument`].
pub const LEGIT_VOICES: usize = 7;

/// The sine waves of a unison of `count` voices around `pitch`, summed with gain one.
pub open spec fn sine_unison(pitch: real, count: usize) -> Node {
    Node::Compound {
        parts: Seq::new(
            count as nat,
            |k: int|
                (
                    1real,
                    Node::Sine {
                        freq: unison_pitch(pitch, (count / 2) as nat, k as nat).unwrap(),
                        phase: 0real,
                    },
                ),
        ),
    }
}

/// Seven sine waves an octave apart, with tremolo.
pub struct LegitInstrument;

/// The sound of the [`LegitInstrument`]: a unison of seven sine waves around
/// the note at a tenth of their sum, with a tremolo of four cycles a second,
/// shaped by an envelope as long as the note.
pub open spec fn legit(note: real, length: real, volume: real) -> Result<Node, ConfigurationError> {
    match unison_pitch(note, (LEGIT_VOICES / 2) as nat, (LEGIT_VOICES - 1) as nat) {
        None => Err(ConfigurationError::OutOfRange),
        Some(_) => match envelope_outcome(
            1real / 10real,
            length,
            0real,
            1real / 10real,
            1real / 10real,
        ) {
            Err(e) => Err(e),
            Ok(amplitude) => Ok(
                scaled(
                    shaped(
                        shaped(
                            Node::Compound {
                                parts: seq![(1real / 10real, sine_unison(note, LEGIT_VOICES))],
                            },
                            wobble(4real, 3real / 10real, 1real),
                        ),
                        amplitude,
                    ),
                    volume,
                ),
            ),
        },
    }
}

impl Instrument for LegitInstrument {
    fn play(note: Ratio, length: Ratio, volume: Ratio) -> (r: Result<Signal, ConfigurationError>)
        ensures
            built(r, legit(note@, length@, volume@)),
    {
        let sine = |f: Ratio| -> (s: Signal)
            ensures
                s@ == (Node::Sine { freq: f@, phase: 0real }),
            { Sine::sin(f) };
        let chord = match Compound::unison(note, LEGIT_VOICES, sine) {
            Ok(s) => s,
            Err(e) => {
                return Err(e);
            },
        };
        proof {
            let c = chord->Compound_0;
            assert(unison_of(c.samplers@, note@, LEGIT_VOICES, sine));
            lemma_parts_of(c.samplers@, LEGIT_VOICES as int);
            assert forall|k: int| 0 <= k < LEGIT_VOICES implies #[trigger] parts_of(
                c.samplers@,
                LEGIT_VOICES as int,
            )[k] == sine_unison(note@, LEGIT_VOICES)->parts[k] by {
                assert(voice_of(
                    c.samplers@[k],
                    note@,
                    (LEGIT_VOICES / 2) as nat,
                    k as nat,
                    sine,
                ));
            }
            assert(parts_of(c.samplers@, LEGIT_VOICES as int) =~= sine_unison(
                note@,
                LEGIT_VOICES,
            )->parts);
        }
        let amplitude = match Compound::adsr(
            Ratio::hundredths(10),
            length,
            Ratio::whole(0),
            Ratio::hundredths(10),
            Ratio::hundredths(10),
        ) {
            Ok(s) => s,
            Err(e) => {
                return Err(e);
            },
        };
        let ghost chord_node = chord@;
        let mut parts: Vec<(Ratio, Signal)> = Vec::new();
        parts.push((Ratio::hundredths(10), chord));
        proof {
            lemma_parts_of(parts@, 1);
            assert(parts_of(parts@, 1) =~= seq![(1real / 10real, chord_node)]);
        }
        let tremolo = Window::new(
            Sine::sin(Ratio::whole(4)),
            Ratio::hundredths(30),
            Ratio::whole(1),
        );
        Ok(
            Gain::new(
                AmplitudeModulator::new(
                    AmplitudeModulator::new(Compound::new(parts), tremolo),
                    amplitude,
                ),
                volume,
            ),
        )
    }
}

} // verus!
