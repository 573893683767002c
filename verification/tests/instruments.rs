use debuzzy::instrument::{Drum, DummyInstrument, Instrument, LegitInstrument};
use debuzzy::mml::{arrange, compile, play, ParseError, ParseErrorKind, PlayError};
use debuzzy::ratio::Ratio;
use debuzzy::sampler::{
    AmplitudeModulator, Compound, ConfigurationError, FrequencyModulator, Gain, Sawtooth, Shift,
    Signal, Sine, Window,
};

fn ratio(num: i64, den: i64) -> Ratio {
    Ratio::new(num, den).unwrap()
}

fn whole(n: i32) -> Ratio {
    Ratio::whole(n)
}

fn envelope(attack: Ratio, decay: Ratio, sustain: Ratio, release: Ratio, level: Ratio) -> Signal {
    Compound::adsr(attack, decay, sustain, release, level).unwrap()
}

#[test]
fn the_drum_is_a_swept_sawtooth() {
    let tenth = ratio(1, 10);
    let twentieth = ratio(1, 20);
    let sound = Drum::play(whole(440), whole(1), ratio(1, 2)).unwrap();
    assert_eq!(
        sound,
        Gain::new(
            FrequencyModulator::new(
                AmplitudeModulator::new(
                    Sawtooth::new(ratio(440, 32)),
                    envelope(tenth, tenth, whole(0), tenth, tenth)
                ),
                envelope(twentieth, whole(1), twentieth, twentieth, tenth)
            ),
            ratio(1, 10)
        )
    );
}

#[test]
fn the_drum_plays_a_rest() {
    assert!(Drum::play(whole(0), whole(1), whole(0)).is_ok());
}

#[test]
fn the_dummy_instrument_is_a_sawtooth_with_vibrato() {
    let tenth = ratio(1, 10);
    let sound = DummyInstrument::play(whole(440), whole(2), ratio(1, 2)).unwrap();
    assert_eq!(
        sound,
        Gain::new(
            FrequencyModulator::new(
                AmplitudeModulator::new(
                    Sawtooth::new(whole(440)),
                    envelope(tenth, whole(2), whole(0), tenth, tenth)
                ),
                Window::new(Sine::sin(whole(5)), ratio(105, 100), ratio(110, 100))
            ),
            ratio(1, 20)
        )
    );
}

#[test]
fn an_instrument_refuses_a_negative_length() {
    assert_eq!(
        DummyInstrument::play(whole(440), whole(-1), whole(1)),
        Err(ConfigurationError::NegativeDuration)
    );
    assert_eq!(
        LegitInstrument::play(whole(440), whole(-1), whole(1)),
        Err(ConfigurationError::NegativeDuration)
    );
    assert!(Drum::play(whole(440), whole(-1), whole(1)).is_ok());
}

#[test]
fn the_legit_instrument_is_seven_sines_with_tremolo() {
    let tenth = ratio(1, 10);
    let sound = LegitInstrument::play(whole(440), whole(2), ratio(3, 5)).unwrap();
    let voices = [55, 110, 220, 440, 880, 1760, 3520]
        .iter()
        .map(|f| (whole(1), Sine::sin(whole(*f))))
        .collect();
    assert_eq!(
        sound,
        Gain::new(
            AmplitudeModulator::new(
                AmplitudeModulator::new(
                    Compound::new(vec![(tenth, Compound::new(voices))]),
                    Window::new(Sine::sin(whole(4)), ratio(3, 10), whole(1))
                ),
                envelope(tenth, whole(2), whole(0), tenth, tenth)
            ),
            ratio(3, 5)
        )
    );
}

#[test]
fn an_instrument_refuses_what_is_beyond_the_limit() {
    let big = ratio(debuzzy::ratio::LIMIT, 1);
    let tiny = ratio(1, debuzzy::ratio::LIMIT);
    let refused = Err(ConfigurationError::OutOfRange);
    assert_eq!(LegitInstrument::play(big, whole(1), whole(1)), refused);
    assert_eq!(Drum::play(whole(1), whole(1), tiny), refused);
    assert_eq!(Drum::play(tiny, whole(1), whole(1)), refused);
    assert_eq!(DummyInstrument::play(whole(1), whole(1), tiny), refused);
    assert_eq!(DummyInstrument::play(whole(1), big, whole(1)), refused);
    assert!(Drum::play(whole(1), whole(1), big).is_ok());
}

#[test]
fn a_piece_is_the_sum_of_its_voices_each_the_sum_of_its_notes() {
    let piece = play::<DummyInstrument>("cd,e");
    assert!(piece.errors.is_empty());
    let note = |hundredths: i64, start: i32| {
        (
            whole(1),
            Shift::new(
                DummyInstrument::play(ratio(hundredths, 100), whole(1), ratio(3, 5)).unwrap(),
                whole(-start),
            ),
        )
    };
    let voice = |notes| (whole(1), Shift::new(Compound::new(notes), whole(0)));
    assert_eq!(
        piece.signal,
        Compound::new(vec![
            voice(vec![note(26163, 0), note(29366, 1)]),
            voice(vec![note(32963, 0)]),
        ])
    );
}

#[test]
fn a_voice_that_does_not_compile_is_left_out_and_reported() {
    let piece = play::<DummyInstrument>("c,dx,e");
    assert_eq!(
        piece.errors,
        vec![PlayError::Parse(ParseError {
            kind: ParseErrorKind::UnknownCommand,
            position: 3,
            length: 1
        })]
    );
    match &piece.signal {
        Signal::Compound(sum) => assert_eq!(sum.samplers.len(), 2),
        _ => panic!("a piece is a sum"),
    }
    assert_eq!(piece.signal, play::<DummyInstrument>("c,e").signal);
}

#[test]
fn a_note_that_the_instrument_refuses_is_left_out_and_reported() {
    let piece = play::<LegitInstrument>("co52co4d");
    assert_eq!(
        piece.errors,
        vec![PlayError::Note { voice: 0, index: 1, error: ConfigurationError::OutOfRange }]
    );
    match &piece.signal {
        Signal::Compound(sum) => match &sum.samplers[0].1 {
            Signal::Shift(shift) => match &*shift.sampler {
                Signal::Compound(voice) => {
                    assert_eq!(voice.samplers.len(), 2);
                    assert_eq!(
                        voice.samplers[1].1,
                        Shift::new(
                            LegitInstrument::play(ratio(29366, 100), whole(1), ratio(3, 5)).unwrap(),
                            whole(-2)
                        )
                    );
                },
                _ => panic!("a voice is a sum"),
            },
            _ => panic!("a voice is placed"),
        },
        _ => panic!("a piece is a sum"),
    }
}

#[test]
fn errors_come_in_the_order_of_the_text() {
    let piece = play::<LegitInstrument>("o52c,x,o52co51c");
    assert_eq!(piece.errors.len(), 3);
    assert_eq!(
        piece.errors[0],
        PlayError::Note { voice: 0, index: 0, error: ConfigurationError::OutOfRange }
    );
    assert!(matches!(piece.errors[1], PlayError::Parse(_)));
    assert_eq!(
        piece.errors[2],
        PlayError::Note { voice: 2, index: 0, error: ConfigurationError::OutOfRange }
    );
}

#[test]
fn arranging_compiled_voices_gives_the_piece() {
    let tracks = compile("l8cde,r4g");
    let piece = arrange::<Drum>(&tracks);
    assert!(piece.errors.is_empty());
    assert_eq!(piece.signal, play::<Drum>("l8cde,r4g").signal);
    let empty = play::<Drum>("");
    assert!(empty.errors.is_empty());
    assert_eq!(
        empty.signal,
        Compound::new(vec![(whole(1), Shift::new(Compound::new(vec![]), whole(0)))])
    );
}

struct Beep;

impl Instrument for Beep {
    fn play(note: Ratio, length: Ratio, volume: Ratio) -> Result<Signal, ConfigurationError> {
        if note.is_zero() {
            return Err(ConfigurationError::OutOfRange);
        }
        let gated = debuzzy::sampler::Limit::new(Sine::sin(note), Ratio::zero(), length)?;
        Ok(Gain::new(gated, volume))
    }
}

#[test]
fn an_instrument_from_outside_plays_a_piece() {
    let piece = play::<Beep>("l4a8r");
    assert_eq!(
        piece.errors,
        vec![PlayError::Note { voice: 0, index: 1, error: ConfigurationError::OutOfRange }]
    );
    let note = Gain::new(
        debuzzy::sampler::Limit::new(Sine::sin(whole(440)), whole(0), ratio(1, 2)).unwrap(),
        ratio(3, 5),
    );
    assert_eq!(
        piece.signal,
        Compound::new(vec![(
            whole(1),
            Shift::new(Compound::new(vec![(whole(1), Shift::new(note, whole(0)))]), whole(0))
        )])
    );
}
