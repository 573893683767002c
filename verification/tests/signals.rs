use debuzzy::ratio::{Ratio, LIMIT};
use debuzzy::sampler::{
    AmplitudeModulator, Compound, ConfigurationError, Const, Delay, FrequencyModulator, Gain,
    Impulse, InputGainModulator, InputShiftModulator, Limit, Line, Move, Quadratic, Response,
    Sampler, Sawtooth, Shift, Signal, Sine, SineIntegral, Square, Triangle, Window,
};

fn ratio(num: i64, den: i64) -> Ratio {
    Ratio::new(num, den).unwrap()
}

fn whole(n: i32) -> Ratio {
    Ratio::whole(n)
}

fn at(signal: &Signal, num: i64, den: i64) -> Option<Ratio> {
    signal.sample(&ratio(num, den))
}

#[test]
fn a_constant_is_the_same_at_every_time() {
    let signal = Const::new(ratio(1, 2));
    assert_eq!(at(&signal, 0, 1), Some(ratio(1, 2)));
    assert_eq!(at(&signal, -7, 3), Some(ratio(1, 2)));
    assert_eq!(at(&signal, LIMIT, 1), Some(ratio(1, 2)));
}

#[test]
fn a_line_and_a_parabola() {
    assert_eq!(at(&Line::new(whole(1), whole(2)), 3, 1), Some(whole(7)));
    assert_eq!(at(&Line::new(whole(1), whole(2)), -1, 2), Some(whole(0)));
    assert_eq!(at(&Quadratic::new(whole(1), whole(2), whole(3)), 2, 1), Some(whole(17)));
    assert_eq!(at(&Quadratic::new(whole(1), whole(2), whole(3)), 1, 2), Some(ratio(11, 4)));
}

#[test]
fn a_value_beyond_the_limit_is_not_found() {
    assert_eq!(at(&Line::new(whole(0), ratio(LIMIT, 1)), 2, 1), None);
    assert_eq!(at(&Line::new(ratio(LIMIT, 1), whole(1)), 1, 1), None);
    assert_eq!(at(&Gain::new(Const::new(ratio(LIMIT, 1)), whole(2)), 0, 1), None);
    assert_eq!(at(&Shift::new(Const::new(whole(1)), ratio(LIMIT, 1)), 1, 1), None);
}

#[test]
fn a_sine_wave_has_no_exact_value() {
    assert_eq!(at(&Sine::sin(whole(1)), 0, 1), None);
    assert_eq!(at(&Sine::cos(whole(1)), 1, 4), None);
    assert_eq!(at(&Gain::new(Sine::sin(whole(440)), whole(2)), 1, 3), None);
    assert_eq!(
        Sine::cos(whole(3)),
        Signal::Sine(Sine { freq: whole(3), phase: ratio(1, 4) })
    );
    assert_eq!(Sine::sin(whole(3)), Sine::new(whole(3), whole(0)));
}

#[test]
fn a_sawtooth_rises_from_minus_one_to_one() {
    let signal = Sawtooth::new(whole(1));
    assert_eq!(at(&signal, 0, 1), Some(whole(-1)));
    assert_eq!(at(&signal, 1, 4), Some(ratio(-1, 2)));
    assert_eq!(at(&signal, 1, 2), Some(whole(0)));
    assert_eq!(at(&signal, 3, 4), Some(ratio(1, 2)));
    assert_eq!(at(&signal, 1, 1), Some(whole(-1)));
    assert_eq!(at(&signal, -1, 4), Some(ratio(1, 2)));
    assert_eq!(at(&Sawtooth::new(whole(4)), 1, 16), Some(ratio(-1, 2)));
}

#[test]
fn a_square_wave_changes_sign_with_the_whole_part() {
    let signal = Square::new(whole(1));
    assert_eq!(at(&signal, 1, 2), Some(whole(1)));
    assert_eq!(at(&signal, 3, 2), Some(whole(-1)));
    assert_eq!(at(&signal, 2, 1), Some(whole(1)));
    assert_eq!(at(&signal, -1, 2), Some(whole(-1)));
    assert_eq!(at(&signal, -3, 2), Some(whole(1)));
}

#[test]
fn a_triangle_wave_peaks_in_the_middle_of_its_cycle() {
    let signal = Triangle::new(whole(1));
    assert_eq!(at(&signal, 0, 1), Some(whole(-1)));
    assert_eq!(at(&signal, 1, 4), Some(whole(0)));
    assert_eq!(at(&signal, 1, 2), Some(whole(1)));
    assert_eq!(at(&signal, 3, 4), Some(whole(0)));
    assert_eq!(at(&signal, 1, 1), Some(whole(-1)));
    assert_eq!(at(&signal, 1, 8), Some(ratio(-1, 2)));
}

#[test]
fn an_impulse_is_as_wide_as_a_sample() {
    let signal = Impulse::new(whole(100)).unwrap();
    assert_eq!(
        signal,
        Signal::Impulse(Impulse { half_width: ratio(1, 200), height: whole(100) })
    );
    assert_eq!(at(&signal, 0, 1), Some(whole(100)));
    assert_eq!(at(&signal, -1, 400), Some(whole(100)));
    assert_eq!(at(&signal, 1, 200), Some(whole(0)));
    assert_eq!(at(&signal, -1, 200), Some(whole(0)));
    assert_eq!(Impulse::new(whole(0)), Err(ConfigurationError::ZeroRate));
    assert_eq!(Impulse::new(ratio(1, LIMIT)), Ok(Signal::Impulse(Impulse {
        half_width: ratio(LIMIT, 2),
        height: ratio(1, LIMIT),
    })));
    assert_eq!(Impulse::new(ratio(2, LIMIT)), Ok(Signal::Impulse(Impulse {
        half_width: ratio(LIMIT, 4),
        height: ratio(2, LIMIT),
    })));
    assert_eq!(Impulse::new(ratio(LIMIT, 1)), Err(ConfigurationError::OutOfRange));
}

#[test]
fn gain_shift_and_delay() {
    assert_eq!(at(&Gain::new(Const::new(whole(3)), whole(2)), 0, 1), Some(whole(6)));
    assert_eq!(at(&Shift::new(Line::new(whole(0), whole(1)), whole(5)), 2, 1), Some(whole(7)));
    assert_eq!(at(&Delay::new(Line::new(whole(0), whole(1)), whole(5)), 2, 1), Some(whole(-3)));
}

#[test]
fn a_gate_is_open_from_its_start_up_to_its_end() {
    let signal = Limit::new(Const::new(whole(1)), whole(0), whole(1)).unwrap();
    assert_eq!(at(&signal, 0, 1), Some(whole(1)));
    assert_eq!(at(&signal, 999, 1000), Some(whole(1)));
    assert_eq!(at(&signal, 1, 1), Some(whole(0)));
    assert_eq!(at(&signal, -1, 1000), Some(whole(0)));
    assert_eq!(at(&signal, 5, 1), Some(whole(0)));
}

#[test]
fn a_gate_that_ends_before_it_starts_is_refused() {
    assert_eq!(
        Limit::new(Const::new(whole(1)), whole(2), whole(1)),
        Err(ConfigurationError::InvalidGate)
    );
    let empty = Limit::new(Const::new(whole(1)), whole(2), whole(2)).unwrap();
    assert_eq!(at(&empty, 2, 1), Some(whole(0)));
}

#[test]
fn a_closed_gate_hides_what_has_no_value() {
    let signal = Limit::new(Sine::sin(whole(1)), whole(0), whole(1)).unwrap();
    assert_eq!(at(&signal, 2, 1), Some(whole(0)));
    assert_eq!(at(&signal, 1, 2), None);
}

#[test]
fn gating_twice_is_gating_once() {
    let inner = || Line::new(whole(3), whole(2));
    let once = Limit::new(inner(), whole(1), whole(2)).unwrap();
    let twice = Limit::new(
        Limit::new(inner(), whole(1), whole(2)).unwrap(),
        whole(1),
        whole(2),
    )
    .unwrap();
    for (num, den) in [(0, 1), (1, 1), (3, 2), (2, 1), (5, 1), (-1, 1), (199, 100)] {
        assert_eq!(at(&twice, num, den), at(&once, num, den));
    }
    assert_eq!(at(&twice, 3, 2), Some(whole(6)));
}

#[test]
fn a_window_moves_the_band() {
    assert_eq!(at(&Window::new(Const::new(whole(0)), whole(1), whole(3)), 0, 1), Some(whole(2)));
    assert_eq!(at(&Window::new(Const::new(whole(-1)), whole(1), whole(3)), 0, 1), Some(whole(1)));
    assert_eq!(at(&Window::new(Const::new(whole(1)), whole(1), whole(3)), 0, 1), Some(whole(3)));
    assert_eq!(
        at(&Window::new(Const::new(ratio(1, 2)), ratio(3, 10), whole(1)), 0, 1),
        Some(ratio(33, 40))
    );
    assert_eq!(
        Move::new(Const::new(whole(0)), whole(1), whole(3)),
        Window::new(Const::new(whole(0)), whole(1), whole(3))
    );
}

#[test]
fn modulators_read_the_carrier_elsewhere() {
    let ramp = || Line::new(whole(0), whole(1));
    assert_eq!(at(&AmplitudeModulator::new(ramp(), Const::new(whole(3))), 2, 1), Some(whole(6)));
    assert_eq!(
        at(
            &FrequencyModulator::new(Line::new(whole(1), whole(1)), Line::new(whole(0), whole(2))),
            3,
            1
        ),
        Some(whole(7))
    );
    assert_eq!(at(&InputShiftModulator::new(ramp(), Const::new(whole(5))), 2, 1), Some(whole(7)));
    assert_eq!(at(&InputGainModulator::new(ramp(), Const::new(whole(5))), 2, 1), Some(whole(10)));
    assert_eq!(
        at(
            &Response::new(
                Line::new(whole(0), whole(2)),
                Quadratic::new(whole(0), whole(0), whole(1))
            ),
            3,
            1
        ),
        Some(whole(36))
    );
}

#[test]
fn a_compound_is_the_weighted_sum_of_its_parts() {
    let signal = Compound::new(vec![
        (whole(2), Const::new(whole(3))),
        (ratio(1, 2), Line::new(whole(0), whole(4))),
    ]);
    assert_eq!(at(&signal, 1, 1), Some(whole(8)));
    assert_eq!(at(&signal, 0, 1), Some(whole(6)));
    assert_eq!(at(&Compound::new(vec![]), 3, 1), Some(whole(0)));
    let silent = Compound::new(vec![(whole(0), Sine::sin(whole(1)))]);
    assert_eq!(at(&silent, 0, 1), None);
}

#[test]
fn the_integral_of_a_constant_is_a_line_through_zero() {
    let integral = Const::new(ratio(3, 4)).integral().unwrap();
    assert_eq!(integral, Line::new(whole(0), ratio(3, 4)));
    assert_eq!(at(&integral, 0, 1), Some(whole(0)));
    assert_eq!(at(&integral, 5, 3), Some(ratio(5, 4)));
    assert_eq!(at(&integral, -2, 1), Some(ratio(-3, 2)));
}

#[test]
fn the_integral_of_a_line_is_a_parabola_through_zero() {
    let integral = Line::new(whole(1), whole(2)).integral().unwrap();
    assert_eq!(integral, Quadratic::new(whole(0), whole(1), whole(1)));
    assert_eq!(at(&integral, 3, 1), Some(whole(12)));
    assert_eq!(Line::new(whole(0), ratio(1, LIMIT)).integral(), None);
}

#[test]
fn the_integral_of_a_sum_is_the_sum_of_the_integrals() {
    let first = || Const::new(whole(3));
    let second = || Line::new(whole(1), whole(2));
    let signal = Compound::new(vec![(whole(2), first()), (whole(-1), second())]);
    let integral = signal.integral().unwrap();
    for (num, den) in [(0, 1), (2, 1), (-3, 2), (7, 5)] {
        let left = at(&integral, num, den).unwrap();
        let a = at(&first().integral().unwrap(), num, den).unwrap();
        let b = at(&second().integral().unwrap(), num, den).unwrap();
        let right = whole(2).mul(&a).unwrap().add(&whole(-1).mul(&b).unwrap()).unwrap();
        assert_eq!(left, right);
    }
    assert_eq!(at(&integral, 2, 1), Some(whole(6)));
    let mixed = Compound::new(vec![(whole(1), first()), (whole(1), Sawtooth::new(whole(1)))]);
    assert_eq!(mixed.integral(), None);
}

#[test]
fn the_integral_of_a_gated_signal_is_gated_and_zero_at_the_start() {
    let signal = Limit::new(Const::new(whole(2)), whole(1), whole(3)).unwrap();
    let integral = signal.integral().unwrap();
    assert_eq!(
        integral,
        Limit::new(
            Compound::new(vec![
                (whole(1), Line::new(whole(0), whole(2))),
                (whole(-1), Const::new(whole(2))),
            ]),
            whole(1),
            whole(3)
        )
        .unwrap()
    );
    assert_eq!(at(&integral, 1, 1), Some(whole(0)));
    assert_eq!(at(&integral, 2, 1), Some(whole(2)));
    assert_eq!(at(&integral, 0, 1), Some(whole(0)));
    assert_eq!(at(&integral, 3, 1), Some(whole(0)));
    let wave = Limit::new(Sine::sin(whole(1)), whole(1), whole(3)).unwrap();
    assert_eq!(wave.integral(), None);
}

#[test]
fn the_integral_of_a_window() {
    let integral = Window::new(Const::new(whole(0)), whole(1), whole(3)).integral().unwrap();
    assert_eq!(
        integral,
        Compound::new(vec![
            (whole(1), Line::new(whole(0), whole(0))),
            (whole(1), Line::new(whole(0), whole(2))),
        ])
    );
    assert_eq!(at(&integral, 5, 1), Some(whole(10)));
    let moved = Window::new(Const::new(whole(1)), whole(0), whole(4)).integral().unwrap();
    assert_eq!(at(&moved, 3, 1), Some(whole(12)));
}

#[test]
fn the_integral_of_a_sine_wave() {
    assert_eq!(
        Sine::new(whole(2), ratio(1, 4)).integral(),
        Some(Signal::SineIntegral(SineIntegral { freq: whole(2), phase: ratio(1, 4) }))
    );
    assert_eq!(Sine::sin(whole(0)).integral(), Some(Const::new(whole(0))));
    assert_eq!(at(&Sine::sin(whole(2)).integral().unwrap(), 0, 1), None);
}

#[test]
fn some_signals_have_no_integral() {
    assert_eq!(Sawtooth::new(whole(1)).integral(), None);
    assert_eq!(Square::new(whole(1)).integral(), None);
    assert_eq!(Triangle::new(whole(1)).integral(), None);
    assert_eq!(Quadratic::new(whole(1), whole(1), whole(1)).integral(), None);
    assert_eq!(Gain::new(Const::new(whole(1)), whole(1)).integral(), None);
    assert_eq!(Impulse::new(whole(10)).unwrap().integral(), None);
}

#[test]
fn the_trait_gives_what_the_signal_gives() {
    let signal = Line::new(whole(1), whole(2));
    assert_eq!(Sampler::sample(&signal, &whole(3)), Some(whole(7)));
    assert_eq!(Sampler::integral(&signal), signal.integral());
}

#[test]
fn interpolation_goes_through_both_points() {
    let line = Line::interpolate((whole(0), whole(0)), (whole(2), whole(1))).unwrap();
    assert_eq!(line, Line::new(whole(0), ratio(1, 2)));
    let line = Line::interpolate((whole(1), whole(3)), (whole(3), whole(-1))).unwrap();
    assert_eq!(at(&line, 1, 1), Some(whole(3)));
    assert_eq!(at(&line, 3, 1), Some(whole(-1)));
    assert_eq!(at(&line, 2, 1), Some(whole(1)));
}

#[test]
fn interpolation_between_points_at_one_time_is_the_zero_signal() {
    let line = Line::interpolate((whole(1), whole(3)), (whole(1), whole(5))).unwrap();
    assert_eq!(line, Line::new(whole(0), whole(0)));
    assert_eq!(at(&line, 7, 1), Some(whole(0)));
}

#[test]
fn interpolation_beyond_the_limit_is_refused() {
    assert_eq!(
        Line::interpolate((ratio(-LIMIT, 1), whole(0)), (ratio(LIMIT, 1), whole(1))),
        None
    );
}

#[test]
fn envelope_rises_falls_holds_and_fades() {
    let envelope = Compound::adsr(
        ratio(1, 10),
        ratio(2, 10),
        ratio(1, 10),
        ratio(1, 10),
        ratio(6, 10),
    )
    .unwrap();
    assert_eq!(at(&envelope, -1, 1000), Some(whole(0)));
    assert_eq!(at(&envelope, -1, 1), Some(whole(0)));
    assert_eq!(at(&envelope, 0, 1), Some(whole(0)));
    assert_eq!(at(&envelope, 1, 20), Some(ratio(1, 2)));
    assert_eq!(at(&envelope, 1, 10), Some(whole(1)));
    assert_eq!(at(&envelope, 2, 10), Some(ratio(4, 5)));
    assert_eq!(at(&envelope, 3, 10), Some(ratio(3, 5)));
    assert_eq!(at(&envelope, 35, 100), Some(ratio(3, 5)));
    assert_eq!(at(&envelope, 4, 10), Some(ratio(3, 5)));
    assert_eq!(at(&envelope, 45, 100), Some(ratio(3, 10)));
    assert_eq!(at(&envelope, 1, 2), Some(whole(0)));
    assert_eq!(at(&envelope, 501, 1000), Some(whole(0)));
    assert_eq!(at(&envelope, 6, 1), Some(whole(0)));
}

#[test]
fn envelope_is_four_gated_segments() {
    let envelope = Compound::adsr(whole(1), whole(2), whole(3), whole(4), ratio(1, 2)).unwrap();
    let gate = |signal, start, end| Limit::new(signal, whole(start), whole(end)).unwrap();
    assert_eq!(
        envelope,
        Compound::new(vec![
            (whole(1), gate(Line::new(whole(0), whole(1)), 0, 1)),
            (whole(1), gate(Line::new(ratio(5, 4), ratio(-1, 4)), 1, 3)),
            (whole(1), gate(Const::new(ratio(1, 2)), 3, 6)),
            (whole(1), gate(Line::new(ratio(5, 4), ratio(-1, 8)), 6, 10)),
        ])
    );
}

#[test]
fn envelope_with_segments_of_no_length() {
    let envelope = Compound::adsr(whole(0), whole(0), whole(0), whole(0), ratio(1, 2)).unwrap();
    assert_eq!(at(&envelope, 0, 1), Some(whole(0)));
    assert_eq!(at(&envelope, 1, 1), Some(whole(0)));
    let short = Compound::adsr(ratio(1, 10), whole(1), whole(0), ratio(1, 10), ratio(1, 10)).unwrap();
    assert_eq!(at(&short, 11, 10), Some(ratio(1, 10)));
    assert_eq!(at(&short, 115, 100), Some(ratio(1, 20)));
}

#[test]
fn envelope_refuses_a_negative_length() {
    let one = whole(1);
    let minus = whole(-1);
    assert_eq!(Compound::adsr(minus, one, one, one, one), Err(ConfigurationError::NegativeDuration));
    assert_eq!(Compound::adsr(one, minus, one, one, one), Err(ConfigurationError::NegativeDuration));
    assert_eq!(Compound::adsr(one, one, minus, one, one), Err(ConfigurationError::NegativeDuration));
    assert_eq!(Compound::adsr(one, one, one, minus, one), Err(ConfigurationError::NegativeDuration));
    assert!(Compound::adsr(one, one, one, one, minus).is_ok());
}

#[test]
fn envelope_beyond_the_limit_is_refused() {
    let big = ratio(LIMIT, 1);
    assert_eq!(Compound::adsr(big, big, whole(0), whole(0), whole(1)), Err(ConfigurationError::OutOfRange));
}

#[test]
fn unison_spreads_the_voices_by_octaves() {
    let chord = Compound::unison(whole(440), 3, Sine::sin).unwrap();
    assert_eq!(
        chord,
        Compound::new(vec![
            (whole(1), Sine::sin(whole(220))),
            (whole(1), Sine::sin(whole(440))),
            (whole(1), Sine::sin(whole(880))),
        ])
    );
    let single = Compound::unison(ratio(5, 3), 1, Const::new).unwrap();
    assert_eq!(single, Compound::new(vec![(whole(1), Const::new(ratio(5, 3)))]));
    let seven = Compound::unison(whole(8), 7, Const::new).unwrap();
    assert_eq!(at(&seven, 0, 1), Some(whole(1 + 2 + 4 + 8 + 16 + 32 + 64)));
}

#[test]
fn unison_refuses_an_even_number_of_voices() {
    assert_eq!(Compound::unison(whole(440), 2, Sine::sin), Err(ConfigurationError::EvenVoiceCount));
    assert_eq!(Compound::unison(whole(440), 0, Sine::sin), Err(ConfigurationError::EvenVoiceCount));
}

#[test]
fn unison_beyond_the_limit_is_refused() {
    assert_eq!(
        Compound::unison(ratio(LIMIT, 1), 3, Sine::sin),
        Err(ConfigurationError::OutOfRange)
    );
    assert_eq!(
        Compound::unison(ratio(1, LIMIT), 3, Sine::sin),
        Err(ConfigurationError::OutOfRange)
    );
}

#[test]
fn events_are_placed_at_their_starts() {
    let piece = Compound::play(vec![
        (whole(2), Line::new(whole(0), whole(1))),
        (whole(0), Const::new(whole(10))),
    ]);
    assert_eq!(
        piece,
        Compound::new(vec![
            (whole(1), Shift::new(Line::new(whole(0), whole(1)), whole(-2))),
            (whole(1), Shift::new(Const::new(whole(10)), whole(0))),
        ])
    );
    assert_eq!(at(&piece, 5, 1), Some(whole(13)));
    assert_eq!(Compound::play(vec![]), Compound::new(vec![]));
}

#[test]
fn a_copy_equals_what_it_copies() {
    let signal = Gain::new(
        AmplitudeModulator::new(
            Compound::new(vec![
                (ratio(1, 3), Sine::sin(whole(440))),
                (whole(2), Limit::new(Sawtooth::new(whole(3)), whole(0), whole(1)).unwrap()),
            ]),
            Window::new(Triangle::new(whole(5)), whole(0), whole(1)),
        ),
        ratio(7, 8),
    );
    assert_eq!(signal.duplicate(), signal);
    let other = Response::new(
        Delay::new(Square::new(whole(1)), whole(2)),
        InputShiftModulator::new(
            FrequencyModulator::new(Const::new(whole(1)), Line::new(whole(0), whole(1))),
            InputGainModulator::new(Shift::new(Const::new(whole(2)), whole(1)), Const::new(whole(3))),
        ),
    );
    assert_eq!(other.duplicate(), other);
}

#[test]
fn the_waves_stay_between_minus_one_and_one() {
    let waves = [Sawtooth::new(ratio(7, 3)), Square::new(ratio(7, 3)), Triangle::new(ratio(7, 3))];
    for k in -40..40 {
        for wave in waves.iter() {
            let value = at(wave, k, 17).unwrap();
            assert!(whole(-1).le(&value) && value.le(&whole(1)));
        }
    }
}

#[test]
fn a_window_of_a_wave_stays_within_its_band() {
    let signal = Window::new(Triangle::new(whole(3)), ratio(3, 10), whole(1));
    for k in -40..40 {
        let value = at(&signal, k, 29).unwrap();
        assert!(ratio(3, 10).le(&value) && value.le(&whole(1)));
    }
}

#[test]
fn an_integral_without_a_gate_is_zero_at_time_zero() {
    let signals = [
        Const::new(ratio(5, 7)),
        Line::new(whole(3), ratio(-2, 9)),
        Window::new(Line::new(whole(1), whole(1)), whole(2), whole(5)),
        Compound::new(vec![
            (ratio(1, 3), Const::new(whole(4))),
            (whole(-2), Window::new(Const::new(ratio(1, 2)), whole(0), whole(1))),
        ]),
    ];
    for signal in signals.iter() {
        assert_eq!(at(&signal.integral().unwrap(), 0, 1), Some(whole(0)));
    }
}

#[test]
fn a_frequency_modulator_reads_at_the_integral_of_the_frequency() {
    let carrier = || Line::new(whole(1), whole(3));
    let signal = FrequencyModulator::of_frequency(carrier(), &Const::new(whole(2))).unwrap();
    assert_eq!(signal, FrequencyModulator::new(carrier(), Line::new(whole(0), whole(2))));
    assert_eq!(at(&signal, 5, 1), Some(whole(31)));
    assert_eq!(at(&signal, 0, 1), Some(whole(1)));
    assert_eq!(FrequencyModulator::of_frequency(carrier(), &Sawtooth::new(whole(1))), None);
}
