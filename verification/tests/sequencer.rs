use debuzzy::mml::{compile, gain, note_of, ParseError, ParseErrorKind, Track};
use debuzzy::notes::{
    on_octave, A, A_SHARP_B_FLAT, B, C, C_SHARP_D_FLAT, D, D_SHARP_E_FLAT, E, F, F_SHARP_G_FLAT, G,
    G_SHARP_A_FLAT,
};
use debuzzy::ratio::Ratio;

fn ratio(num: i64, den: i64) -> Ratio {
    Ratio::new(num, den).unwrap()
}

fn hertz(note: u32) -> Ratio {
    ratio(note as i64, 100)
}

fn only(text: &str) -> Track {
    let mut tracks = compile(text);
    assert_eq!(tracks.len(), 1);
    tracks.pop().unwrap().unwrap()
}

fn failure(text: &str) -> ParseError {
    let mut tracks = compile(text);
    assert_eq!(tracks.len(), 1);
    tracks.pop().unwrap().unwrap_err()
}

#[test]
fn scale_has_seven_notes_one_second_each() {
    let track = only("cdefgab");
    assert_eq!(track.events.len(), 7);
    let table = [C, D, E, F, G, A, B];
    for (k, event) in track.events.iter().enumerate() {
        assert_eq!(event.frequency, hertz(table[k]));
        assert_eq!(event.start, ratio(k as i64, 1));
        assert_eq!(event.length, ratio(320, 80 * 4));
        assert_eq!(event.volume, ratio(120, 200));
    }
    assert_eq!(track.span, ratio(7 * 320, 80 * 4));
    assert_eq!(track.span, ratio(7, 1));
}

#[test]
fn every_note_starts_where_the_one_before_ends() {
    let track = only("t60l4cdl8e.>f2&r16");
    assert_eq!(track.events.len(), 5);
    assert_eq!(track.events[0].start, Ratio::zero());
    for k in 1..track.events.len() {
        let before = &track.events[k - 1];
        assert_eq!(Some(track.events[k].start), before.start.add(&before.length));
    }
    let last = &track.events[4];
    assert_eq!(Some(track.span), last.start.add(&last.length));
    assert_eq!(track.events[1].start, ratio(4, 3));
    assert_eq!(track.events[2].start, ratio(8, 3));
    assert_eq!(track.events[2].length, ratio(1, 1));
    assert_eq!(track.events[3].length, ratio(8, 3));
    assert_eq!(track.events[4].length, ratio(1, 3));
    assert_eq!(track.span, ratio(20, 3));
}

#[test]
fn octave_command_transposes() {
    assert_eq!(only("o5c").events[0].frequency, ratio(52326, 100));
    assert_eq!(only("o3a").events[0].frequency, ratio(220, 1));
    assert_eq!(only("o4a").events[0].frequency, ratio(440, 1));
    assert_eq!(only("o0c").events[0].frequency, ratio(26163, 1600));
}

#[test]
fn octave_steps_move_by_one() {
    assert_eq!(only(">c").events[0].frequency, ratio(52326, 100));
    assert_eq!(only("<c").events[0].frequency, ratio(26163, 200));
    assert_eq!(only("><c").events[0].frequency, hertz(C));
    assert_eq!(only("o2>>a").events[0].frequency, ratio(440, 1));
}

#[test]
fn tempo_and_length_set_the_duration() {
    assert_eq!(only("t120c").events[0].length, ratio(2, 3));
    assert_eq!(only("l8c").events[0].length, ratio(1, 2));
    assert_eq!(only("c8").events[0].length, ratio(1, 2));
    assert_eq!(only("l8c2").events[0].length, ratio(2, 1));
    assert_eq!(only("t160l1c").events[0].length, ratio(2, 1));
    assert_eq!(only("c1").events[0].length, ratio(4, 1));
}

#[test]
fn a_dot_makes_a_note_half_as_long_again() {
    assert_eq!(only("c8.").events[0].length, ratio(3, 4));
    assert_eq!(only("c.").events[0].length, ratio(3, 2));
    assert_eq!(only("t120l8c.").events[0].length, ratio(1, 2));
}

#[test]
fn volume_is_a_two_hundredth_of_the_number() {
    assert_eq!(only("v100c").events[0].volume, ratio(1, 2));
    assert_eq!(only("v0c").events[0].volume, Ratio::zero());
    assert_eq!(only("v127c").events[0].volume, ratio(127, 200));
    assert_eq!(only("c").events[0].volume, ratio(3, 5));
    assert_eq!(gain(50), ratio(1, 4));
}

#[test]
fn rests_are_notes_of_frequency_zero() {
    let track = only("crpd");
    assert_eq!(track.events.len(), 4);
    assert_eq!(track.events[1].frequency, Ratio::zero());
    assert_eq!(track.events[2].frequency, Ratio::zero());
    assert_eq!(track.events[3].start, ratio(3, 1));
}

#[test]
fn a_tie_emits_nothing_and_takes_no_time() {
    let track = only("c&c");
    assert_eq!(track.events.len(), 2);
    assert_eq!(track.events[1].start, ratio(1, 1));
    assert_eq!(track.span, ratio(2, 1));
    assert_eq!(only("&").events.len(), 0);
    assert_eq!(only("&4.").span, Ratio::zero());
}

#[test]
fn accidentals_follow_the_table() {
    assert_eq!(only("c+").events[0].frequency, hertz(C_SHARP_D_FLAT));
    assert_eq!(only("c#").events[0].frequency, hertz(C_SHARP_D_FLAT));
    assert_eq!(only("d-").events[0].frequency, hertz(C_SHARP_D_FLAT));
    assert_eq!(only("d+").events[0].frequency, hertz(D_SHARP_E_FLAT));
    assert_eq!(only("e-").events[0].frequency, hertz(D_SHARP_E_FLAT));
    assert_eq!(only("f+").events[0].frequency, hertz(F_SHARP_G_FLAT));
    assert_eq!(only("g-").events[0].frequency, hertz(F_SHARP_G_FLAT));
    assert_eq!(only("g+").events[0].frequency, hertz(G_SHARP_A_FLAT));
    assert_eq!(only("a-").events[0].frequency, hertz(G_SHARP_A_FLAT));
    assert_eq!(only("a+").events[0].frequency, hertz(A_SHARP_B_FLAT));
    assert_eq!(only("b-").events[0].frequency, hertz(A_SHARP_B_FLAT));
    assert_eq!(only("b+").events[0].frequency, hertz(C));
    assert_eq!(only("c-").events[0].frequency, hertz(B));
}

#[test]
fn note_names_map_to_the_table() {
    assert_eq!(note_of(b'c', false, false), Some(C));
    assert_eq!(note_of(b'd', false, false), Some(D));
    assert_eq!(note_of(b'e', false, false), Some(E));
    assert_eq!(note_of(b'f', false, false), Some(F));
    assert_eq!(note_of(b'g', false, false), Some(G));
    assert_eq!(note_of(b'a', false, false), Some(A));
    assert_eq!(note_of(b'b', false, false), Some(B));
    assert_eq!(note_of(b'r', false, false), Some(0));
    assert_eq!(note_of(b'p', false, false), Some(0));
    assert_eq!(note_of(b'e', true, false), None);
    assert_eq!(note_of(b'f', false, true), None);
    assert_eq!(note_of(b'c', true, true), None);
    assert_eq!(note_of(b'r', true, false), None);
    assert_eq!(note_of(b'x', false, false), None);
}

#[test]
fn upper_case_reads_as_lower_case() {
    let track = only("T120L8O5CD#");
    assert_eq!(track.events.len(), 2);
    assert_eq!(track.events[0].frequency, ratio(52326, 100));
    assert_eq!(track.events[0].length, ratio(1, 3));
    assert_eq!(track.events[1].frequency, ratio(2 * 31113, 100));
}

#[test]
fn digits_that_belong_to_no_token_are_passed_over() {
    assert_eq!(only("12c").events.len(), 1);
    let track = only("c4.5d");
    assert_eq!(track.events.len(), 2);
    assert_eq!(track.events[0].length, ratio(3, 2));
    assert_eq!(track.events[1].length, ratio(1, 1));
    assert_eq!(only("123").events.len(), 0);
}

#[test]
fn commas_separate_voices() {
    let tracks = compile("cd,e,fga");
    assert_eq!(tracks.len(), 3);
    assert_eq!(tracks[0].as_ref().unwrap().events.len(), 2);
    assert_eq!(tracks[1].as_ref().unwrap().events.len(), 1);
    assert_eq!(tracks[2].as_ref().unwrap().events.len(), 3);
    assert_eq!(tracks[2].as_ref().unwrap().events[0].start, Ratio::zero());
}

#[test]
fn every_voice_starts_from_the_defaults() {
    let tracks = compile("o6t200l16v50c,c");
    let second = tracks[1].as_ref().unwrap();
    assert_eq!(second.events[0].frequency, hertz(C));
    assert_eq!(second.events[0].length, ratio(1, 1));
    assert_eq!(second.events[0].volume, ratio(3, 5));
}

#[test]
fn the_empty_text_is_one_empty_voice() {
    let track = only("");
    assert_eq!(track.events.len(), 0);
    assert_eq!(track.span, Ratio::zero());
}

#[test]
fn a_separator_with_nothing_beside_it_is_an_error() {
    let tracks = compile("c,,d");
    assert_eq!(tracks.len(), 3);
    assert!(tracks[0].is_ok());
    assert_eq!(
        tracks[1].as_ref().unwrap_err(),
        &ParseError { kind: ParseErrorKind::EmptyTrack, position: 2, length: 0 }
    );
    assert!(tracks[2].is_ok());
    let tracks = compile("c,");
    assert_eq!(
        tracks[1].as_ref().unwrap_err(),
        &ParseError { kind: ParseErrorKind::EmptyTrack, position: 2, length: 0 }
    );
    let tracks = compile(",");
    assert_eq!(tracks.len(), 2);
    assert_eq!(tracks[0].as_ref().unwrap_err().position, 0);
    assert_eq!(tracks[1].as_ref().unwrap_err().position, 1);
}

#[test]
fn an_error_ends_its_voice_only() {
    let tracks = compile("cx,de");
    assert!(tracks[0].is_err());
    assert_eq!(tracks[1].as_ref().unwrap().events.len(), 2);
}

#[test]
fn unknown_command_is_reported_with_its_place() {
    assert_eq!(
        failure("c4x8"),
        ParseError { kind: ParseErrorKind::UnknownCommand, position: 2, length: 2 }
    );
    assert_eq!(
        failure("e+"),
        ParseError { kind: ParseErrorKind::UnknownCommand, position: 0, length: 2 }
    );
    assert_eq!(
        failure("cf-4."),
        ParseError { kind: ParseErrorKind::UnknownCommand, position: 1, length: 4 }
    );
    assert_eq!(
        failure("c+-"),
        ParseError { kind: ParseErrorKind::UnknownCommand, position: 0, length: 3 }
    );
    assert_eq!(
        failure("c.."),
        ParseError { kind: ParseErrorKind::UnknownCommand, position: 2, length: 1 }
    );
    assert_eq!(failure("o+4").kind, ParseErrorKind::UnknownCommand);
    assert_eq!(failure("c d").kind, ParseErrorKind::UnknownCommand);
    assert_eq!(failure("c;").kind, ParseErrorKind::UnknownCommand);
    assert_eq!(failure("r+").kind, ParseErrorKind::UnknownCommand);
    assert_eq!(failure("\u{e9}").kind, ParseErrorKind::UnknownCommand);
}

#[test]
fn a_command_that_sets_a_value_needs_its_number() {
    assert_eq!(
        failure("co"),
        ParseError { kind: ParseErrorKind::MissingNumber, position: 1, length: 1 }
    );
    assert_eq!(failure("t").kind, ParseErrorKind::MissingNumber);
    assert_eq!(failure("l.").kind, ParseErrorKind::MissingNumber);
    assert_eq!(failure("vc").kind, ParseErrorKind::MissingNumber);
}

#[test]
fn numbers_above_the_field_are_refused() {
    assert_eq!(
        failure("o256"),
        ParseError { kind: ParseErrorKind::NumberTooLarge, position: 0, length: 4 }
    );
    assert_eq!(only("o255").events.len(), 0);
    assert_eq!(failure("t2147483648").kind, ParseErrorKind::NumberTooLarge);
    assert_eq!(only("t2147483647").events.len(), 0);
    assert_eq!(failure("l99999999999999999999999").kind, ParseErrorKind::NumberTooLarge);
    assert_eq!(failure("v4294967296").kind, ParseErrorKind::NumberTooLarge);
    assert_eq!(failure("c2147483648").kind, ParseErrorKind::NumberTooLarge);
    assert_eq!(only("c0000000000000000000004").events[0].length, ratio(1, 1));
}

#[test]
fn a_tempo_or_length_of_zero_is_refused() {
    assert_eq!(
        failure("t0"),
        ParseError { kind: ParseErrorKind::ZeroNumber, position: 0, length: 2 }
    );
    assert_eq!(failure("l0").kind, ParseErrorKind::ZeroNumber);
    assert_eq!(failure("c0").kind, ParseErrorKind::ZeroNumber);
    assert_eq!(failure("l00c").kind, ParseErrorKind::ZeroNumber);
}

#[test]
fn octave_steps_stay_within_the_octaves() {
    assert_eq!(
        failure("o0<"),
        ParseError { kind: ParseErrorKind::OctaveOutOfRange, position: 2, length: 1 }
    );
    assert_eq!(
        failure("o255>"),
        ParseError { kind: ParseErrorKind::OctaveOutOfRange, position: 4, length: 1 }
    );
    assert_eq!(only("o254>").events.len(), 0);
    assert_eq!(only("o1<").events.len(), 0);
}

#[test]
fn a_frequency_beyond_the_limit_is_refused() {
    assert_eq!(
        failure("o200c"),
        ParseError { kind: ParseErrorKind::OutOfRange, position: 4, length: 1 }
    );
    assert_eq!(only("o200r").events[0].frequency, Ratio::zero());
    assert_eq!(only("o54c").events.len(), 1);
    assert_eq!(failure("o55c").kind, ParseErrorKind::OutOfRange);
    assert_eq!(failure("o91c").kind, ParseErrorKind::OutOfRange);
}

#[test]
fn a_time_beyond_the_limit_is_refused() {
    let error = failure("l1t2147483647ct2147483629ct2147483587c");
    assert_eq!(error.kind, ParseErrorKind::OutOfRange);
    assert_eq!(error.position, 37);
    assert_eq!(error.length, 1);
}

#[test]
fn transposition_doubles_with_every_octave() {
    assert_eq!(on_octave(A, 4), Some(ratio(440, 1)));
    assert_eq!(on_octave(A, 5), Some(ratio(880, 1)));
    assert_eq!(on_octave(A, 0), Some(ratio(55, 2)));
    assert_eq!(on_octave(C, 4), Some(ratio(26163, 100)));
    assert_eq!(on_octave(0, 255), Some(Ratio::zero()));
    assert_eq!(on_octave(A, 91), None);
    assert_eq!(on_octave(A, 255), None);
    assert_eq!(on_octave(1, 63), Some(ratio(1i64 << 57, 25)));
}
