//! The compiler: reads a notation token by token and emits the notes of its voices.

use crate::lexer::{digit, next_token, Number, Token, MAX_NUMBER};
use crate::mml::{
    apply,
    chained,
    compiled,
    error_at,
    field_of,
    gain_of,
    lemma_compiled_chained,
    lemma_voice_chained,
    note_named,
    scan,
    separator_from,
    sound_note,
    tone_length,
    valid_state,
    voice,
    voice_or_empty,
    voices_from,
    NoteEvent,
    NoteSpec,
    ParseError,
    ParseErrorKind,
    Step,
    TrackSpec,
    TrackState,
    DEFAULT_LENGTH,
    DEFAULT_OCTAVE,
    DEFAULT_TEMPO,
    DEFAULT_VOLUME,
    LENGTH,
    MAX_OCTAVE,
    NOTE_A,
    NOTE_B,
    NOTE_C,
    NOTE_D,
    NOTE_E,
    NOTE_F,
    NOTE_G,
    OCTAVE,
    OCTAVE_DOWN,
    OCTAVE_UP,
    REST_P,
    REST_R,
    SEPARATOR,
    TEMPO,
    TIE,
    VOLUME,
};
use crate::notes::{
    on_octave,
    A,
    A_SHARP_B_FLAT,
    B,
    C,
    C_SHARP_D_FLAT,
    D,
    D_SHARP_E_FLAT,
    E,
    F,
    F_SHARP_G_FLAT,
    G,
    G_SHARP_A_FLAT,
    SILENCE,
};
use crate::ratio::{lemma_in_range_representable, Ratio};
use vstd::prelude::*;
use vstd::string::StringSliceAdditionalSpecFns;

verus! {

/// The values of the notes `events`.
pub open spec fn notes_of(events: Seq<NoteEvent>) -> Seq<NoteSpec> {
    Seq::new(events.len(), |k: int| events[k]@)
}

/// A compiled voice.
#[derive(Debug)]
pub struct Track {
    /// The notes in the order of the text.
    pub events: Vec<NoteEvent>,
    /// The time at which the last note ends.
    pub span: Ratio,
}

impl View for Track {
    type V = TrackSpec;

    open spec fn view(&self) -> TrackSpec {
        TrackSpec { events: notes_of(self.events@), span: self.span@ }
    }
}

/// What one token did.
pub struct StepValue {
    pub state: TrackState,
    pub time: Ratio,
    pub note: Option<NoteEvent>,
}

impl View for StepValue {
    type V = Step;

    open spec fn view(&self) -> Step {
        Step {
            state: self.state,
            time: self.time@,
            note: match self.note {
                Some(note) => Some(note@),
                None => None,
            },
        }
    }
}

/// `r` is the outcome `expected`, value for value.
pub open spec fn step_is(r: Result<StepValue, ParseError>, expected: Result<Step, ParseError>) -> bool {
    match r {
        Ok(v) => expected == Ok::<Step, ParseError>(v@),
        Err(e) => expected == Err::<Step, ParseError>(e),
    }
}

/// `r` is the outcome `expected`, value for value.
pub open spec fn track_is(r: Result<Track, ParseError>, expected: Result<TrackSpec, ParseError>) -> bool {
    match r {
        Ok(v) => expected == Ok::<TrackSpec, ParseError>(v@),
        Err(e) => expected == Err::<TrackSpec, ParseError>(e),
    }
}

/// `r` holds the outcomes `expected`, value for value.
pub open spec fn tracks_are(
    r: Seq<Result<Track, ParseError>>,
    expected: Seq<Result<TrackSpec, ParseError>>,
) -> bool {
    &&& r.len() == expected.len()
    &&& forall|k: int| 0 <= k < r.len() ==> track_is(#[trigger] r[k], expected[k])
}

/// Looks a note name up.
pub fn note_of(head: u8, sharp: bool, flat: bool) -> (r: Option<u32>)
    ensures
        r == note_named(head, sharp, flat),
{
    if sharp && flat {
        None
    } else if head == NOTE_C {
        Some(if sharp { C_SHARP_D_FLAT } else if flat { B } else { C })
    } else if head == NOTE_D {
        Some(if sharp { D_SHARP_E_FLAT } else if flat { C_SHARP_D_FLAT } else { D })
    } else if head == NOTE_E {
        if sharp { None } else { Some(if flat { D_SHARP_E_FLAT } else { E }) }
    } else if head == NOTE_F {
        if flat { None } else { Some(if sharp { F_SHARP_G_FLAT } else { F }) }
    } else if head == NOTE_G {
        Some(if sharp { G_SHARP_A_FLAT } else if flat { F_SHARP_G_FLAT } else { G })
    } else if head == NOTE_A {
        Some(if sharp { A_SHARP_B_FLAT } else if flat { G_SHARP_A_FLAT } else { A })
    } else if head == NOTE_B {
        Some(if sharp { C } else if flat { A_SHARP_B_FLAT } else { B })
    } else if (head == REST_P || head == REST_R) && !sharp && !flat {
        Some(SILENCE)
    } else {
        None
    }
}

/// The error of kind `kind` for the token `tok`.
fn error_for(kind: ParseErrorKind, tok: &Token) -> (e: ParseError)
    requires
        tok.start <= tok.end,
    ensures
        e == error_at(kind, *tok),
{
    ParseError { kind, position: tok.start, length: tok.end - tok.start }
}

/// Reads the number that a command sets.
fn read_field(tok: &Token, max: u32, zero_ok: bool) -> (r: Result<u32, ParseError>)
    requires
        tok.start <= tok.end,
    ensures
        r == field_of(*tok, max, zero_ok),
{
    match tok.number {
        Number::Absent => Err(error_for(ParseErrorKind::MissingNumber, tok)),
        Number::TooLarge => Err(error_for(ParseErrorKind::NumberTooLarge, tok)),
        Number::Value(n) => if n > max {
            Err(error_for(ParseErrorKind::NumberTooLarge, tok))
        } else if n == 0 && !zero_ok {
            Err(error_for(ParseErrorKind::ZeroNumber, tok))
        } else {
            Ok(n)
        },
    }
}

/// The length in seconds of a note.
pub(crate) fn tone(tempo: u32, denominator: u32, dotted: bool) -> (r: Ratio)
    requires
        1 <= tempo <= MAX_NUMBER,
        1 <= denominator <= MAX_NUMBER,
    ensures
        r@ == tone_length(tempo, denominator, dotted),
{
    let n: i64 = if dotted {
        960
    } else {
        640
    };
    assert(1 <= tempo * denominator * 2 <= 0x7fff_fffe_0000_0002) by (nonlinear_arith)
        requires
            1 <= tempo <= 0x7fff_ffff,
            1 <= denominator <= 0x7fff_ffff,
    ;
    let d: i64 = (tempo as i64) * (denominator as i64) * 2;
    proof {
        lemma_in_range_representable(n as int, d as int);
        if dotted {
            assert((960int as real) / ((tempo * denominator * 2) as real) == 320real / (
            tempo as real) / (denominator as real) * (3real / 2real)) by (nonlinear_arith)
                requires
                    tempo >= 1,
                    denominator >= 1,
            ;
        } else {
            assert((640int as real) / ((tempo * denominator * 2) as real) == 320real / (
            tempo as real) / (denominator as real) * 1real) by (nonlinear_arith)
                requires
                    tempo >= 1,
                    denominator >= 1,
            ;
        }
    }
    Ratio::new(n, d).unwrap()
}

/// The gain that a volume stands for.
pub fn gain(volume: u32) -> (r: Ratio)
    ensures
        r@ == gain_of(volume),
{
    proof {
        lemma_in_range_representable(volume as int, 200);
    }
    Ratio::new(volume as i64, 200).unwrap()
}

/// Emits the note of pitch `note` that the token `tok` spells.
fn emit(tok: &Token, note: u32, state: &TrackState, time: &Ratio) -> (r: Result<
    StepValue,
    ParseError,
>)
    requires
        tok.start <= tok.end,
        valid_state(*state),
    ensures
        step_is(r, sound_note(*tok, note, *state, time@)),
        r matches Ok(v) ==> v.state == *state,
{
    let denominator = match tok.number {
        Number::Absent => state.length,
        _ => match read_field(tok, MAX_NUMBER, false) {
            Ok(n) => n,
            Err(e) => {
                return Err(e);
            },
        },
    };
    let length = tone(state.tempo, denominator, tok.dotted);
    match on_octave(note, state.octave) {
        None => Err(error_for(ParseErrorKind::OutOfRange, tok)),
        Some(frequency) => match time.add(&length) {
            None => Err(error_for(ParseErrorKind::OutOfRange, tok)),
            Some(end) => Ok(
                StepValue {
                    state: *state,
                    time: end,
                    note: Some(
                        NoteEvent { start: *time, frequency, length, volume: gain(state.volume) },
                    ),
                },
            ),
        },
    }
}

/// Does what the token `tok` says.
fn apply_token(tok: &Token, state: &TrackState, time: &Ratio) -> (r: Result<StepValue, ParseError>)
    requires
        tok.start <= tok.end,
        valid_state(*state),
    ensures
        step_is(r, apply(*tok, *state, time@)),
        r matches Ok(v) ==> valid_state(v.state),
{
    if tok.sharp || tok.flat {
        match note_of(tok.head, tok.sharp, tok.flat) {
            Some(note) => emit(tok, note, state, time),
            None => Err(error_for(ParseErrorKind::UnknownCommand, tok)),
        }
    } else if tok.head == OCTAVE {
        match read_field(tok, MAX_OCTAVE as u32, true) {
            Ok(n) => Ok(
                StepValue {
                    state: TrackState {
                        octave: n as u8,
                        tempo: state.tempo,
                        length: state.length,
                        volume: state.volume,
                    },
                    time: *time,
                    note: None,
                },
            ),
            Err(e) => Err(e),
        }
    } else if tok.head == TEMPO {
        match read_field(tok, MAX_NUMBER, false) {
            Ok(n) => Ok(
                StepValue {
                    state: TrackState {
                        octave: state.octave,
                        tempo: n,
                        length: state.length,
                        volume: state.volume,
                    },
                    time: *time,
                    note: None,
                },
            ),
            Err(e) => Err(e),
        }
    } else if tok.head == LENGTH {
        match read_field(tok, MAX_NUMBER, false) {
            Ok(n) => Ok(
                StepValue {
                    state: TrackState {
                        octave: state.octave,
                        tempo: state.tempo,
                        length: n,
                        volume: state.volume,
                    },
                    time: *time,
                    note: None,
                },
            ),
            Err(e) => Err(e),
        }
    } else if tok.head == VOLUME {
        match read_field(tok, MAX_NUMBER, true) {
            Ok(n) => Ok(
                StepValue {
                    state: TrackState {
                        octave: state.octave,
                        tempo: state.tempo,
                        length: state.length,
                        volume: n,
                    },
                    time: *time,
                    note: None,
                },
            ),
            Err(e) => Err(e),
        }
    } else if tok.head == OCTAVE_UP {
        if state.octave == MAX_OCTAVE {
            Err(error_for(ParseErrorKind::OctaveOutOfRange, tok))
        } else {
            Ok(
                StepValue {
                    state: TrackState {
                        octave: state.octave + 1,
                        tempo: state.tempo,
                        length: state.length,
                        volume: state.volume,
                    },
                    time: *time,
                    note: None,
                },
            )
        }
    } else if tok.head == OCTAVE_DOWN {
        if state.octave == 0 {
            Err(error_for(ParseErrorKind::OctaveOutOfRange, tok))
        } else {
            Ok(
                StepValue {
                    state: TrackState {
                        octave: state.octave - 1,
                        tempo: state.tempo,
                        length: state.length,
                        volume: state.volume,
                    },
                    time: *time,
                    note: None,
                },
            )
        }
    } else if tok.head == TIE {
        Ok(StepValue { state: *state, time: *time, note: None })
    } else {
        match note_of(tok.head, false, false) {
            Some(note) => emit(tok, note, state, time),
            None => Err(error_for(ParseErrorKind::UnknownCommand, tok)),
        }
    }
}

/// Compiles the voice that `bytes[lo..hi]` spells.
pub(crate) fn compile_voice(bytes: &[u8], lo: usize, hi: usize) -> (r: Result<Track, ParseError>)
    requires
        lo <= hi <= bytes@.len(),
    ensures
        track_is(r, voice(bytes@, lo as int, hi as int)),
        r matches Ok(t) ==> chained(t@.events, t@.span),
{
    proof {
        lemma_voice_chained(bytes@, lo as int, hi as int);
    }
    let mut state = TrackState {
        octave: DEFAULT_OCTAVE,
        tempo: DEFAULT_TEMPO,
        length: DEFAULT_LENGTH,
        volume: DEFAULT_VOLUME,
    };
    let mut time = Ratio::whole(0);
    let mut events: Vec<NoteEvent> = Vec::new();
    let mut i: usize = lo;
    assert(notes_of(events@) =~= Seq::<NoteSpec>::empty());
    while i < hi
        invariant
            lo <= i <= hi <= bytes@.len(),
            valid_state(state),
            voice(bytes@, lo as int, hi as int) == scan(
                bytes@,
                i as int,
                hi as int,
                state,
                time@,
                notes_of(events@),
            ),
        decreases hi - i,
    {
        if digit(bytes[i]) {
            i = i + 1;
        } else {
            let tok = next_token(bytes, i, hi);
            match apply_token(&tok, &state, &time) {
                Err(e) => {
                    return Err(e);
                },
                Ok(step) => {
                    let ghost before = notes_of(events@);
                    state = step.state;
                    time = step.time;
                    match step.note {
                        Some(note) => {
                            events.push(note);
                            assert(notes_of(events@) =~= before.push(note@));
                        },
                        None => {},
                    }
                    i = tok.end;
                },
            }
        }
    }
    Ok(Track { events, span: time })
}

/// Finds the first separator at or behind `i`.
pub(crate) fn find_separator(bytes: &[u8], i: usize) -> (j: usize)
    requires
        i <= bytes@.len(),
    ensures
        j == separator_from(bytes@, i as int),
        i <= j <= bytes@.len(),
{
    let mut j: usize = i;
    while j < bytes.len() && bytes[j] != SEPARATOR
        invariant
            i <= j <= bytes@.len(),
            separator_from(bytes@, i as int) == separator_from(bytes@, j as int),
        decreases bytes@.len() - j,
    {
        j = j + 1;
    }
    j
}

/// Compiles the notation voice by voice. An error ends the voice that holds it
/// and leaves the others as they are.
pub fn compile(mml: &str) -> (r: Vec<Result<Track, ParseError>>)
    ensures
        tracks_are(r@, compiled(mml.spec_bytes())),
        forall|k: int|
            0 <= k < r@.len() ==> (#[trigger] r@[k] matches Ok(t) ==> chained(t@.events, t@.span)),
{
    proof {
        lemma_compiled_chained(mml.spec_bytes());
    }
    let bytes = mml.as_bytes();
    let ghost s = bytes@;
    let n = bytes.len();
    let first = find_separator(bytes, 0);
    let many = first < n;
    let mut out: Vec<Result<Track, ParseError>> = Vec::new();
    let ghost mut done_spec: Seq<Result<TrackSpec, ParseError>> = Seq::empty();
    let mut i: usize = 0;
    let mut done = false;
    while !done
        invariant
            s == bytes@,
            n == s.len(),
            many == (separator_from(s, 0) < s.len()),
            tracks_are(out@, done_spec),
            !done ==> i <= n && compiled(s) == done_spec + voices_from(s, i as int, many),
            done ==> compiled(s) == done_spec,
        decreases
            if done {
                0
            } else {
                n - i + 1
            },
    {
        let j = find_separator(bytes, i);
        let outcome = if many && i == j {
            Err(ParseError { kind: ParseErrorKind::EmptyTrack, position: i, length: 0 })
        } else {
            compile_voice(bytes, i, j)
        };
        proof {
            let one = voice_or_empty(s, i as int, j as int, many);
            assert(track_is(outcome, one));
            if j >= n {
                assert(voices_from(s, i as int, many) == seq![one]);
                assert(done_spec + seq![one] =~= done_spec.push(one));
            } else {
                assert(voices_from(s, i as int, many) == seq![one] + voices_from(
                    s,
                    j + 1,
                    many,
                ));
                assert(done_spec + (seq![one] + voices_from(s, j + 1, many)) =~= done_spec.push(
                    one,
                ) + voices_from(s, j + 1, many));
            }
            done_spec = done_spec.push(one);
        }
        out.push(outcome);
        if j >= n {
            done = true;
        } else {
            i = j + 1;
        }
    }
    out
}

} // verus!
