//! The sequencer: compiles tracker notation into timed note events, voice by
//! voice, and hands each note to an instrument.
//!
//! This file says what a notation means: what every token does to the state
//! of its voice, and which notes a voice emits.

use crate::lexer::{is_digit, lemma_token_bounds, token_at, token_end, Number, Token, MAX_NUMBER};
use crate::notes::{
    transposed,
    A,
    A_SHARP_B_FLAT,
    B,
    C,
    C_SHARP_D_FLAT,
    D,
    D_SHARP_E_FLAT,
    E,
    F,
    F_SHARP_G_FLAT,
    G,
    G_SHARP_A_FLAT,
    SILENCE,
};
use crate::ratio::{quotient, representable, Ratio};
use vstd::prelude::*;

pub mod compile;
pub mod perform;

pub use compile::{compile, gain, note_of, notes_of, step_is, track_is, tracks_are, StepValue, Track};
pub use perform::{
    all_outcomes,
    arrange,
    arranged,
    notes_placed,
    outcomes,
    outcomes_of,
    performed,
    place_note,
    play,
    play_voice,
    played,
    sounded,
    voice_placed,
    voices_placed,
    Performance,
    PerformanceSpec,
    PlayError,
    Sound,
};

verus! {

/// Why a voice could not be compiled.
#[derive(Clone, Copy, Debug, PartialEq, Eq, Structural)]
pub enum ParseErrorKind {
    /// The token names no command and no note.
    UnknownCommand,
    /// A command that sets a value has no digits.
    MissingNumber,
    /// The digits spell a number above what the field holds.
    NumberTooLarge,
    /// A tempo or a length of zero.
    ZeroNumber,
    /// An octave step that leaves the range of octaves.
    OctaveOutOfRange,
    /// A frequency or a point in time that no fraction within the limits equals.
    OutOfRange,
    /// A separator with no voice on one side of it.
    EmptyTrack,
}

/// An error of the sequencer, with the place of the offending text.
#[derive(Clone, Copy, Debug, PartialEq, Eq, Structural)]
pub struct ParseError {
    pub kind: ParseErrorKind,
    /// The byte offset of the offending text in the notation.
    pub position: usize,
    /// The length in bytes of the offending text.
    pub length: usize,
}

/// What the commands of a voice set.
#[derive(Clone, Copy, Debug, PartialEq, Eq, Structural)]
pub struct TrackState {
    pub octave: u8,
    pub tempo: u32,
    pub length: u32,
    pub volume: u32,
}

/// The octave at the start of every voice.
pub const DEFAULT_OCTAVE: u8 = 4;

/// The tempo at the start of every voice.
pub const DEFAULT_TEMPO: u32 = 80;

/// The length denominator at the start of every voice.
pub const DEFAULT_LENGTH: u32 = 4;

/// The volume at the start of every voice.
pub const DEFAULT_VOLUME: u32 = 120;

/// The highest octave.
pub const MAX_OCTAVE: u8 = 255;

/// The byte `c`, and so on for the other note names.
pub const NOTE_C: u8 = 99;

pub const NOTE_D: u8 = 100;

pub const NOTE_E: u8 = 101;

pub const NOTE_F: u8 = 102;

pub const NOTE_G: u8 = 103;

pub const NOTE_A: u8 = 97;

pub const NOTE_B: u8 = 98;

/// The byte `p`, a rest.
pub const REST_P: u8 = 112;

/// The byte `r`, a rest.
pub const REST_R: u8 = 114;

/// The byte `o`, which sets the octave.
pub const OCTAVE: u8 = 111;

/// The byte `t`, which sets the tempo.
pub const TEMPO: u8 = 116;

/// The byte `l`, which sets the length of the notes that bring none.
pub const LENGTH: u8 = 108;

/// The byte `v`, which sets the volume.
pub const VOLUME: u8 = 118;

/// The byte `>`, one octave up.
pub const OCTAVE_UP: u8 = 62;

/// The byte `<`, one octave down.
pub const OCTAVE_DOWN: u8 = 60;

/// The byte `&`, the tie.
pub const TIE: u8 = 38;

/// The state at the start of every voice.
pub open spec fn initial_state() -> TrackState {
    TrackState {
        octave: DEFAULT_OCTAVE,
        tempo: DEFAULT_TEMPO,
        length: DEFAULT_LENGTH,
        volume: DEFAULT_VOLUME,
    }
}

/// A state whose tempo and length give every note a length.
pub open spec fn valid_state(state: TrackState) -> bool {
    &&& 1 <= state.tempo <= MAX_NUMBER
    &&& 1 <= state.length <= MAX_NUMBER
    &&& state.volume <= MAX_NUMBER
}

/// One note as the sequencer emits it: times in seconds, the frequency in hertz.
#[derive(Clone, Copy, Debug, PartialEq, Eq, Structural)]
pub struct NoteEvent {
    pub start: Ratio,
    pub frequency: Ratio,
    pub length: Ratio,
    pub volume: Ratio,
}

/// The values of a note.
pub struct NoteSpec {
    pub start: real,
    pub frequency: real,
    pub length: real,
    pub volume: real,
}

impl View for NoteEvent {
    type V = NoteSpec;

    open spec fn view(&self) -> NoteSpec {
        NoteSpec {
            start: self.start@,
            frequency: self.frequency@,
            length: self.length@,
            volume: self.volume@,
        }
    }
}

/// The length in seconds of a note: `320 / tempo / denominator`, half as long again when dotted.
pub open spec fn tone_length(tempo: u32, denominator: u32, dotted: bool) -> real {
    320real / (tempo as real) / (denominator as real) * (if dotted {
        3real / 2real
    } else {
        1real
    })
}

/// The gain that a volume stands for.
pub open spec fn gain_of(volume: u32) -> real {
    quotient(volume as int, 200)
}

/// The pitch that a note name stands for, in hundredths of a hertz at octave 4.
pub open spec fn note_named(head: u8, sharp: bool, flat: bool) -> Option<u32> {
    if sharp && flat {
        None
    } else if head == NOTE_C {
        Some(if sharp { C_SHARP_D_FLAT } else if flat { B } else { C })
    } else if head == NOTE_D {
        Some(if sharp { D_SHARP_E_FLAT } else if flat { C_SHARP_D_FLAT } else { D })
    } else if head == NOTE_E {
        if sharp { None } else { Some(if flat { D_SHARP_E_FLAT } else { E }) }
    } else if head == NOTE_F {
        if flat { None } else { Some(if sharp { F_SHARP_G_FLAT } else { F }) }
    } else if head == NOTE_G {
        Some(if sharp { G_SHARP_A_FLAT } else if flat { F_SHARP_G_FLAT } else { G })
    } else if head == NOTE_A {
        Some(if sharp { A_SHARP_B_FLAT } else if flat { G_SHARP_A_FLAT } else { A })
    } else if head == NOTE_B {
        Some(if sharp { C } else if flat { A_SHARP_B_FLAT } else { B })
    } else if (head == REST_P || head == REST_R) && !sharp && !flat {
        Some(SILENCE)
    } else {
        None
    }
}

/// The error of kind `kind` for the token `tok`.
pub open spec fn error_at(kind: ParseErrorKind, tok: Token) -> ParseError {
    ParseError { kind, position: tok.start, length: (tok.end - tok.start) as usize }
}

/// The number that a command sets, which is at most `max` and, unless `zero_ok`, not zero.
pub open spec fn field_of(tok: Token, max: u32, zero_ok: bool) -> Result<u32, ParseError> {
    match tok.number {
        Number::Absent => Err(error_at(ParseErrorKind::MissingNumber, tok)),
        Number::TooLarge => Err(error_at(ParseErrorKind::NumberTooLarge, tok)),
        Number::Value(n) => if n > max {
            Err(error_at(ParseErrorKind::NumberTooLarge, tok))
        } else if n == 0 && !zero_ok {
            Err(error_at(ParseErrorKind::ZeroNumber, tok))
        } else {
            Ok(n)
        },
    }
}

/// The length denominator of a note: its own number, or else the voice's length.
pub open spec fn denominator_of(tok: Token, state: TrackState) -> Result<u32, ParseError> {
    match tok.number {
        Number::Absent => Ok(state.length),
        _ => field_of(tok, MAX_NUMBER, false),
    }
}

/// What one token does: the state and the time behind it, and the note that it emits.
pub struct Step {
    pub state: TrackState,
    pub time: real,
    pub note: Option<NoteSpec>,
}

/// A step that changes the state only.
pub open spec fn set_state(state: TrackState, time: real) -> Result<Step, ParseError> {
    Ok(Step { state, time, note: None })
}

/// The step of a note token of pitch `note`.
pub open spec fn sound_note(tok: Token, note: u32, state: TrackState, time: real) -> Result<
    Step,
    ParseError,
> {
    match denominator_of(tok, state) {
        Err(e) => Err(e),
        Ok(denominator) => {
            let frequency = transposed(note, state.octave);
            let length = tone_length(state.tempo, denominator, tok.dotted);
            if !representable(frequency) || !representable(time + length) {
                Err(error_at(ParseErrorKind::OutOfRange, tok))
            } else {
                Ok(
                    Step {
                        state,
                        time: time + length,
                        note: Some(
                            NoteSpec {
                                start: time,
                                frequency,
                                length,
                                volume: gain_of(state.volume),
                            },
                        ),
                    },
                )
            }
        },
    }
}

/// The step of the token `tok` in the state `state` at the time `time`.
pub open spec fn apply(tok: Token, state: TrackState, time: real) -> Result<Step, ParseError> {
    if tok.sharp || tok.flat {
        match note_named(tok.head, tok.sharp, tok.flat) {
            Some(note) => sound_note(tok, note, state, time),
            None => Err(error_at(ParseErrorKind::UnknownCommand, tok)),
        }
    } else if tok.head == OCTAVE {
        match field_of(tok, MAX_OCTAVE as u32, true) {
            Ok(n) => set_state(TrackState { octave: n as u8, ..state }, time),
            Err(e) => Err(e),
        }
    } else if tok.head == TEMPO {
        match field_of(tok, MAX_NUMBER, false) {
            Ok(n) => set_state(TrackState { tempo: n, ..state }, time),
            Err(e) => Err(e),
        }
    } else if tok.head == LENGTH {
        match field_of(tok, MAX_NUMBER, false) {
            Ok(n) => set_state(TrackState { length: n, ..state }, time),
            Err(e) => Err(e),
        }
    } else if tok.head == VOLUME {
        match field_of(tok, MAX_NUMBER, true) {
            Ok(n) => set_state(TrackState { volume: n, ..state }, time),
            Err(e) => Err(e),
        }
    } else if tok.head == OCTAVE_UP {
        if state.octave == MAX_OCTAVE {
            Err(error_at(ParseErrorKind::OctaveOutOfRange, tok))
        } else {
            set_state(TrackState { octave: (state.octave + 1) as u8, ..state }, time)
        }
    } else if tok.head == OCTAVE_DOWN {
        if state.octave == 0 {
            Err(error_at(ParseErrorKind::OctaveOutOfRange, tok))
        } else {
            set_state(TrackState { octave: (state.octave - 1) as u8, ..state }, time)
        }
    } else if tok.head == TIE {
        set_state(state, time)
    } else {
        match note_named(tok.head, false, false) {
            Some(note) => sound_note(tok, note, state, time),
            None => Err(error_at(ParseErrorKind::UnknownCommand, tok)),
        }
    }
}

/// A compiled voice: its notes in order, and the time at which the last one ends.
pub struct TrackSpec {
    pub events: Seq<NoteSpec>,
    pub span: real,
}

/// The voice `s[i..end]`, continued from `state`, `time` and the notes `events`.
/// Digits that belong to no token are passed over.
pub open spec fn scan(
    s: Seq<u8>,
    i: int,
    end: int,
    state: TrackState,
    time: real,
    events: Seq<NoteSpec>,
) -> Result<TrackSpec, ParseError>
    decreases end - i,
    when 0 <= i && end <= s.len()
    via scan_decreases
{
    if i >= end {
        Ok(TrackSpec { events, span: time })
    } else if is_digit(s[i]) {
        scan(s, i + 1, end, state, time, events)
    } else {
        match apply(token_at(s, i, end), state, time) {
            Err(e) => Err(e),
            Ok(step) => scan(
                s,
                token_end(s, i, end),
                end,
                step.state,
                step.time,
                match step.note {
                    Some(note) => events.push(note),
                    None => events,
                },
            ),
        }
    }
}

#[via_fn]
proof fn scan_decreases(
    s: Seq<u8>,
    i: int,
    end: int,
    state: TrackState,
    time: real,
    events: Seq<NoteSpec>,
) {
    if i < end {
        lemma_token_bounds(s, i, end);
    }
}

/// The voice that the text `s[lo..hi]` spells.
pub open spec fn voice(s: Seq<u8>, lo: int, hi: int) -> Result<TrackSpec, ParseError> {
    scan(s, lo, hi, initial_state(), 0real, Seq::empty())
}

/// The notes follow each other without gap or overlap from time zero, and end at `end`.
pub open spec fn chained(events: Seq<NoteSpec>, end: real) -> bool {
    &&& forall|k: int|
        #![trigger events[k]]
        0 <= k < events.len() ==> events[k].start == if k == 0 {
            0real
        } else {
            events[k - 1].start + events[k - 1].length
        }
    &&& end == if events.len() == 0 {
        0real
    } else {
        events.last().start + events.last().length
    }
}

/// Scanning on from notes that follow each other gives notes that follow each other.
pub proof fn lemma_scan_chained(
    s: Seq<u8>,
    i: int,
    end: int,
    state: TrackState,
    time: real,
    events: Seq<NoteSpec>,
)
    requires
        0 <= i,
        end <= s.len(),
        chained(events, time),
    ensures
        scan(s, i, end, state, time, events) matches Ok(t) ==> chained(t.events, t.span),
    decreases end - i,
{
    if i >= end {
    } else if is_digit(s[i]) {
        lemma_scan_chained(s, i + 1, end, state, time, events);
    } else {
        lemma_token_bounds(s, i, end);
        match apply(token_at(s, i, end), state, time) {
            Err(_) => {},
            Ok(step) => {
                let next = match step.note {
                    Some(note) => events.push(note),
                    None => events,
                };
                assert(chained(next, step.time));
                lemma_scan_chained(s, token_end(s, i, end), end, step.state, step.time, next);
            },
        }
    }
}

/// In every voice each note starts where the one before it ends, the first at
/// time zero, and the span is the end of the last.
pub proof fn lemma_voice_chained(s: Seq<u8>, lo: int, hi: int)
    requires
        0 <= lo <= hi <= s.len(),
    ensures
        voice(s, lo, hi) matches Ok(t) ==> chained(t.events, t.span),
{
    lemma_scan_chained(s, lo, hi, initial_state(), 0real, Seq::empty());
}

/// The byte that separates voices.
pub const SEPARATOR: u8 = 44;

/// The offset of the first separator at or behind `i`, or the length of the text.
pub open spec fn separator_from(s: Seq<u8>, i: int) -> int
    decreases s.len() - i,
{
    if 0 <= i < s.len() && s[i] != SEPARATOR {
        separator_from(s, i + 1)
    } else {
        i
    }
}

/// The voice `s[lo..hi]`; where the text holds several voices, an empty one is an error.
pub open spec fn voice_or_empty(s: Seq<u8>, lo: int, hi: int, many: bool) -> Result<
    TrackSpec,
    ParseError,
> {
    if many && lo == hi {
        Err(ParseError { kind: ParseErrorKind::EmptyTrack, position: lo as usize, length: 0 })
    } else {
        voice(s, lo, hi)
    }
}

/// The voices of the text from the offset `i` on.
pub open spec fn voices_from(s: Seq<u8>, i: int, many: bool) -> Seq<Result<TrackSpec, ParseError>>
    decreases s.len() - i,
    when 0 <= i <= s.len()
    via voices_decreases
{
    let j = separator_from(s, i);
    if j >= s.len() {
        seq![voice_or_empty(s, i, j, many)]
    } else {
        seq![voice_or_empty(s, i, j, many)] + voices_from(s, j + 1, many)
    }
}

#[via_fn]
proof fn voices_decreases(s: Seq<u8>, i: int, many: bool) {
    lemma_separator_bounds(s, i);
}

/// The next separator is at or behind `i`, within the text.
pub proof fn lemma_separator_bounds(s: Seq<u8>, i: int)
    requires
        0 <= i <= s.len(),
    ensures
        i <= separator_from(s, i) <= s.len(),
        separator_from(s, i) < s.len() ==> s[separator_from(s, i)] == SEPARATOR,
    decreases s.len() - i,
{
    if i < s.len() && s[i] != SEPARATOR {
        lemma_separator_bounds(s, i + 1);
    }
}

/// In every voice among those from the offset `i` on, each note starts where
/// the one before it ends.
pub proof fn lemma_voices_chained(s: Seq<u8>, i: int, many: bool)
    requires
        0 <= i <= s.len(),
    ensures
        forall|k: int|
            0 <= k < voices_from(s, i, many).len() ==> (#[trigger] voices_from(
                s,
                i,
                many,
            )[k] matches Ok(t) ==> chained(t.events, t.span)),
    decreases s.len() - i,
{
    lemma_separator_bounds(s, i);
    let j = separator_from(s, i);
    lemma_voice_chained(s, i, j);
    if j < s.len() {
        lemma_voices_chained(s, j + 1, many);
        let rest = voices_from(s, j + 1, many);
        assert forall|k: int| 0 <= k < voices_from(s, i, many).len() implies (
        #[trigger] voices_from(s, i, many)[k] matches Ok(t) ==> chained(t.events, t.span)) by {
            if k > 0 {
                assert(voices_from(s, i, many)[k] == rest[k - 1]);
            }
        }
    }
}

/// In every voice of a compiled notation each note starts where the one
/// before it ends, the first at time zero, and the span of the voice is the
/// end of its last note.
pub proof fn lemma_compiled_chained(s: Seq<u8>)
    ensures
        forall|k: int|
            0 <= k < compiled(s).len() ==> (#[trigger] compiled(s)[k] matches Ok(t) ==> chained(
                t.events,
                t.span,
            )),
{
    lemma_voices_chained(s, 0, separator_from(s, 0) < s.len());
}

/// What the notation `s` compiles to: one outcome for each voice, in order.
pub open spec fn compiled(s: Seq<u8>) -> Seq<Result<TrackSpec, ParseError>> {
    voices_from(s, 0, separator_from(s, 0) < s.len())
}

} // verus!
