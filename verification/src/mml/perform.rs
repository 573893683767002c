//! The performance: the notes of the compiled voices, played on an instrument
//! and summed, each at its time.

use crate::instrument::Instrument;
use crate::mml::compile::{compile, tracks_are, Track};
use crate::mml::{compiled, NoteEvent, NoteSpec, ParseError, TrackSpec};
use crate::node::{placed, Node};
use crate::ratio::Ratio;
use crate::sampler::{lemma_parts_push, parts_of, Compound, ConfigurationError, Signal};
use vstd::prelude::*;
use vstd::string::StringSliceAdditionalSpecFns;

verus! {

/// What went wrong while a piece was put together.
#[derive(Clone, Copy, Debug, PartialEq, Eq, Structural)]
pub enum PlayError {
    /// A voice that did not compile; the piece goes on without it.
    Parse(ParseError),
    /// A note that the instrument refused; the voice goes on without it.
    Note { voice: usize, index: usize, error: ConfigurationError },
}

/// A piece: the signal of what could be played, and what could not be.
#[derive(Debug)]
pub struct Performance {
    pub signal: Signal,
    pub errors: Vec<PlayError>,
}

/// The values of a piece.
pub struct PerformanceSpec {
    pub signal: Node,
    pub errors: Seq<PlayError>,
}

impl View for Performance {
    type V = PerformanceSpec;

    open spec fn view(&self) -> PerformanceSpec {
        PerformanceSpec { signal: self.signal@, errors: self.errors@ }
    }
}

/// What an instrument made of a note: its signal, or why there is none.
pub type Sound = Result<Signal, ConfigurationError>;

/// The sounds `sounds`, each signal by its values.
pub open spec fn outcomes(sounds: Seq<Sound>) -> Seq<Result<Node, ConfigurationError>> {
    Seq::new(
        sounds.len(),
        |j: int|
            match sounds[j] {
                Ok(signal) => Ok(signal@),
                Err(e) => Err(e),
            },
    )
}

/// The first `n` notes of a voice with the sounds that were made of them:
/// every signal with the start of its note, and the notes that have none.
pub open spec fn notes_placed(
    events: Seq<NoteSpec>,
    sounds: Seq<Result<Node, ConfigurationError>>,
    voice: usize,
    n: int,
) -> (Seq<(real, Node)>, Seq<PlayError>)
    decreases n,
{
    if n <= 0 || n > events.len() || n > sounds.len() {
        (Seq::empty(), Seq::empty())
    } else {
        let (parts, errors) = notes_placed(events, sounds, voice, n - 1);
        match sounds[n - 1] {
            Ok(node) => (parts.push((events[n - 1].start, node)), errors),
            Err(error) => (
                parts,
                errors.push(PlayError::Note { voice, index: (n - 1) as usize, error }),
            ),
        }
    }
}

/// The first `n` voices with the sounds that were made of their notes: for
/// each voice that compiled the sum of its notes, each at its start; and
/// everything that was left out, in the order of the text.
pub open spec fn voices_placed(
    tracks: Seq<Result<TrackSpec, ParseError>>,
    sounds: Seq<Seq<Result<Node, ConfigurationError>>>,
    n: int,
) -> (Seq<(real, Node)>, Seq<PlayError>)
    decreases n,
{
    if n <= 0 || n > tracks.len() || n > sounds.len() {
        (Seq::empty(), Seq::empty())
    } else {
        let (parts, errors) = voices_placed(tracks, sounds, n - 1);
        match tracks[n - 1] {
            Ok(track) => {
                let (notes, refused) = notes_placed(
                    track.events,
                    sounds[n - 1],
                    (n - 1) as usize,
                    track.events.len() as int,
                );
                (parts.push((0real, Node::Compound { parts: placed(notes) })), errors + refused)
            },
            Err(e) => (parts, errors.push(PlayError::Parse(e))),
        }
    }
}

/// The piece that the voices `tracks` make with the sounds `sounds`.
pub open spec fn performed(
    tracks: Seq<Result<TrackSpec, ParseError>>,
    sounds: Seq<Seq<Result<Node, ConfigurationError>>>,
) -> PerformanceSpec {
    let (parts, errors) = voices_placed(tracks, sounds, tracks.len() as int);
    PerformanceSpec { signal: Node::Compound { parts: placed(parts) }, errors }
}

/// The outcomes `tracks`, value for value.
pub open spec fn outcomes_of(tracks: Seq<Result<Track, ParseError>>) -> Seq<
    Result<TrackSpec, ParseError>,
> {
    Seq::new(
        tracks.len(),
        |k: int|
            match tracks[k] {
                Ok(track) => Ok(track@),
                Err(e) => Err(e),
            },
    )
}

/// The sounds of all voices, each signal by its values.
pub open spec fn all_outcomes(sounds: Seq<Seq<Sound>>) -> Seq<
    Seq<Result<Node, ConfigurationError>>,
> {
    Seq::new(sounds.len(), |k: int| outcomes(sounds[k]))
}

/// `sounds` holds for every note of `events` what the instrument `I` made of
/// its frequency, its length and its volume.
pub open spec fn sounded<I: Instrument>(events: Seq<NoteEvent>, sounds: Seq<Sound>) -> bool {
    &&& sounds.len() == events.len()
    &&& forall|j: int|
        0 <= j < events.len() ==> call_ensures(
            I::play,
            (events[j].frequency, events[j].length, events[j].volume),
            #[trigger] sounds[j],
        )
}

/// `r` is the voice `track` with the sounds `sounds` that the instrument `I`
/// made of its notes, and `after` is `before` with the notes that have none.
pub open spec fn voice_placed<I: Instrument>(
    track: Track,
    voice: usize,
    sounds: Seq<Sound>,
    r: Signal,
    before: Seq<PlayError>,
    after: Seq<PlayError>,
) -> bool {
    &&& sounded::<I>(track.events@, sounds)
    &&& r@ == (Node::Compound {
        parts: placed(
            notes_placed(track@.events, outcomes(sounds), voice, track@.events.len() as int).0,
        ),
    })
    &&& after == before + notes_placed(
        track@.events,
        outcomes(sounds),
        voice,
        track@.events.len() as int,
    ).1
}

/// `r` is the piece that the voices `tracks` make with the sounds `sounds`
/// that the instrument `I` made of their notes.
pub open spec fn arranged<I: Instrument>(
    tracks: Seq<Result<Track, ParseError>>,
    sounds: Seq<Seq<Sound>>,
    r: Performance,
) -> bool {
    &&& sounds.len() == tracks.len()
    &&& forall|k: int|
        0 <= k < tracks.len() ==> (tracks[k] matches Ok(track) ==> sounded::<I>(
            track.events@,
            #[trigger] sounds[k],
        ))
    &&& r@ == performed(outcomes_of(tracks), all_outcomes(sounds))
}

/// `r` is the piece that the notation `s` makes on the instrument `I`.
pub open spec fn played<I: Instrument>(
    s: Seq<u8>,
    tracks: Seq<Result<Track, ParseError>>,
    sounds: Seq<Seq<Sound>>,
    r: Performance,
) -> bool {
    tracks_are(tracks, compiled(s)) && arranged::<I>(tracks, sounds, r)
}

/// The notes placed so far do not depend on the sounds of later notes.
pub proof fn lemma_notes_placed_prefix(
    events: Seq<NoteSpec>,
    a: Seq<Result<Node, ConfigurationError>>,
    b: Seq<Result<Node, ConfigurationError>>,
    voice: usize,
    n: int,
)
    requires
        0 <= n <= a.len(),
        n <= b.len(),
        forall|j: int| 0 <= j < n ==> a[j] == b[j],
    ensures
        notes_placed(events, a, voice, n) == notes_placed(events, b, voice, n),
    decreases n,
{
    if n > 0 {
        lemma_notes_placed_prefix(events, a, b, voice, n - 1);
    }
}

/// The voices placed so far do not depend on the sounds of later voices.
pub proof fn lemma_voices_placed_prefix(
    tracks: Seq<Result<TrackSpec, ParseError>>,
    a: Seq<Seq<Result<Node, ConfigurationError>>>,
    b: Seq<Seq<Result<Node, ConfigurationError>>>,
    n: int,
)
    requires
        0 <= n <= a.len(),
        n <= b.len(),
        forall|k: int| 0 <= k < n ==> a[k] == b[k],
    ensures
        voices_placed(tracks, a, n) == voices_placed(tracks, b, n),
    decreases n,
{
    if n > 0 {
        lemma_voices_placed_prefix(tracks, a, b, n - 1);
    }
}

/// Takes what an instrument made of a note: a signal joins the notes of its
/// voice with the start of the note, and a refusal joins the errors.
pub fn place_note(
    sound: Sound,
    start: Ratio,
    voice: usize,
    index: usize,
    notes: &mut Vec<(Ratio, Signal)>,
    errors: &mut Vec<PlayError>,
)
    ensures
        match sound {
            Ok(signal) => final(notes)@ == old(notes)@.push((start, signal)) && final(errors)@
                == old(errors)@,
            Err(error) => final(notes)@ == old(notes)@ && final(errors)@ == old(errors)@.push(
                PlayError::Note { voice, index, error },
            ),
        },
{
    match sound {
        Ok(signal) => {
            notes.push((start, signal));
        },
        Err(error) => {
            errors.push(PlayError::Note { voice, index, error });
        },
    }
}

/// Plays the notes of one voice on the instrument `I`: the sum of their
/// signals, each at its start. The notes that the instrument refuses are left
/// out and added to `errors`.
pub fn play_voice<I: Instrument>(track: &Track, voice: usize, errors: &mut Vec<PlayError>) -> (r:
    Signal)
    ensures
        exists|sounds: Seq<Sound>|
            voice_placed::<I>(*track, voice, sounds, r, old(errors)@, final(errors)@),
{
    let ghost events = track@.events;
    let ghost given = errors@;
    let ghost mut sounds: Seq<Sound> = Seq::empty();
    let mut notes: Vec<(Ratio, Signal)> = Vec::new();
    let mut j: usize = 0;
    assert(errors@ =~= given + Seq::<PlayError>::empty());
    while j < track.events.len()
        invariant
            j <= track.events.len(),
            events == track@.events,
            events.len() == track.events@.len(),
            sounds.len() == j,
            forall|i: int|
                0 <= i < j ==> call_ensures(
                    I::play,
                    (track.events@[i].frequency, track.events@[i].length, track.events@[i].volume),
                    #[trigger] sounds[i],
                ),
            notes_placed(events, outcomes(sounds), voice, j as int).0 == parts_of(
                notes@,
                notes@.len() as int,
            ),
            errors@ == given + notes_placed(events, outcomes(sounds), voice, j as int).1,
        decreases track.events.len() - j,
    {
        let note = track.events[j];
        assert(events[j as int] == note@);
        let sound = I::play(note.frequency, note.length, note.volume);
        let ghost before = notes@;
        let ghost refused = notes_placed(events, outcomes(sounds), voice, j as int).1;
        let ghost earlier = sounds;
        let ghost made = sound;
        proof {
            sounds = sounds.push(made);
            lemma_notes_placed_prefix(events, outcomes(earlier), outcomes(sounds), voice, j as int);
            match made {
                Ok(signal) => {
                    lemma_parts_push(before, (note.start, signal));
                },
                Err(error) => {
                    assert(given + refused.push(PlayError::Note { voice, index: j, error })
                        =~= (given + refused).push(PlayError::Note { voice, index: j, error }));
                },
            }
        }
        place_note(sound, note.start, voice, j, &mut notes, errors);
        j = j + 1;
    }
    let r = Compound::play(notes);
    assert(voice_placed::<I>(*track, voice, sounds, r, given, errors@));
    r
}

/// Puts a piece together from compiled voices: the sum of the voices that
/// compiled, each the sum of the notes that the instrument `I` accepted.
pub fn arrange<I: Instrument>(tracks: &Vec<Result<Track, ParseError>>) -> (r: Performance)
    ensures
        exists|sounds: Seq<Seq<Sound>>| arranged::<I>(tracks@, sounds, r),
{
    let ghost given = outcomes_of(tracks@);
    let ghost mut sounds: Seq<Seq<Sound>> = Seq::empty();
    let mut voices: Vec<(Ratio, Signal)> = Vec::new();
    let mut errors: Vec<PlayError> = Vec::new();
    let mut i: usize = 0;
    while i < tracks.len()
        invariant
            i <= tracks.len(),
            given == outcomes_of(tracks@),
            sounds.len() == i,
            forall|k: int|
                0 <= k < i ==> (tracks@[k] matches Ok(track) ==> sounded::<I>(
                    track.events@,
                    #[trigger] sounds[k],
                )),
            voices_placed(given, all_outcomes(sounds), i as int).0 == parts_of(
                voices@,
                voices@.len() as int,
            ),
            voices_placed(given, all_outcomes(sounds), i as int).1 == errors@,
        decreases tracks.len() - i,
    {
        let ghost before = voices@;
        let ghost earlier = sounds;
        match &tracks[i] {
            Ok(track) => {
                assert(given[i as int] == Ok::<TrackSpec, ParseError>(track@));
                let ghost reported = errors@;
                let signal = play_voice::<I>(track, i, &mut errors);
                let zero = Ratio::whole(0);
                proof {
                    let made = choose|made: Seq<Sound>|
                        voice_placed::<I>(*track, i, made, signal, reported, errors@);
                    sounds = sounds.push(made);
                    lemma_voices_placed_prefix(
                        given,
                        all_outcomes(earlier),
                        all_outcomes(sounds),
                        i as int,
                    );
                    lemma_parts_push(before, (zero, signal));
                }
                voices.push((zero, signal));
            },
            Err(e) => {
                assert(given[i as int] == Err::<TrackSpec, ParseError>(*e));
                proof {
                    sounds = sounds.push(Seq::empty());
                    lemma_voices_placed_prefix(
                        given,
                        all_outcomes(earlier),
                        all_outcomes(sounds),
                        i as int,
                    );
                }
                errors.push(PlayError::Parse(*e));
            },
        }
        i = i + 1;
    }
    let r = Performance { signal: Compound::play(voices), errors };
    assert(arranged::<I>(tracks@, sounds, r));
    r
}

/// Compiles the notation and plays it on the instrument `I`. A voice that
/// does not compile and a note that the instrument refuses are left out, and
/// reported beside the signal of the rest.
pub fn play<I: Instrument>(mml: &str) -> (r: Performance)
    ensures
        exists|tracks: Seq<Result<Track, ParseError>>, sounds: Seq<Seq<Sound>>|
            played::<I>(mml.spec_bytes(), tracks, sounds, r),
{
    let tracks = compile(mml);
    let r = arrange::<I>(&tracks);
    proof {
        let sounds = choose|sounds: Seq<Seq<Sound>>| arranged::<I>(tracks@, sounds, r);
        assert(played::<I>(mml.spec_bytes(), tracks@, sounds, r));
    }
    r
}

} // verus!
