//! Builders of composed signals: the line through two points, the envelope,
//! the unison and the arrangement of events in time.

use crate::node::{
    envelope,
    gated,
    held,
    interpolated,
    lemma_lowered_fails,
    lemma_unison_fails,
    lowered,
    placed,
    unison_pitch,
    Node,
};
use crate::ratio::Ratio;
use crate::sampler::{
    lemma_parts_of,
    parts_of,
    signal_is,
    Compound,
    ConfigurationError,
    Const,
    Impulse,
    Limit,
    Line,
    Shift,
    Signal,
};
use vstd::prelude::*;

verus! {

impl Line {
    /// The line through the points `a` and `b`, each a time and a value. Where
    /// both stand at one time, the zero signal.
    pub fn interpolate(a: (Ratio, Ratio), b: (Ratio, Ratio)) -> (r: Option<Signal>)
        ensures
            signal_is(r, interpolated(a.0@, a.1@, b.0@, b.1@)),
    {
        if a.0.same(&b.0) {
            Some(Line::new(Ratio::whole(0), Ratio::whole(0)))
        } else {
            match (b.1.sub(&a.1), b.0.sub(&a.0)) {
                (Some(rise), Some(run)) => match rise.div(&run) {
                    Some(a1) => match a.0.mul(&a1) {
                        Some(m) => match a.1.sub(&m) {
                            Some(a0) => Some(Line::new(a0, a1)),
                            None => None,
                        },
                        None => None,
                    },
                    None => None,
                },
                _ => None,
            }
        }
    }
}

/// `part` is the voice `k` of the unison around `pitch` that `creator`
/// makes: it has gain one and is made from the pitch of that voice.
pub open spec fn voice_of<F: Fn(Ratio) -> Signal>(
    part: (Ratio, Signal),
    pitch: real,
    octaves: nat,
    k: nat,
    creator: F,
) -> bool {
    &&& part.0@ == 1real
    &&& exists|f: Ratio|
        Some(f@) == unison_pitch(pitch, octaves, k) && call_ensures(creator, (f,), part.1)
}

/// `parts` are the voices of the unison of `count` voices around `pitch`
/// that `creator` makes.
pub open spec fn unison_of<F: Fn(Ratio) -> Signal>(
    parts: Seq<(Ratio, Signal)>,
    pitch: real,
    count: usize,
    creator: F,
) -> bool {
    &&& parts.len() == count
    &&& forall|k: int|
        0 <= k < count ==> voice_of(#[trigger] parts[k], pitch, (count / 2) as nat, k as nat, creator)
}

/// The pulse of area one that is as wide as one sample at `rate` samples a
/// second; an error where the rate is zero, or where exact arithmetic within
/// the limits does not find the width.
pub open spec fn pulse(rate: real) -> Result<Node, ConfigurationError> {
    if rate == 0real {
        Err(ConfigurationError::ZeroRate)
    } else {
        match held(1real / 2real / rate) {
            Some(half_width) => Ok(Node::Impulse { half_width, height: rate }),
            None => Err(ConfigurationError::OutOfRange),
        }
    }
}

impl Impulse {
    /// The pulse of area one that is as wide as one sample at `sample_rate`
    /// samples a second.
    pub fn new(sample_rate: Ratio) -> (r: Result<Signal, ConfigurationError>)
        ensures
            built(r, pulse(sample_rate@)),
    {
        if sample_rate.is_zero() {
            Err(ConfigurationError::ZeroRate)
        } else {
            match Ratio::half().div(&sample_rate) {
                Some(half_width) => Ok(
                    Signal::Impulse(Impulse { half_width, height: sample_rate }),
                ),
                None => Err(ConfigurationError::OutOfRange),
            }
        }
    }
}

/// `r` is the outcome `expected`, the signal by its values.
pub open spec fn built(
    r: Result<Signal, ConfigurationError>,
    expected: Result<Node, ConfigurationError>,
) -> bool {
    match r {
        Ok(s) => expected == Ok::<Node, ConfigurationError>(s@),
        Err(e) => expected == Err::<Node, ConfigurationError>(e),
    }
}

/// The envelope with the given lengths of attack, decay, sustain and release
/// and the given level of the sustain; an error where a length is negative, or
/// where exact arithmetic within the limits does not find a segment.
pub open spec fn envelope_outcome(
    attack: real,
    decay: real,
    sustain: real,
    release: real,
    level: real,
) -> Result<Node, ConfigurationError> {
    if attack < 0real || decay < 0real || sustain < 0real || release < 0real {
        Err(ConfigurationError::NegativeDuration)
    } else {
        match envelope(attack, decay, sustain, release, level) {
            Some(node) => Ok(node),
            None => Err(ConfigurationError::OutOfRange),
        }
    }
}

/// `sampler` gated to the times from `start` up to `end`.
fn gate(sampler: Signal, start: Ratio, end: Ratio) -> (r: Signal)
    ensures
        r@ == gated(sampler@, start@, end@),
{
    Signal::Limit(Limit { sampler: Box::new(sampler), start, end })
}

impl Compound {
    /// The envelope of attack, decay, sustain and release, with the lengths of
    /// the four segments in seconds and the level of the sustain. A negative
    /// length is refused.
    pub fn adsr(
        attack_length: Ratio,
        decay_length: Ratio,
        sustain_length: Ratio,
        release_length: Ratio,
        sustain_level: Ratio,
    ) -> (r: Result<Signal, ConfigurationError>)
        ensures
            built(
                r,
                envelope_outcome(
                    attack_length@,
                    decay_length@,
                    sustain_length@,
                    release_length@,
                    sustain_level@,
                ),
            ),
    {
        if attack_length.is_negative() || decay_length.is_negative()
            || sustain_length.is_negative() || release_length.is_negative() {
            return Err(ConfigurationError::NegativeDuration);
        }
        let zero = Ratio::whole(0);
        let one = Ratio::whole(1);
        let t2 = match attack_length.add(&decay_length) {
            Some(t) => t,
            None => {
                return Err(ConfigurationError::OutOfRange);
            },
        };
        let t3 = match t2.add(&sustain_length) {
            Some(t) => t,
            None => {
                return Err(ConfigurationError::OutOfRange);
            },
        };
        let t4 = match t3.add(&release_length) {
            Some(t) => t,
            None => {
                return Err(ConfigurationError::OutOfRange);
            },
        };
        match (
            Line::interpolate((zero, zero), (attack_length, one)),
            Line::interpolate((attack_length, one), (t2, sustain_level)),
            Line::interpolate((t3, sustain_level), (t4, zero)),
        ) {
            (Some(rise), Some(fall), Some(fade)) => {
                let ghost a = gated(rise@, 0real, attack_length@);
                let ghost b = gated(fall@, attack_length@, t2@);
                let ghost c = gated(Node::Const { val: sustain_level@ }, t2@, t3@);
                let ghost d = gated(fade@, t3@, t4@);
                let mut parts: Vec<(Ratio, Signal)> = Vec::new();
                parts.push((one, gate(rise, zero, attack_length)));
                parts.push((one, gate(fall, attack_length, t2)));
                parts.push((one, gate(Const::new(sustain_level), t2, t3)));
                parts.push((one, gate(fade, t3, t4)));
                proof {
                    lemma_parts_of(parts@, 4);
                    assert(parts_of(parts@, 4) =~= seq![(1real, a), (1real, b), (1real, c), (1real, d)]);
                }
                Ok(Compound::new(parts))
            },
            _ => Err(ConfigurationError::OutOfRange),
        }
    }

    /// The unison of `count` voices around `pitch`, an octave apart, each made
    /// by `creator` from its pitch and summed with gain one. An even number of
    /// voices is refused.
    pub fn unison<F: Fn(Ratio) -> Signal>(pitch: Ratio, count: usize, creator: F) -> (r: Result<
        Signal,
        ConfigurationError,
    >)
        requires
            forall|f: Ratio| call_requires(creator, (f,)),
        ensures
            count % 2 == 0 ==> r == Err::<Signal, ConfigurationError>(
                ConfigurationError::EvenVoiceCount,
            ),
            count % 2 == 1 ==> match unison_pitch(
                pitch@,
                (count / 2) as nat,
                (count - 1) as nat,
            ) {
                None => r == Err::<Signal, ConfigurationError>(ConfigurationError::OutOfRange),
                Some(_) => r matches Ok(Signal::Compound(c)) && unison_of(
                    c.samplers@,
                    pitch@,
                    count,
                    creator,
                ),
            },
    {
        if count % 2 == 0 {
            return Err(ConfigurationError::EvenVoiceCount);
        }
        let octaves: usize = count / 2;
        let two = Ratio::whole(2);
        let mut f = pitch;
        let mut j: usize = 0;
        while j < octaves
            invariant
                j <= octaves,
                octaves == count / 2,
                count % 2 == 1,
                two@ == 2real,
                lowered(pitch@, j as nat) == Some(f@),
            decreases octaves - j,
        {
            match f.div(&two) {
                Some(x) => {
                    f = x;
                },
                None => {
                    proof {
                        assert(lowered(pitch@, (j + 1) as nat) is None);
                        lemma_lowered_fails(pitch@, (j + 1) as nat, octaves as nat);
                        lemma_unison_fails(pitch@, octaves as nat, 0, (count - 1) as nat);
                    }
                    return Err(ConfigurationError::OutOfRange);
                },
            }
            j = j + 1;
        }
        let mut parts: Vec<(Ratio, Signal)> = Vec::new();
        let mut k: usize = 0;
        while k < count
            invariant
                k <= count,
                octaves == count / 2,
                count % 2 == 1,
                two@ == 2real,
                forall|f: Ratio| call_requires(creator, (f,)),
                parts@.len() == k,
                k < count ==> unison_pitch(pitch@, octaves as nat, k as nat) == Some(f@),
                k == count ==> unison_pitch(pitch@, octaves as nat, (count - 1) as nat) is Some,
                forall|i: int|
                    0 <= i < k ==> voice_of(
                        #[trigger] parts@[i],
                        pitch@,
                        octaves as nat,
                        i as nat,
                        creator,
                    ),
            decreases count - k,
        {
            let voice = creator(f);
            let ghost before = parts@;
            parts.push((Ratio::whole(1), voice));
            proof {
                assert(Some(f@) == unison_pitch(pitch@, octaves as nat, k as nat) && call_ensures(
                    creator,
                    (f,),
                    parts@[k as int].1,
                ));
                assert(voice_of(parts@[k as int], pitch@, octaves as nat, k as nat, creator));
                assert forall|i: int| 0 <= i < k + 1 implies voice_of(
                    #[trigger] parts@[i],
                    pitch@,
                    octaves as nat,
                    i as nat,
                    creator,
                ) by {
                    if i < k {
                        assert(parts@[i] == before[i]);
                    }
                }
            }
            if k + 1 < count {
                match two.mul(&f) {
                    Some(x) => {
                        f = x;
                    },
                    None => {
                        proof {
                            assert(unison_pitch(pitch@, octaves as nat, (k + 1) as nat) is None);
                            lemma_unison_fails(
                                pitch@,
                                octaves as nat,
                                (k + 1) as nat,
                                (count - 1) as nat,
                            );
                        }
                        return Err(ConfigurationError::OutOfRange);
                    },
                }
            }
            k = k + 1;
        }
        assert(unison_of(parts@, pitch@, count, creator));
        Ok(Compound::new(parts))
    }

    /// The signals of `events`, each moved to start at the time that goes
    /// with it, summed with gain one.
    pub fn play(events: Vec<(Ratio, Signal)>) -> (r: Signal)
        ensures
            r@ == (Node::Compound {
                parts: placed(parts_of(events@, events@.len() as int)),
            }),
    {
        let ghost given = events@;
        let ghost n = events@.len() as int;
        let mut events = events;
        let mut turned: Vec<(Ratio, Signal)> = Vec::new();
        proof {
            lemma_parts_of(given, n);
        }
        while events.len() > 0
            invariant
                events@.len() + turned@.len() == n,
                n == given.len(),
                events@ == given.subrange(0, events@.len() as int),
                forall|j: int|
                    0 <= j < turned@.len() ==> (#[trigger] turned@[j]).0@ == 1real && turned@[j].1@
                        == (Node::Shift {
                        sampler: Box::new(given[n - 1 - j].1@),
                        shift: -given[n - 1 - j].0@,
                    }),
            decreases events.len(),
        {
            let ghost before = events@;
            let (start, signal) = events.pop().unwrap();
            assert(before.last() == given[events@.len() as int]);
            turned.push((Ratio::whole(1), Shift::new(signal, start.neg())));
        }
        let mut parts: Vec<(Ratio, Signal)> = Vec::new();
        let ghost all = turned@;
        while turned.len() > 0
            invariant
                turned@.len() + parts@.len() == n,
                n == given.len(),
                all.len() == n,
                turned@ == all.subrange(0, turned@.len() as int),
                forall|j: int|
                    0 <= j < n ==> (#[trigger] all[j]).0@ == 1real && all[j].1@ == (Node::Shift {
                        sampler: Box::new(given[n - 1 - j].1@),
                        shift: -given[n - 1 - j].0@,
                    }),
                forall|j: int|
                    0 <= j < parts@.len() ==> (#[trigger] parts@[j]).0@ == 1real && parts@[j].1@
                        == (Node::Shift {
                        sampler: Box::new(given[j].1@),
                        shift: -given[j].0@,
                    }),
            decreases turned.len(),
        {
            let ghost before = turned@;
            let part = turned.pop().unwrap();
            assert(before.last() == all[turned@.len() as int]);
            assert(all[turned@.len() as int].1@ == (Node::Shift {
                sampler: Box::new(given[n - 1 - turned@.len()].1@),
                shift: -given[n - 1 - turned@.len()].0@,
            }));
            parts.push(part);
        }
        proof {
            lemma_parts_of(parts@, n);
            assert(parts_of(parts@, n) =~= placed(parts_of(given, n)));
        }
        Compound::new(parts)
    }
}

} // verus!
