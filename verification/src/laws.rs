//! What holds of every signal of a kind, proved from the definitions.

use crate::node::{
    envelope,
    fraction,
    gated,
    held,
    interpolated,
    lowered,
    played,
    unison_pitch,
    Node,
    Oracle,
};
use crate::ratio::{absolute, lemma_in_range_representable, quotient};
use vstd::arithmetic::power2::{lemma_pow2_unfold, pow2};
use crate::record::{
    block_of,
    block_transformed,
    blocks_outcome,
    lemma_samples_taken,
    padded,
    plans,
    rendered,
    sample_count,
    BlockPlan,
    RenderError,
};
use vstd::prelude::*;

verus! {

/// The antiderivative of a constant `c` is zero at time zero and `c * t` at
/// the time `t`; and exact arithmetic finds that value wherever a fraction
/// within the limits equals it.
pub proof fn lemma_constant_integral(c: real, t: real, o: Oracle)
    ensures
        (Node::Const { val: c }).antiderivative() is Some,
        (Node::Const { val: c }).antiderivative().unwrap().value_at(0real, o) == 0real,
        (Node::Const { val: c }).antiderivative().unwrap().value_at(t, o) == c * t,
        (Node::Const { val: c }).antiderivative().unwrap().exact_at(0real) == Some(0real),
        (Node::Const { val: c }).antiderivative().unwrap().exact_at(t) == held(c * t),
{
    let line = Node::Line { a0: 0real, a1: c };
    assert(line.value_at(0real, o) == 0real + 0real * c);
    assert(line.value_at(t, o) == 0real + t * c);
    assert(0real * c == 0real) by (nonlinear_arith);
    assert(t * c == c * t) by (nonlinear_arith);
    assert(0real + c * t == c * t);
    lemma_in_range_representable(0, 1);
    assert(quotient(0, 1) == 0real) by (nonlinear_arith)
        requires
            quotient(0, 1) == (0int as real) / (1int as real),
    ;
    assert(held(0real) == Some(0real));
}

/// The sum over the first `n` parts of the value of the antiderivative of
/// each part at the time `t`, scaled by the gain of the part.
pub open spec fn integral_mix(parts: Seq<(real, Node)>, t: real, o: Oracle, n: int) -> real
    decreases n,
{
    if n <= 0 || n > parts.len() {
        0real
    } else {
        integral_mix(parts, t, o, n - 1) + parts[n - 1].1.antiderivative().unwrap().value_at(t, o)
            * parts[n - 1].0
    }
}

/// The antiderivatives of the first `n` parts are `n` parts, each the
/// antiderivative of its part with the gain of its part.
pub proof fn lemma_antiderivatives_parts(parts: Seq<(real, Node)>, n: int)
    requires
        0 <= n <= parts.len(),
        Node::antiderivatives(parts, n) is Some,
    ensures
        Node::antiderivatives(parts, n).unwrap().len() == n,
        forall|i: int|
            0 <= i < n ==> (#[trigger] parts[i]).1.antiderivative() is Some
                && Node::antiderivatives(parts, n).unwrap()[i] == (
                parts[i].0,
                parts[i].1.antiderivative().unwrap(),
            ),
        n > 0 ==> Node::antiderivatives(parts, n - 1) is Some,
    decreases n,
{
    if n > 0 {
        lemma_antiderivatives_parts(parts, n - 1);
    }
}

/// The antiderivatives of the first `n` parts, mixed, are the mix of the antiderivatives.
pub proof fn lemma_antiderivatives_mix(parts: Seq<(real, Node)>, t: real, o: Oracle, n: int)
    requires
        0 <= n <= parts.len(),
        Node::antiderivatives(parts, n) is Some,
    ensures
        Node::mix(Node::antiderivatives(parts, n).unwrap(), t, o, n) == integral_mix(
            parts,
            t,
            o,
            n,
        ),
    decreases n,
{
    if n > 0 {
        lemma_antiderivatives_parts(parts, n);
        lemma_antiderivatives_parts(parts, n - 1);
        lemma_antiderivatives_mix(parts, t, o, n - 1);
        let before = Node::antiderivatives(parts, n - 1).unwrap();
        let all = Node::antiderivatives(parts, n).unwrap();
        lemma_mix_prefix(all, before, t, o, n - 1);
    }
}

/// The mix of the first `n` parts depends on those parts only.
pub proof fn lemma_mix_prefix(a: Seq<(real, Node)>, b: Seq<(real, Node)>, t: real, o: Oracle, n: int)
    requires
        0 <= n <= a.len(),
        n <= b.len(),
        forall|i: int| 0 <= i < n ==> a[i] == b[i],
    ensures
        Node::mix(a, t, o, n) == Node::mix(b, t, o, n),
    decreases n,
{
    if n > 0 {
        lemma_mix_prefix(a, b, t, o, n - 1);
    }
}

/// The sum over the first `n` parts of what exact arithmetic finds for the
/// antiderivative of each part at the time `t`, scaled by the gain of the part.
pub open spec fn integral_mix_exact(parts: Seq<(real, Node)>, t: real, n: int) -> Option<real>
    decreases n,
{
    if n <= 0 || n > parts.len() {
        Some(0real)
    } else {
        match (
            integral_mix_exact(parts, t, n - 1),
            parts[n - 1].1.antiderivative().unwrap().exact_at(t),
        ) {
            (Some(sum), Some(x)) => match held(x * parts[n - 1].0) {
                Some(p) => held(sum + p),
                None => None,
            },
            _ => None,
        }
    }
}

/// What exact arithmetic finds for the mixed antiderivatives of the first `n`
/// parts is what it finds for the mix of the antiderivatives.
pub proof fn lemma_antiderivatives_mix_exact(parts: Seq<(real, Node)>, t: real, n: int)
    requires
        0 <= n <= parts.len(),
        Node::antiderivatives(parts, n) is Some,
    ensures
        Node::mix_exact(Node::antiderivatives(parts, n).unwrap(), t, n) == integral_mix_exact(
            parts,
            t,
            n,
        ),
    decreases n,
{
    if n > 0 {
        lemma_antiderivatives_parts(parts, n);
        lemma_antiderivatives_parts(parts, n - 1);
        lemma_antiderivatives_mix_exact(parts, t, n - 1);
        let before = Node::antiderivatives(parts, n - 1).unwrap();
        let all = Node::antiderivatives(parts, n).unwrap();
        lemma_mix_exact_prefix(all, before, t, n - 1);
    }
}

/// What exact arithmetic finds for the mix of the first `n` parts depends on those parts only.
pub proof fn lemma_mix_exact_prefix(a: Seq<(real, Node)>, b: Seq<(real, Node)>, t: real, n: int)
    requires
        0 <= n <= a.len(),
        n <= b.len(),
        forall|i: int| 0 <= i < n ==> a[i] == b[i],
    ensures
        Node::mix_exact(a, t, n) == Node::mix_exact(b, t, n),
    decreases n,
{
    if n > 0 {
        lemma_mix_exact_prefix(a, b, t, n - 1);
    }
}

/// Integration is linear: the antiderivative of a weighted sum is, at every
/// time, the weighted sum of the antiderivatives of its parts; and so is what
/// exact arithmetic finds for it.
pub proof fn lemma_integral_linear(parts: Seq<(real, Node)>, t: real, o: Oracle)
    requires
        (Node::Compound { parts }).antiderivative() is Some,
    ensures
        forall|i: int| 0 <= i < parts.len() ==> (#[trigger] parts[i]).1.antiderivative() is Some,
        (Node::Compound { parts }).antiderivative().unwrap().value_at(t, o) == integral_mix(
            parts,
            t,
            o,
            parts.len() as int,
        ),
        (Node::Compound { parts }).antiderivative().unwrap().exact_at(t) == integral_mix_exact(
            parts,
            t,
            parts.len() as int,
        ),
{
    lemma_antiderivatives_parts(parts, parts.len() as int);
    lemma_antiderivatives_mix(parts, t, o, parts.len() as int);
    lemma_antiderivatives_mix_exact(parts, t, parts.len() as int);
}

/// The antiderivative of a signal without gates is zero at time zero.
pub proof fn lemma_integral_starts_at_zero(x: Node, o: Oracle)
    requires
        x.antiderivative() is Some,
        x.ungated(),
        o.tau != 0real,
    ensures
        x.antiderivative().unwrap().value_at(0real, o) == 0real,
    decreases x,
{
    let whole = x.antiderivative().unwrap();
    match x {
        Node::Const { val } => {
            assert(whole == Node::Line { a0: 0real, a1: val });
            assert(0real + 0real * val == 0real) by (nonlinear_arith);
        },
        Node::Line { a0, a1 } => {
            let h = a1 / 2real;
            assert(whole == Node::Quadratic { a0: 0real, a1: a0, a2: h });
            assert(0real * 0real * h + 0real * a0 + 0real == 0real) by (nonlinear_arith);
        },
        Node::Sine { freq, phase } => {
            if freq != 0real {
                assert(whole == Node::SineIntegral { freq, phase });
                let turn = phase + 1real / 4real;
                assert(0real * freq == 0real) by (nonlinear_arith);
                assert(0real * freq + phase + 1real / 4real == turn);
                let wave = (o.sine)(turn);
                assert((wave - wave) / (o.tau * freq) == 0real) by (nonlinear_arith)
                    requires
                        o.tau != 0real,
                        freq != 0real,
                ;
            } else {
                assert(whole == Node::Const { val: 0real });
            }
        },
        Node::Compound { parts } => {
            lemma_integrals_start_at_zero(parts, o, parts.len() as int);
            lemma_antiderivatives_parts(parts, parts.len() as int);
        },
        Node::Window { sampler, low, high } => {
            lemma_integral_starts_at_zero(*sampler, o);
            let inner = sampler.antiderivative().unwrap();
            let scale = (high + -low) / 2real;
            let slope = (high + low) / 2real;
            let line = Node::Line { a0: 0real, a1: slope };
            let parts = seq![(scale, inner), (1real, line)];
            assert(whole == Node::Compound { parts });
            assert(line.value_at(0real, o) == 0real) by {
                assert(0real + 0real * slope == 0real) by (nonlinear_arith);
            }
            assert(whole.value_at(0real, o) == 0real) by {
                reveal_with_fuel(Node::mix, 3);
                assert(Node::mix(parts, 0real, o, 2) == 0real + parts[0].1.value_at(0real, o)
                    * parts[0].0 + parts[1].1.value_at(0real, o) * parts[1].0);
                assert(0real * scale == 0real) by (nonlinear_arith);
            }
        },
        _ => {},
    }
}

/// The antiderivatives of parts without gates mix to zero at time zero.
pub proof fn lemma_integrals_start_at_zero(parts: Seq<(real, Node)>, o: Oracle, n: int)
    requires
        0 <= n <= parts.len(),
        Node::antiderivatives(parts, n) is Some,
        Node::all_ungated(parts, n),
        o.tau != 0real,
    ensures
        Node::mix(Node::antiderivatives(parts, n).unwrap(), 0real, o, n) == 0real,
    decreases parts, n,
{
    if n > 0 {
        lemma_integrals_start_at_zero(parts, o, n - 1);
        lemma_integral_starts_at_zero(parts[n - 1].1, o);
        lemma_antiderivatives_mix(parts, 0real, o, n);
        lemma_antiderivatives_mix(parts, 0real, o, n - 1);
        let v = parts[n - 1].1.antiderivative().unwrap().value_at(0real, o);
        assert(v * parts[n - 1].0 == 0real) by (nonlinear_arith)
            requires
                v == 0real,
        ;
    }
}

/// Gating twice over one interval is gating once: at every time the value is
/// the same, and so is what exact arithmetic finds.
pub proof fn lemma_gate_idempotent(x: Node, start: real, end: real, t: real, o: Oracle)
    ensures
        gated(gated(x, start, end), start, end).value_at(t, o) == gated(x, start, end).value_at(
            t,
            o,
        ),
        gated(gated(x, start, end), start, end).exact_at(t) == gated(x, start, end).exact_at(t),
{
    let once = gated(x, start, end);
    let twice = gated(once, start, end);
    assert(twice.value_at(t, o) == if start <= t && t < end {
        once.value_at(t, o)
    } else {
        0real
    });
    assert(twice.exact_at(t) == if start <= t && t < end {
        once.exact_at(t)
    } else {
        Some(0real)
    });
}

/// The antiderivative of a gated signal is zero where its interval starts,
/// and zero outside the interval.
pub proof fn lemma_gated_integral_origin(x: Node, start: real, end: real, t: real, o: Oracle)
    requires
        gated(x, start, end).antiderivative() is Some,
    ensures
        start < end ==> gated(x, start, end).antiderivative().unwrap().value_at(start, o) == 0real,
        t < start || end <= t ==> gated(x, start, end).antiderivative().unwrap().value_at(t, o)
            == 0real,
{
    let inner = x.antiderivative().unwrap();
    let origin = inner.exact_at(start).unwrap();
    let parts = seq![(1real, inner), (-1real, Node::Const { val: origin })];
    let sum = Node::Compound { parts };
    let whole = gated(x, start, end).antiderivative().unwrap();
    assert(whole == gated(sum, start, end));
    inner.lemma_exact_is_value(start, o);
    assert(sum.value_at(start, o) == inner.value_at(start, o) * 1real + origin * -1real) by {
        reveal_with_fuel(Node::mix, 3);
        assert((Node::Const { val: origin }).value_at(start, o) == origin);
        assert(Node::mix(parts, start, o, 2) == 0real + parts[0].1.value_at(start, o) * parts[0].0
            + parts[1].1.value_at(start, o) * parts[1].0);
    }
}

/// The value at the time `t` of the line through `(ax, ay)` and `(bx, by)`.
pub proof fn lemma_interpolated_value(ax: real, ay: real, bx: real, by: real, t: real, o: Oracle)
    requires
        ax != bx,
        interpolated(ax, ay, bx, by) is Some,
    ensures
        interpolated(ax, ay, bx, by).unwrap().value_at(t, o) == ay + (t - ax) * (by - ay) / (bx
            - ax),
{
    let a1 = (by - ay) / (bx - ax);
    let a0 = ay - ax * a1;
    assert(interpolated(ax, ay, bx, by).unwrap() == Node::Line { a0, a1 });
    assert(a0 + t * a1 == ay + (t - ax) * (by - ay) / (bx - ax)) by (nonlinear_arith)
        requires
            a1 == (by - ay) / (bx - ax),
            a0 == ay - ax * a1,
            ax != bx,
    ;
}

/// The value at the time `t` of the envelope with the given lengths and level.
pub open spec fn envelope_value(
    attack: real,
    decay: real,
    sustain: real,
    release: real,
    level: real,
    t: real,
) -> real {
    if t < 0real {
        0real
    } else if t < attack {
        t / attack
    } else if t < attack + decay {
        1real + (t - attack) * (level - 1real) / decay
    } else if t < attack + decay + sustain {
        level
    } else if t < attack + decay + sustain + release {
        level + (t - (attack + decay + sustain)) * (0real - level) / release
    } else {
        0real
    }
}

/// The shape of the envelope: zero before time zero, a rise to 1 over the
/// attack, a fall to the level over the decay, the level over the sustain, a
/// fall to zero over the release, and zero from then on. At every time
/// exactly one segment, or none, gives the value; and what exact arithmetic
/// finds is that value.
pub proof fn lemma_envelope_shape(
    attack: real,
    decay: real,
    sustain: real,
    release: real,
    level: real,
    t: real,
    o: Oracle,
)
    requires
        attack >= 0real,
        decay >= 0real,
        sustain >= 0real,
        release >= 0real,
        envelope(attack, decay, sustain, release, level) is Some,
    ensures
        envelope(attack, decay, sustain, release, level).unwrap().value_at(t, o) == envelope_value(
            attack,
            decay,
            sustain,
            release,
            level,
            t,
        ),
        envelope(attack, decay, sustain, release, level).unwrap().exact_at(t) matches Some(v) ==> v
            == envelope_value(attack, decay, sustain, release, level, t),
{
    envelope(attack, decay, sustain, release, level).unwrap().lemma_exact_is_value(t, o);
    let t2 = attack + decay;
    let t3 = attack + decay + sustain;
    let t4 = t3 + release;
    let rise = interpolated(0real, 0real, attack, 1real).unwrap();
    let fall = interpolated(attack, 1real, t2, level).unwrap();
    let fade = interpolated(t3, level, t4, 0real).unwrap();
    let parts = seq![
        (1real, gated(rise, 0real, attack)),
        (1real, gated(fall, attack, t2)),
        (1real, gated(Node::Const { val: level }, t2, t3)),
        (1real, gated(fade, t3, t4)),
    ];
    let whole = envelope(attack, decay, sustain, release, level).unwrap();
    assert(whole == Node::Compound { parts });
    let a = parts[0].1.value_at(t, o);
    let b = parts[1].1.value_at(t, o);
    let c = parts[2].1.value_at(t, o);
    let d = parts[3].1.value_at(t, o);
    assert(whole.value_at(t, o) == a + b + c + d) by {
        reveal_with_fuel(Node::mix, 5);
        assert(Node::mix(parts, t, o, 4) == 0real + a * 1real + b * 1real + c * 1real + d * 1real);
    }
    assert(a == if 0real <= t && t < attack {
        rise.value_at(t, o)
    } else {
        0real
    });
    assert(b == if attack <= t && t < t2 {
        fall.value_at(t, o)
    } else {
        0real
    });
    assert((Node::Const { val: level }).value_at(t, o) == level);
    assert(c == if t2 <= t && t < t3 {
        level
    } else {
        0real
    });
    assert(d == if t3 <= t && t < t4 {
        fade.value_at(t, o)
    } else {
        0real
    });
    if 0real <= t && t < attack {
        lemma_interpolated_value(0real, 0real, attack, 1real, t, o);
        assert(0real + (t - 0real) * (1real - 0real) / (attack - 0real) == t / attack)
            by (nonlinear_arith)
            requires
                attack > 0real,
        ;
    }
    if attack <= t && t < t2 {
        lemma_interpolated_value(attack, 1real, t2, level, t, o);
        assert(t2 - attack == decay);
    }
    if t3 <= t && t < t4 {
        lemma_interpolated_value(t3, level, t4, 0real, t, o);
        assert(t4 - t3 == release);
    }
}

/// The sawtooth, the square and the triangle wave stay between -1 and 1.
pub proof fn lemma_waves_bounded(freq: real, t: real, o: Oracle)
    ensures
        -1real <= (Node::Sawtooth { freq }).value_at(t, o) < 1real,
        (Node::Square { freq }).value_at(t, o) == 1real || (Node::Square { freq }).value_at(t, o)
            == -1real,
        -1real <= (Node::Triangle { freq }).value_at(t, o) <= 1real,
{
    let x = t * freq;
    assert(0real <= fraction(x) < 1real);
    let y = x + 1real / 2real;
    let z = x - (y.floor() as real);
    assert(-1real / 2real <= z < 1real / 2real);
    assert(absolute(2real * z) <= 1real);
}

/// A window of a signal between -1 and 1 lies between its low and its high end.
pub proof fn lemma_window_band(x: Node, low: real, high: real, t: real, o: Oracle)
    requires
        -1real <= x.value_at(t, o) <= 1real,
        low <= high,
    ensures
        low <= (Node::Window { sampler: Box::new(x), low, high }).value_at(t, o) <= high,
{
    let v = x.value_at(t, o);
    assert(low <= (v + 1real) / 2real * (high - low) + low <= high) by (nonlinear_arith)
        requires
            -1real <= v <= 1real,
            low <= high,
    ;
}

/// A pitch lowered by octaves is the pitch divided by a power of two.
pub proof fn lemma_lowered_value(pitch: real, octaves: nat)
    ensures
        lowered(pitch, octaves) matches Some(x) ==> x * (pow2(octaves) as real) == pitch,
    decreases octaves,
{
    if octaves == 0 {
        vstd::arithmetic::power2::lemma2_to64();
        assert(pitch * (1nat as real) == pitch) by (nonlinear_arith);
    } else {
        lemma_lowered_value(pitch, (octaves - 1) as nat);
        lemma_pow2_unfold(octaves);
        if lowered(pitch, octaves) is Some {
            let before = lowered(pitch, (octaves - 1) as nat).unwrap();
            let p = pow2((octaves - 1) as nat);
            assert(before / 2real * ((2 * p) as real) == before * (p as real))
                by (nonlinear_arith);
        }
    }
}

/// The voice `k` of a unison that reaches `octaves` octaves below its pitch
/// sounds at `pitch * 2^k / 2^octaves`.
pub proof fn lemma_unison_pitch_value(pitch: real, octaves: nat, k: nat)
    ensures
        unison_pitch(pitch, octaves, k) matches Some(x) ==> x * (pow2(octaves) as real) == pitch
            * (pow2(k) as real),
    decreases k,
{
    if k == 0 {
        lemma_lowered_value(pitch, octaves);
        vstd::arithmetic::power2::lemma2_to64();
        assert(pitch * (1nat as real) == pitch) by (nonlinear_arith);
    } else {
        lemma_unison_pitch_value(pitch, octaves, (k - 1) as nat);
        lemma_pow2_unfold(k);
        if unison_pitch(pitch, octaves, k) is Some {
            let before = unison_pitch(pitch, octaves, (k - 1) as nat).unwrap();
            let p = pow2((k - 1) as nat);
            let q = pow2(octaves);
            assert(2real * before * (q as real) == pitch * ((2 * p) as real)) by (nonlinear_arith)
                requires
                    before * (q as real) == pitch * (p as real),
            ;
        }
    }
}

/// A rendered constant holds as many samples as the duration has at the
/// rate, each the constant.
pub proof fn lemma_rendered_constant(val: real, rate: real, duration: real)
    ensures
        rendered(Node::Const { val }, rate, duration) matches Ok(samples) ==> samples.len()
            == sample_count(rate, duration) && forall|i: int|
            0 <= i < samples.len() ==> samples[i] == val,
{
    if rendered(Node::Const { val }, rate, duration) is Ok {
        let step = 1real / rate;
        let n = sample_count(rate, duration);
        lemma_samples_taken(Node::Const { val }, step, n);
    }
}

/// A buffer is silent before time zero and from its end on.
pub proof fn lemma_record_silent_outside(samples: Seq<real>, rate: real, t: real, o: Oracle)
    requires
        rate > 0real,
        t < 0real || t * rate >= samples.len() as real,
    ensures
        (Node::Record { sample_rate: rate, samples }).value_at(t, o) == 0real,
        (Node::Record { sample_rate: rate, samples }).exact_at(t) matches Some(v) ==> v == 0real,
{
    assert(t < 0real ==> t * rate < 0real) by (nonlinear_arith)
        requires
            rate > 0real,
    ;
    assert(played(samples, t * rate) == 0real);
}

/// A transform that gives every block back leaves the buffer as it is, but
/// for the padding at its end.
pub proof fn lemma_identity_blocks<T, F: Fn(Vec<T>) -> Vec<T>>(
    out: Seq<T>,
    samples: Seq<T>,
    silence: T,
    spectrum: usize,
    transform: F,
)
    requires
        blocks_outcome(Ok::<Seq<T>, RenderError>(out), samples, silence, spectrum, transform),
        forall|x: Vec<T>, y: Vec<T>| call_ensures(transform, (x,), y) ==> y@ == x@,
    ensures
        out == padded(samples, silence, out.len() as int),
        samples.len() <= out.len() < samples.len() + 2 * (spectrum - 1),
{
    let plan = choose|plan: BlockPlan|
        plans(plan, samples.len() as int, spectrum as int) && out.len() == plan.padded
            && forall|k: int|
            0 <= k < plan.blocks ==> block_transformed(
                transform,
                padded(samples, silence, plan.padded as int),
                out,
                k,
                plan.block as int,
            );
    let input = padded(samples, silence, plan.padded as int);
    let b = plan.block as int;
    assert forall|j: int| 0 <= j < out.len() implies out[j] == input[j] by {
        let k = j / b;
        vstd::arithmetic::div_mod::lemma_fundamental_div_mod(j, b);
        assert(0 <= k < plan.blocks) by (nonlinear_arith)
            requires
                j == b * k + j % b,
                0 <= j % b < b,
                0 <= j < plan.blocks * b,
        ;
        assert(k * b <= j < (k + 1) * b <= plan.blocks * b) by (nonlinear_arith)
            requires
                j == b * k + j % b,
                0 <= j % b < b,
                0 <= k < plan.blocks,
        ;
        assert(block_transformed(transform, input, out, k, b));
        let (x, y) = choose|x: Vec<T>, y: Vec<T>|
            x@ == block_of(input, k, b) && y@ == block_of(out, k, b) && call_ensures(
                transform,
                (x,),
                y,
            );
        assert(block_of(out, k, b)[j - k * b] == out[j]);
        assert(block_of(input, k, b)[j - k * b] == input[j]);
    }
    assert(out =~= input);
}

} // verus!
