//! The twelve-tone table, in hundredths of a hertz at octave 4, and its
//! transposition to other octaves.

use crate::ratio::{
    lemma_quotient_cross,
    quotient,
    representable,
    in_range,
    Ratio,
    LIMIT,
};
use vstd::arithmetic::power2::{lemma2_to64, lemma_pow2_strictly_increases, pow2};
use vstd::prelude::*;

verus! {

/// C at octave 4.
pub const C: u32 = 26163;

/// C sharp or D flat at octave 4.
pub const C_SHARP_D_FLAT: u32 = 27718;

/// D at octave 4.
pub const D: u32 = 29366;

/// D sharp or E flat at octave 4.
pub const D_SHARP_E_FLAT: u32 = 31113;

/// E at octave 4.
pub const E: u32 = 32963;

/// F at octave 4.
pub const F: u32 = 34923;

/// F sharp or G flat at octave 4.
pub const F_SHARP_G_FLAT: u32 = 36999;

/// G at octave 4.
pub const G: u32 = 39200;

/// G sharp or A flat at octave 4.
pub const G_SHARP_A_FLAT: u32 = 41530;

/// A at octave 4.
pub const A: u32 = 44000;

/// A sharp or B flat at octave 4.
pub const A_SHARP_B_FLAT: u32 = 46616;

/// B at octave 4.
pub const B: u32 = 49388;

/// The pitch of a rest.
pub const SILENCE: u32 = 0;

/// The highest octave whose factor is computed; above it only silence has a frequency.
pub const TOP_OCTAVE: u8 = 90;

/// The frequency in hertz of `note`, given in hundredths of a hertz at octave 4,
/// when played at `octave`: `note / 100 * 2^(octave - 4)`.
pub open spec fn transposed(note: u32, octave: u8) -> real {
    quotient(note as int * pow2(octave as nat), 1600)
}

/// What is representable is at most the limit.
pub proof fn lemma_representable_bound(n: int, d: int)
    requires
        d > 0,
        n > LIMIT * d,
    ensures
        !representable(quotient(n, d)),
{
    if representable(quotient(n, d)) {
        let (p, q) = choose|p: int, q: int| in_range(p, q) && quotient(n, d) == quotient(p, q);
        lemma_quotient_cross(n, d, p, q);
        assert(false) by (nonlinear_arith)
            requires
                n * q == p * d,
                n > LIMIT * d,
                p <= LIMIT,
                0 < q,
                0 < d,
        ;
    }
}

/// The frequency of `note` at `octave`, where a fraction within the limits equals it.
pub fn on_octave(note: u32, octave: u8) -> (r: Option<Ratio>)
    ensures
        r matches Some(v) ==> v@ == transposed(note, octave),
        r is None <==> !representable(transposed(note, octave)),
{
    if note == 0 {
        proof {
            assert(note as int * pow2(octave as nat) == 0) by (nonlinear_arith)
                requires
                    note == 0,
            ;
        }
        Ratio::new(0, 1600)
    } else if octave > TOP_OCTAVE {
        proof {
            lemma_pow2_bound();
            lemma_pow2_strictly_increases(90, octave as nat);
            assert(note as int * pow2(octave as nat) > LIMIT * 1600) by (nonlinear_arith)
                requires
                    note >= 1,
                    pow2(octave as nat) > 0x400_0000_0000_0000_0000_0000,
                    LIMIT == 0x7fff_ffff_ffff_ffff,
            ;
            lemma_representable_bound(note as int * pow2(octave as nat), 1600);
        }
        None
    } else {
        let mut scaled: u128 = note as u128;
        let mut k: u8 = 0;
        proof {
            lemma2_to64();
            lemma_pow2_bound();
        }
        while k < octave
            invariant
                k <= octave <= TOP_OCTAVE,
                scaled == note as int * pow2(k as nat),
                scaled < 0x1_0000_0000 * pow2(k as nat),
                pow2(k as nat) <= pow2(90),
            decreases octave - k,
        {
            proof {
                vstd::arithmetic::power2::lemma_pow2_unfold((k + 1) as nat);
                if k + 1 < 90 {
                    lemma_pow2_strictly_increases((k + 1) as nat, 90);
                }
                lemma_pow2_bound();
                assert(scaled * 2 == note as int * (2 * pow2(k as nat))) by (nonlinear_arith)
                    requires
                        scaled == note as int * pow2(k as nat),
                ;
                assert(scaled * 2 < 0x1_0000_0000 * (2 * pow2(k as nat))) by (nonlinear_arith)
                    requires
                        scaled < 0x1_0000_0000 * pow2(k as nat),
                ;
                assert(0x1_0000_0000 * pow2(k as nat) <= 0x1_0000_0000 * pow2(90))
                    by (nonlinear_arith)
                    requires
                        pow2(k as nat) <= pow2(90),
                ;
            }
            scaled = scaled * 2;
            k = k + 1;
        }
        proof {
            lemma_pow2_bound();
            assert(0x1_0000_0000 * pow2(k as nat) <= 0x1_0000_0000 * pow2(90)) by (nonlinear_arith)
                requires
                    pow2(k as nat) <= pow2(90),
            ;
        }
        Ratio::from_parts(scaled as i128, 1600)
    }
}

/// `2^90`, written out.
pub proof fn lemma_pow2_bound()
    ensures
        pow2(90) == 0x400_0000_0000_0000_0000_0000,
{
    lemma2_to64();
    vstd::arithmetic::power2::lemma_pow2_adds(64, 26);
    assert(0x10000000000000000 * 0x4000000 == 0x400_0000_0000_0000_0000_0000int) by (nonlinear_arith);
}

} // verus!
