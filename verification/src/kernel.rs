//! The impulse response of a filter, as it is stored: 16-bit little-endian
//! samples, one after the other.

use crate::ratio::{lemma_in_range_representable, quotient, Ratio};
use crate::sampler::values_of;
use vstd::prelude::*;

verus! {

/// The value that stands for full scale.
pub const FULL_SCALE: i64 = 32767;

/// Why bytes are no impulse response.
#[derive(Clone, Copy, Debug, PartialEq, Eq, Structural)]
pub enum ResourceError {
    /// The last sample has one byte only.
    Truncated { length: usize },
}

/// The 16-bit number in two's complement whose low byte is `low` and whose high byte is `high`.
pub open spec fn signed16(low: u8, high: u8) -> int {
    if high >= 128 {
        low + 256 * high - 65536
    } else {
        low + 256 * high
    }
}

/// The samples that `bytes` hold, each divided by full scale.
pub open spec fn response_of(bytes: Seq<u8>) -> Seq<real> {
    Seq::new(
        bytes.len() / 2,
        |i: int| quotient(signed16(bytes[2 * i], bytes[2 * i + 1]), FULL_SCALE as int),
    )
}

/// Reads an impulse response: every two bytes are one sample, low byte first,
/// scaled so that full scale is 1. An odd number of bytes is refused.
pub fn impulse_response(bytes: &[u8]) -> (r: Result<Vec<Ratio>, ResourceError>)
    ensures
        match r {
            Ok(samples) => bytes@.len() % 2 == 0 && values_of(samples@) == response_of(bytes@),
            Err(e) => bytes@.len() % 2 == 1 && e == (ResourceError::Truncated {
                length: bytes@.len() as usize,
            }),
        },
{
    if bytes.len() % 2 != 0 {
        return Err(ResourceError::Truncated { length: bytes.len() });
    }
    let count: usize = bytes.len() / 2;
    let mut samples: Vec<Ratio> = Vec::new();
    let mut i: usize = 0;
    while i < count
        invariant
            i <= count,
            count == bytes@.len() / 2,
            bytes@.len() % 2 == 0,
            2 * count == bytes@.len(),
            bytes@.len() <= usize::MAX,
            samples@.len() == i,
            forall|k: int|
                0 <= k < i ==> (#[trigger] samples@[k])@ == quotient(
                    signed16(bytes@[2 * k], bytes@[2 * k + 1]),
                    FULL_SCALE as int,
                ),
        decreases count - i,
    {
        let low = bytes[2 * i];
        let high = bytes[2 * i + 1];
        let value: i64 = if high >= 128 {
            low as i64 + 256 * (high as i64) - 65536
        } else {
            low as i64 + 256 * (high as i64)
        };
        proof {
            lemma_in_range_representable(value as int, FULL_SCALE as int);
        }
        samples.push(Ratio::new(value, FULL_SCALE).unwrap());
        i = i + 1;
    }
    assert(values_of(samples@) =~= response_of(bytes@));
    Ok(samples)
}

} // verus!
